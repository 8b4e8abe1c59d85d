//! Value codecs: numbers, coordinates, flags, colors, ethic tables, dates.
use galaxy_cache::dates::{date_legible_bytes, setdate, setdate2};
use galaxy_cache::gamestate::{str_to_bool, str_to_color, str_to_coord};
use galaxy_cache::model::Ethic;
use galaxy_cache::num::{parser, usize_to_dec};

fn v(s: &str) -> Vec<u8> {
    s.as_bytes().to_vec()
}

#[test]
fn parser_reads_decimal() {
    assert_eq!(parser(&v("123")).unwrap(), 123);
    assert_eq!(parser(&v("0")).unwrap(), 0);
    assert!(parser(&v("")).is_err());
    assert!(parser(&v("12a")).is_err());
    assert!(parser(&v("99999999999999999999999")).is_err());
}

#[test]
fn usize_renders_decimal() {
    assert_eq!(usize_to_dec(0), v("0"));
    assert_eq!(usize_to_dec(907), v("907"));
}

#[test]
fn coord_scales_by_thousand() {
    assert_eq!(str_to_coord(&v("140.540")).unwrap(), 140540);
    assert_eq!(str_to_coord(&v("12")).unwrap(), 12000);
    assert_eq!(str_to_coord(&v("-1.5")).unwrap(), -1500);
    assert_eq!(str_to_coord(&v("1.23456")).unwrap(), 1234);
    assert_eq!(str_to_coord(&v("0.007")).unwrap(), 7);
    assert!(str_to_coord(&v("abc")).is_err());
    assert!(str_to_coord(&v("")).is_err());
}

#[test]
fn bool_reads_yes_no() {
    assert_eq!(str_to_bool(&v("yes")).unwrap(), true);
    assert_eq!(str_to_bool(&v("no")).unwrap(), false);
    assert!(str_to_bool(&v("maybe")).is_err());
}

#[test]
fn color_null_is_absent() {
    assert!(str_to_color(&v("null")).is_none());
    assert_eq!(str_to_color(&v("red_1")).unwrap(), v("red_1"));
}

#[test]
fn ethic_tables_map_tokens() {
    assert_eq!(Ethic::read_to_ethic(&v("Gestalt")), Ethic::Gestalt);
    assert_eq!(Ethic::read_to_ethic(&v("Xenophobe")), Ethic::Xenophobe);
    assert_eq!(
        Ethic::read_to_ethic(&v("weird")),
        Ethic::Non(v("weird"))
    );
    assert_eq!(
        Ethic::str_to_ethic(&v("ethic_gestalt_consciousness")),
        Ethic::Gestalt
    );
    assert_eq!(Ethic::str_to_ethic(&v("ethic_pacifist")), Ethic::Pacifist);
    assert_eq!(
        Ethic::str_to_ethic(&v("ethic_oddball")),
        Ethic::Non(v("ethic_oddball"))
    );
}

#[test]
fn ethic_display_round_trips() {
    let e = Ethic::Non(v("weird"));
    let shown = e.display();
    assert_eq!(shown, v("other: weird"));
    assert_eq!(Ethic::cache_ethic(&shown), e);
    let g = Ethic::Militarist;
    assert_eq!(Ethic::cache_ethic(&g.display()), g);
}

#[test]
fn header_date_decodes() {
    // The dated header of a gamestate: day count 14 for the fifteenth day
    // of the first month of 2200.
    assert_eq!(setdate(&v("date=\"2200.01.15\"")).unwrap(), 14);
    assert_eq!(setdate(&v("date=\"2205.07.23\"")).unwrap(), 2002);
    assert!(setdate(&v("date=\"22AB.01.15\"")).is_err());
    assert!(setdate(&v("short")).is_err());
    assert!(setdate(&v("date=\"2100.01.15\"")).is_err());
}

#[test]
fn legible_date_pads_only_multiples_of_ten() {
    // Day 15 of month 1: the zero-based month is a multiple of ten and is
    // padded, the zero-based day is not.
    assert_eq!(date_legible_bytes(14), v("2200.01.15"));
    // 2205.7.23: neither zero-based field is a multiple of ten.
    assert_eq!(date_legible_bytes(2002), v("2205.7.23"));
    // Day 1 of month 1: both are padded.
    assert_eq!(date_legible_bytes(0), v("2200.01.01"));
}

#[test]
fn cache_date_line_round_trips() {
    let mut line = date_legible_bytes(2002);
    line.extend_from_slice(b" {");
    assert_eq!(setdate2(&line).unwrap(), 2002);
    let mut line0 = date_legible_bytes(14);
    line0.extend_from_slice(b" {");
    assert_eq!(setdate2(&line0).unwrap(), 14);
    assert!(setdate2(&v("x {")).is_err());
    assert!(setdate2(&v("2200.01.15")).is_err());
    assert!(setdate2(&v("2100.1.1 {")).is_err());
}

#[test]
fn display_names_match_tables() {
    let eths = [
        Ethic::Gestalt,
        Ethic::Spiritualist,
        Ethic::Materialist,
        Ethic::Egalitarian,
        Ethic::Authoritarian,
        Ethic::Pacifist,
        Ethic::Militarist,
        Ethic::Xenophile,
        Ethic::Xenophobe,
    ];
    for e in eths.iter() {
        let shown = e.display();
        assert_eq!(Ethic::read_to_ethic(&shown), e.clone());
    }
}

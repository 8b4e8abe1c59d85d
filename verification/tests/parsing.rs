//! The gamestate parser on a small but complete save text.
use galaxy_cache::gamestate::save_analyser;
use galaxy_cache::model::Ethic;
use galaxy_cache::store::Everything;

fn v(s: &str) -> Vec<u8> {
    s.as_bytes().to_vec()
}

/// A gamestate with one species, three populated planets, one empire that
/// owns planets 1 and 3, and one star referencing planets 1, 2 and 3.
fn sample_gamestate() -> Vec<u8> {
    let lines = [
        "version=\"3.0\"",
        "version_control_revision=1",
        "name=\"save\"",
        "date=\"2200.01.15\"",
        "species={",
        "\t{",
        "\t\tname=\"Human\"",
        "\t\tplural=\"Humans\"",
        "\t\tadjective=\"Human\"",
        "\t\tportrait=\"human\"",
        "\t\ttraits={",
        "\t\t\ttrait=\"trait_nomadic\"",
        "\t\t}",
        "\t}",
        "}",
        "pop={",
        "\t10={",
        "\t\tspecies_index=0",
        "\t\t\tethic=\"ethic_xenophobe\"",
        "\t\tjob=\"farmer\"",
        "\t\tcategory=\"worker\"",
        "\t\tplanet=1",
        "\t\tenslaved=yes",
        "\t}",
        "\t11={",
        "\t\tspecies_index=0",
        "\t\tjob=\"ruler\"",
        "\t\tcategory=\"ruler\"",
        "\t\tplanet=1",
        "\t\tenslaved=no",
        "\t}",
        "\t12={",
        "\t\tspecies_index=0",
        "\t\tjob=\"miner\"",
        "\t\tcategory=\"worker\"",
        "\t\tplanet=2",
        "\t\tenslaved=no",
        "\t}",
        "\t13={",
        "\t\tspecies_index=0",
        "\t\tjob=\"farmer\"",
        "\t\tcategory=\"worker\"",
        "\t\tplanet=3",
        "\t\tenslaved=no",
        "\t}",
        "}",
        "galactic_object={",
        "\t0={",
        "\t\t\tx=1.5",
        "\t\t\ty=-2.25",
        "\t\ttype=star",
        "\t\tname=\"Sol\"",
        "\t\tplanet=1",
        "\t\tplanet=2",
        "\t\tplanet=3",
        "\t}",
        "}",
        "\tplanet={",
        "\t\t1={",
        "\t\t\tname=\"Earth\"",
        "\t\t\tplanet_size=16",
        "\t\t\tplanet_class=\"pc_continental\"",
        "\t\t}",
        "\t\t2={",
        "\t\t\tname=\"Mars\"",
        "\t\t\tplanet_size=12",
        "\t\t\tplanet_class=\"pc_desert\"",
        "\t\t}",
        "\t\t3={",
        "\t\t\tname=\"Luna\"",
        "\t\t\tplanet_size=8",
        "\t\t\tplanet_class=\"pc_barren\"",
        "\t\t}",
        "\t}",
        "country={",
        "\t0={",
        "\t\tname=\"Earth Custodianship\"",
        "\t\tadjective=\"Terran\"",
        "\t\tethos={",
        "\t\t\tethic=\"ethic_fanatic_xenophobe\"",
        "\t\t}",
        "\t\t\tcolors={",
        "\t\t\t\t\"red_1\"",
        "\t\t\t\t\"null\"",
        "\t\t\t\t\"null\"",
        "\t\t\t\t\"null\"",
        "\t\towned_planets={",
        "\t\t\t1 3 ",
        "\t}",
        "}",
    ];
    let mut out = Vec::new();
    for l in lines.iter() {
        out.extend_from_slice(l.as_bytes());
        out.push(b'\n');
    }
    out
}

#[test]
fn scenario_header_date_and_species() {
    let world = Everything::new();
    let g = save_analyser(&sample_gamestate(), &world)
        .unwrap()
        .unwrap();
    assert_eq!(g.date, 14);
    assert_eq!(g.species.len(), 1);
    assert_eq!(g.species[0].name, v("Human"));
    assert_eq!(g.species[0].plural, v("Humans"));
    assert_eq!(g.species[0].traits, vec![v("trait_nomadic")]);
    // Legible re-encoding: the zero-based month is a multiple of ten and
    // takes a leading zero; day 15 takes none.
    assert_eq!(g.date_legible(), v("2200.01.15"));
}

#[test]
fn scenario_empire_planets_and_pops() {
    let world = Everything::new();
    let g = save_analyser(&sample_gamestate(), &world)
        .unwrap()
        .unwrap();
    assert_eq!(g.empires.len(), 1);
    let e = &g.empires[0];
    assert_eq!(e.id, 0);
    assert_eq!(e.name, v("Earth Custodianship"));
    assert_eq!(e.adjective, v("Terran"));
    assert_eq!(e.color.c0, Some(v("red_1")));
    assert_eq!(e.color.c1, None);
    // The empire owns planets 1 and 3, in the listed order.
    assert_eq!(e.planets.len(), 2);
    assert_eq!(e.planets[0].id, 1);
    assert_eq!(e.planets[0].name, v("Earth"));
    assert_eq!(e.planets[0].size, 16);
    assert_eq!(e.planets[1].id, 3);
    // Planet 1 carries its two pops, one enslaved and one free.
    assert_eq!(e.planets[0].population.len(), 2);
    assert_eq!(e.planets[0].population[0].id, 10);
    assert_eq!(e.planets[0].population[0].slave, true);
    assert_eq!(e.planets[0].population[0].ethic, Ethic::Xenophobe);
    assert_eq!(e.planets[0].population[1].id, 11);
    assert_eq!(e.planets[0].population[1].slave, false);
}

#[test]
fn fanatic_ethic_fills_three_slots() {
    let world = Everything::new();
    let g = save_analyser(&sample_gamestate(), &world)
        .unwrap()
        .unwrap();
    // One fanatic xenophobe token, then the block's closing line: two slots
    // from the expansion and the third copied from the second.
    let t = g.empires[0].ethics.as_ref().unwrap();
    assert_eq!(t.e0, Ethic::Xenophobe);
    assert_eq!(t.e1, Ethic::Xenophobe);
    assert_eq!(t.e2, Ethic::Xenophobe);
}

#[test]
fn orphan_pruning_keeps_owned_ids() {
    let world = Everything::new();
    let g = save_analyser(&sample_gamestate(), &world)
        .unwrap()
        .unwrap();
    // The star referenced planets 1, 2 and 3; only 1 and 3 ended up owned.
    assert_eq!(g.obj.len(), 1);
    assert_eq!(g.obj[0].planets, vec![1, 3]);
    assert_eq!(g.obj[0].name, v("Sol"));
    assert_eq!(g.obj[0].typ, v("star"));
    assert_eq!(g.obj[0].x, 1500);
    assert_eq!(g.obj[0].y, -2250);
    assert_eq!(g.obj[0].get_name(), &v("Sol"));
}

#[test]
fn unowned_planet_appears_in_no_empire() {
    let world = Everything::new();
    let g = save_analyser(&sample_gamestate(), &world)
        .unwrap()
        .unwrap();
    // Planet 2 was populated but never claimed: no empire holds it.
    for e in g.empires.iter() {
        for p in e.planets.iter() {
            assert_ne!(p.id, 2);
        }
    }
}

#[test]
fn present_date_discards_parse() {
    let world = Everything::new();
    let g = save_analyser(&sample_gamestate(), &world)
        .unwrap()
        .unwrap();
    let mut world2 = Everything::new();
    world2.push(g);
    // The same archive against a store that already holds its date is
    // discarded whole.
    let second = save_analyser(&sample_gamestate(), &world2).unwrap();
    assert!(second.is_none());
}

#[test]
fn malformed_section_line_is_an_error() {
    let lines = ["a", "b", "c", "date=\"2200.01.15\"", "species={", "oops"];
    let mut out = Vec::new();
    for l in lines.iter() {
        out.extend_from_slice(l.as_bytes());
        out.push(b'\n');
    }
    let world = Everything::new();
    assert!(save_analyser(&out, &world).is_err());
}

#[test]
fn gestalt_token_ends_ethos_block() {
    let lines = [
        "a",
        "b",
        "c",
        "date=\"2201.02.03\"",
        "country={",
        "\t4={",
        "\t\tname=\"Hive\"",
        "\t\tadjective=\"Hive\"",
        "\t\tethos={",
        "\t\t\tethic=\"ethic_gestalt_consciousness\"",
        "\t\t}",
        "\t}",
        "}",
    ];
    let mut out = Vec::new();
    for l in lines.iter() {
        out.extend_from_slice(l.as_bytes());
        out.push(b'\n');
    }
    let world = Everything::new();
    let g = save_analyser(&out, &world).unwrap().unwrap();
    let t = g.empires[0].ethics.as_ref().unwrap();
    assert_eq!(t.e0, Ethic::Gestalt);
    assert_eq!(t.e1, Ethic::Gestalt);
    assert_eq!(t.e2, Ethic::Gestalt);
}

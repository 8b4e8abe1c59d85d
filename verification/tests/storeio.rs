//! The snapshot store: cache round trip, idempotent ingestion, stable
//! rewrites, bounding boxes.
use galaxy_cache::model::{Bounds, Colors, Empire, Ethic, EthicTriple, GalObject, Galaxy, Planet,
    Pop, Species};
use galaxy_cache::store::{reader, Everything};

fn v(s: &str) -> Vec<u8> {
    s.as_bytes().to_vec()
}

fn sample_galaxy(date: usize) -> Galaxy {
    let pop_slave = Pop {
        id: 10,
        species: 0,
        ethic: Ethic::Xenophobe,
        job: v("farmer"),
        category: v("worker"),
        slave: true,
    };
    let pop_free = Pop {
        id: 11,
        species: 0,
        ethic: Ethic::Non(v("ethic_oddball")),
        job: v("ruler"),
        category: v("ruler"),
        slave: false,
    };
    let planet = Planet {
        id: 1,
        name: v("Earth"),
        typ: v("pc_continental"),
        size: 16,
        population: vec![pop_slave, pop_free],
    };
    let empire = Empire {
        id: 0,
        name: v("Earth Custodianship"),
        adjective: v("Terran"),
        planets: vec![planet],
        ethics: Some(EthicTriple {
            e0: Ethic::Xenophobe,
            e1: Ethic::Xenophobe,
            e2: Ethic::Xenophobe,
        }),
        color: Colors { c0: Some(v("red_1")), c1: None, c2: None, c3: None },
    };
    let empire_bare = Empire {
        id: 7,
        name: v("Void Swarm"),
        adjective: v("Void"),
        planets: Vec::new(),
        ethics: None,
        color: Colors { c0: None, c1: None, c2: None, c3: None },
    };
    let species = Species {
        name: v("Human"),
        plural: v("Humans"),
        adjective: v("Human"),
        portrait: v("human"),
        traits: vec![v("trait_nomadic"), v("trait_wasteful")],
    };
    let species_bare = Species {
        name: v("Blorg"),
        plural: v("Blorgs"),
        adjective: v("Blorg"),
        portrait: v("fun"),
        traits: Vec::new(),
    };
    let obj = GalObject {
        id: 0,
        x: 1500,
        y: -2250,
        typ: v("star"),
        name: v("Sol"),
        planets: vec![1, 3],
    };
    Galaxy {
        maxc: Bounds { min_x: 0, max_x: 0, min_y: 0, max_y: 0 },
        date,
        empires: vec![empire, empire_bare],
        species: vec![species, species_bare],
        obj: vec![obj],
    }
}

#[test]
fn cache_round_trip_preserves_everything() {
    let mut world = Everything::new();
    world.push(sample_galaxy(14));
    world.push(sample_galaxy(374));
    let bytes = world.save();
    let world2 = Everything::read(&bytes).unwrap();
    assert_eq!(world2.get_obj_iter(), world.get_obj_iter());
}

#[test]
fn cache_round_trip_edge_values() {
    // Absent ethics, all colors absent, empty trait list, an empire with
    // zero planets, a planet with zero pops.
    let g = Galaxy {
        maxc: Bounds { min_x: 0, max_x: 0, min_y: 0, max_y: 0 },
        date: 0,
        empires: vec![Empire {
            id: 3,
            name: v(""),
            adjective: v(""),
            planets: vec![Planet {
                id: 9,
                name: v("Nowhere"),
                typ: v("pc_barren"),
                size: 0,
                population: Vec::new(),
            }],
            ethics: None,
            color: Colors { c0: None, c1: None, c2: None, c3: None },
        }],
        species: Vec::new(),
        obj: vec![GalObject {
            id: 2,
            x: i64::MIN,
            y: i64::MAX,
            typ: v(""),
            name: v(""),
            planets: Vec::new(),
        }],
    };
    let mut world = Everything::new();
    world.push(g);
    let bytes = world.save();
    let world2 = Everything::read(&bytes).unwrap();
    assert_eq!(world2.get_obj_iter(), world.get_obj_iter());
}

#[test]
fn color_slots_round_trip() {
    // A present color and an absent color both survive the cache codec.
    let mut world = Everything::new();
    world.push(sample_galaxy(5));
    let bytes = world.save();
    let world2 = Everything::read(&bytes).unwrap();
    let e = &world2.get_obj_iter()[0].empires[0];
    assert_eq!(e.color.c0, Some(v("red_1")));
    assert_eq!(e.color.c1, None);
}

#[test]
fn push_replaces_same_date() {
    let mut world = Everything::new();
    world.push(sample_galaxy(14));
    world.push(sample_galaxy(14));
    assert_eq!(world.get_obj_iter().len(), 1);
    assert!(world.contains_date(14));
    assert!(!world.contains_date(15));
}

fn sample_gamestate_text() -> Vec<u8> {
    let lines = [
        "x",
        "y",
        "z",
        "date=\"2200.01.15\"",
        "pop={",
        "\t10={",
        "\t\tspecies_index=0",
        "\t\tjob=\"farmer\"",
        "\t\tcategory=\"worker\"",
        "\t\tplanet=1",
        "\t\tenslaved=no",
        "\t}",
        "}",
        "galactic_object={",
        "\t0={",
        "\t\t\tx=2.5",
        "\t\t\ty=-1.25",
        "\t\ttype=star",
        "\t\tname=\"Sol\"",
        "\t\tplanet=1",
        "\t}",
        "}",
        "\tplanet={",
        "\t\t1={",
        "\t\t\tname=\"Earth\"",
        "\t\t\tplanet_size=16",
        "\t\t\tplanet_class=\"pc_continental\"",
        "\t\t}",
        "\t}",
        "country={",
        "\t0={",
        "\t\tname=\"Earth\"",
        "\t\tadjective=\"Terran\"",
        "\t\towned_planets={",
        "\t\t\t1 ",
        "\t}",
        "}",
    ];
    let mut out = Vec::new();
    for l in lines.iter() {
        out.extend_from_slice(l.as_bytes());
        out.push(b'\n');
    }
    out
}

#[test]
fn ingestion_is_idempotent() {
    // The same archive twice: one entry for its date, the second pass is a
    // no-op.
    let files = vec![sample_gamestate_text(), sample_gamestate_text()];
    let (world, fresh, errs) = reader(&None, &files).unwrap();
    assert_eq!(world.get_obj_iter().len(), 1);
    assert_eq!(fresh, 1);
    assert!(errs.is_empty());
}

#[test]
fn second_run_writes_identical_bytes() {
    let files = vec![sample_gamestate_text()];
    let (world, _, _) = reader(&None, &files).unwrap();
    let bytes1 = world.save();
    // A second run over an unchanged input directory with the cache in
    // place ingests nothing new and rewrites the very same bytes.
    let (world2, fresh2, errs2) = reader(&Some(bytes1.clone()), &files).unwrap();
    assert_eq!(fresh2, 0);
    assert!(errs2.is_empty());
    let bytes2 = world2.save();
    assert_eq!(bytes1, bytes2);
}

#[test]
fn malformed_archive_is_skipped_not_fatal() {
    let files = vec![v("garbage"), sample_gamestate_text()];
    let (world, fresh, errs) = reader(&None, &files).unwrap();
    assert_eq!(world.get_obj_iter().len(), 1);
    assert_eq!(fresh, 1);
    assert_eq!(errs.len(), 1);
}

#[test]
fn malformed_cache_is_fatal() {
    let files: Vec<Vec<u8>> = Vec::new();
    assert!(reader(&Some(v("not a cache")), &files).is_err());
}

#[test]
fn bounding_box_comes_from_first_snapshot() {
    let files = vec![sample_gamestate_text()];
    let (world, _, _) = reader(&None, &files).unwrap();
    let g = &world.get_obj_iter()[0];
    // Micro-coordinates 2500 and -1250, with the box grown from zero.
    assert_eq!(
        g.maxc(),
        Bounds { min_x: 0, max_x: 2500, min_y: -1250, max_y: 0 }
    );
}

//! The entity graph: species, pops, planets, empires, galactic objects, one
//! dated Galaxy snapshot, and the Everything store of snapshots.
//!
//! Every executable type has a mathematical view (`...V`) over `Seq` that the
//! contracts of the parsers and codecs speak of. Text is carried as bytes; a
//! coordinate is a micro-coordinate: the integer equal to 1000 times the real
//! game coordinate.
use vstd::prelude::*;

verus! {

/// A government ethic: nine named ones plus a verbatim fallback for
/// unrecognized tokens.
#[derive(Clone, PartialEq, Eq, Debug)]
pub enum Ethic {
    Gestalt,
    Spiritualist,
    Materialist,
    Egalitarian,
    Authoritarian,
    Pacifist,
    Militarist,
    Xenophile,
    Xenophobe,
    Non(Vec<u8>),
}

/// View of `Ethic`.
#[verifier::ext_equal]
pub enum EthicV {
    Gestalt,
    Spiritualist,
    Materialist,
    Egalitarian,
    Authoritarian,
    Pacifist,
    Militarist,
    Xenophile,
    Xenophobe,
    Non(Seq<u8>),
}

impl View for Ethic {
    type V = EthicV;

    open spec fn view(&self) -> EthicV {
        match self {
            Ethic::Gestalt => EthicV::Gestalt,
            Ethic::Spiritualist => EthicV::Spiritualist,
            Ethic::Materialist => EthicV::Materialist,
            Ethic::Egalitarian => EthicV::Egalitarian,
            Ethic::Authoritarian => EthicV::Authoritarian,
            Ethic::Pacifist => EthicV::Pacifist,
            Ethic::Militarist => EthicV::Militarist,
            Ethic::Xenophile => EthicV::Xenophile,
            Ethic::Xenophobe => EthicV::Xenophobe,
            Ethic::Non(s) => EthicV::Non(s@),
        }
    }
}

impl DeepView for Ethic {
    type V = EthicV;

    open spec fn deep_view(&self) -> EthicV {
        self.view()
    }
}

/// The three ethic slots of an empire with an ideology.
#[derive(Clone, PartialEq, Eq, Debug)]
pub struct EthicTriple {
    pub e0: Ethic,
    pub e1: Ethic,
    pub e2: Ethic,
}

/// View of `EthicTriple`.
#[verifier::ext_equal]
pub struct EthicTripleV {
    pub e0: EthicV,
    pub e1: EthicV,
    pub e2: EthicV,
}

impl View for EthicTriple {
    type V = EthicTripleV;

    open spec fn view(&self) -> EthicTripleV {
        EthicTripleV { e0: self.e0@, e1: self.e1@, e2: self.e2@ }
    }
}

impl DeepView for EthicTriple {
    type V = EthicTripleV;

    open spec fn deep_view(&self) -> EthicTripleV {
        self.view()
    }
}

/// A species: four text fields and an ordered trait list. Identified by its
/// position in the owning Galaxy's species list.
#[derive(Clone, PartialEq, Eq, Debug)]
pub struct Species {
    pub name: Vec<u8>,
    pub plural: Vec<u8>,
    pub adjective: Vec<u8>,
    pub portrait: Vec<u8>,
    pub traits: Vec<Vec<u8>>,
}

/// View of `Species`.
#[verifier::ext_equal]
pub struct SpeciesV {
    pub name: Seq<u8>,
    pub plural: Seq<u8>,
    pub adjective: Seq<u8>,
    pub portrait: Seq<u8>,
    pub traits: Seq<Seq<u8>>,
}

impl View for Species {
    type V = SpeciesV;

    open spec fn view(&self) -> SpeciesV {
        SpeciesV {
            name: self.name@,
            plural: self.plural@,
            adjective: self.adjective@,
            portrait: self.portrait@,
            traits: self.traits.deep_view(),
        }
    }
}

impl DeepView for Species {
    type V = SpeciesV;

    open spec fn deep_view(&self) -> SpeciesV {
        self.view()
    }
}

/// A population unit, owned by exactly one planet.
#[derive(Clone, PartialEq, Eq, Debug)]
pub struct Pop {
    pub id: usize,
    pub species: usize,
    pub ethic: Ethic,
    pub job: Vec<u8>,
    pub category: Vec<u8>,
    pub slave: bool,
}

/// View of `Pop`.
#[verifier::ext_equal]
pub struct PopV {
    pub id: usize,
    pub species: usize,
    pub ethic: EthicV,
    pub job: Seq<u8>,
    pub category: Seq<u8>,
    pub slave: bool,
}

impl View for Pop {
    type V = PopV;

    open spec fn view(&self) -> PopV {
        PopV {
            id: self.id,
            species: self.species,
            ethic: self.ethic@,
            job: self.job@,
            category: self.category@,
            slave: self.slave,
        }
    }
}

impl DeepView for Pop {
    type V = PopV;

    open spec fn deep_view(&self) -> PopV {
        self.view()
    }
}

/// A planet: id, name, class tag, size, and its pops.
#[derive(Clone, PartialEq, Eq, Debug)]
pub struct Planet {
    pub id: usize,
    pub name: Vec<u8>,
    pub typ: Vec<u8>,
    pub size: usize,
    pub population: Vec<Pop>,
}

/// View of `Planet`.
#[verifier::ext_equal]
pub struct PlanetV {
    pub id: usize,
    pub name: Seq<u8>,
    pub typ: Seq<u8>,
    pub size: usize,
    pub population: Seq<PopV>,
}

impl View for Planet {
    type V = PlanetV;

    open spec fn view(&self) -> PlanetV {
        PlanetV {
            id: self.id,
            name: self.name@,
            typ: self.typ@,
            size: self.size,
            population: self.population.deep_view(),
        }
    }
}

impl DeepView for Planet {
    type V = PlanetV;

    open spec fn deep_view(&self) -> PlanetV {
        self.view()
    }
}

/// The four optional color slots of an empire.
#[derive(Clone, PartialEq, Eq, Debug)]
pub struct Colors {
    pub c0: Option<Vec<u8>>,
    pub c1: Option<Vec<u8>>,
    pub c2: Option<Vec<u8>>,
    pub c3: Option<Vec<u8>>,
}

/// View of `Colors`.
#[verifier::ext_equal]
pub struct ColorsV {
    pub c0: Option<Seq<u8>>,
    pub c1: Option<Seq<u8>>,
    pub c2: Option<Seq<u8>>,
    pub c3: Option<Seq<u8>>,
}

impl View for Colors {
    type V = ColorsV;

    open spec fn view(&self) -> ColorsV {
        ColorsV {
            c0: self.c0.deep_view(),
            c1: self.c1.deep_view(),
            c2: self.c2.deep_view(),
            c3: self.c3.deep_view(),
        }
    }
}

impl DeepView for Colors {
    type V = ColorsV;

    open spec fn deep_view(&self) -> ColorsV {
        self.view()
    }
}

/// An empire: the planets it owns, an optional ethic triple, and four
/// optional color slots.
#[derive(Clone, PartialEq, Eq, Debug)]
pub struct Empire {
    pub id: usize,
    pub name: Vec<u8>,
    pub adjective: Vec<u8>,
    pub planets: Vec<Planet>,
    pub ethics: Option<EthicTriple>,
    pub color: Colors,
}

/// View of `Empire`.
#[verifier::ext_equal]
pub struct EmpireV {
    pub id: usize,
    pub name: Seq<u8>,
    pub adjective: Seq<u8>,
    pub planets: Seq<PlanetV>,
    pub ethics: Option<EthicTripleV>,
    pub color: ColorsV,
}

impl View for Empire {
    type V = EmpireV;

    open spec fn view(&self) -> EmpireV {
        EmpireV {
            id: self.id,
            name: self.name@,
            adjective: self.adjective@,
            planets: self.planets.deep_view(),
            ethics: self.ethics.deep_view(),
            color: self.color@,
        }
    }
}

impl DeepView for Empire {
    type V = EmpireV;

    open spec fn deep_view(&self) -> EmpireV {
        self.view()
    }
}

/// A galactic object (e.g. a star): micro-coordinates, tags, and the ids of
/// the planets located there.
#[derive(Clone, PartialEq, Eq, Debug)]
pub struct GalObject {
    pub id: usize,
    pub x: i64,
    pub y: i64,
    pub typ: Vec<u8>,
    pub name: Vec<u8>,
    pub planets: Vec<usize>,
}

/// View of `GalObject`.
#[verifier::ext_equal]
pub struct GalObjectV {
    pub id: usize,
    pub x: i64,
    pub y: i64,
    pub typ: Seq<u8>,
    pub name: Seq<u8>,
    pub planets: Seq<usize>,
}

impl View for GalObject {
    type V = GalObjectV;

    open spec fn view(&self) -> GalObjectV {
        GalObjectV {
            id: self.id,
            x: self.x,
            y: self.y,
            typ: self.typ@,
            name: self.name@,
            planets: self.planets@,
        }
    }
}

impl DeepView for GalObject {
    type V = GalObjectV;

    open spec fn deep_view(&self) -> GalObjectV {
        self.view()
    }
}

impl GalObject {
    /// The display name of the object.
    pub fn get_name(&self) -> (r: &Vec<u8>)
        ensures
            r@ == self@.name,
    {
        &self.name
    }
}

/// A bounding box over micro-coordinates: least and greatest x, then least
/// and greatest y.
#[derive(Clone, Copy, PartialEq, Eq, Structural, Debug)]
pub struct Bounds {
    pub min_x: i64,
    pub max_x: i64,
    pub min_y: i64,
    pub max_y: i64,
}

impl Bounds {
    /// The bounding box that every recomputation starts from.
    pub fn zero() -> (r: Bounds)
        ensures
            r == (Bounds { min_x: 0i64, max_x: 0i64, min_y: 0i64, max_y: 0i64 }),
    {
        Bounds { min_x: 0, max_x: 0, min_y: 0, max_y: 0 }
    }
}

/// One dated snapshot of the universe.
#[derive(Clone, PartialEq, Eq, Debug)]
pub struct Galaxy {
    pub maxc: Bounds,
    pub date: usize,
    pub empires: Vec<Empire>,
    pub species: Vec<Species>,
    pub obj: Vec<GalObject>,
}

/// View of `Galaxy`.
#[verifier::ext_equal]
pub struct GalaxyV {
    pub maxc: Bounds,
    pub date: usize,
    pub empires: Seq<EmpireV>,
    pub species: Seq<SpeciesV>,
    pub obj: Seq<GalObjectV>,
}

impl View for Galaxy {
    type V = GalaxyV;

    open spec fn view(&self) -> GalaxyV {
        GalaxyV {
            maxc: self.maxc,
            date: self.date,
            empires: self.empires.deep_view(),
            species: self.species.deep_view(),
            obj: self.obj.deep_view(),
        }
    }
}

impl DeepView for Galaxy {
    type V = GalaxyV;

    open spec fn deep_view(&self) -> GalaxyV {
        self.view()
    }
}

impl Galaxy {
    /// An empty snapshot: date zero, no entities, zero bounding box.
    pub fn new() -> (g: Galaxy)
        ensures
            g@.date == 0,
            g@.maxc == (Bounds { min_x: 0i64, max_x: 0i64, min_y: 0i64, max_y: 0i64 }),
            g@.empires =~= Seq::<EmpireV>::empty(),
            g@.species =~= Seq::<SpeciesV>::empty(),
            g@.obj =~= Seq::<GalObjectV>::empty(),
    {
        Galaxy {
            maxc: Bounds::zero(),
            date: 0,
            empires: Vec::new(),
            species: Vec::new(),
            obj: Vec::new(),
        }
    }

    /// The bounding box, in micro-coordinates.
    pub fn maxc(&self) -> (r: Bounds)
        ensures
            r == self@.maxc,
    {
        self.maxc
    }

    /// Overwrites the bounding box.
    pub fn update_max(&mut self, inp: Bounds)
        ensures
            final(self)@ == (GalaxyV { maxc: inp, ..old(self)@ }),
    {
        self.maxc = inp;
    }

    /// The galactic objects of the snapshot, for iteration by a consumer.
    pub fn get_obj_iter(&self) -> (r: &Vec<GalObject>)
        ensures
            r.deep_view() == self@.obj,
    {
        &self.obj
    }

    /// Appends an empire.
    pub fn push(&mut self, inp: Empire)
        ensures
            final(self)@ == (GalaxyV {
                empires: old(self)@.empires.push(inp@),
                ..old(self)@
            }),
    {
        self.empires.push(inp);
    }

    /// Replaces the galactic-object list wholesale.
    pub fn push_g(&mut self, inp: Vec<GalObject>)
        ensures
            final(self)@ == (GalaxyV { obj: inp.deep_view(), ..old(self)@ }),
    {
        self.obj = inp;
    }
}

} // verus!

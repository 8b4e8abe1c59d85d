//! The compact cache codec: a tab-indented, brace-delimited rendering of the
//! snapshot store, lossless for every retained field. Encoding is specified
//! line by line; decoding mirrors the grammar and is proved to invert
//! encoding on every well-formed value.
use crate::dates::{cache_date_of, legible_of, setdate2};
use crate::errors::{ParseError, Section};
use crate::ethic::{cache_ethic_of, display_of};
use crate::model::{Bounds, Colors, ColorsV, Empire, EmpireV, Ethic, EthicTriple, EthicTripleV,
    EthicV, GalObject, GalObjectV, Galaxy, GalaxyV, Planet, PlanetV, Pop, PopV, Species, SpeciesV};
use crate::num::{all_digits, dec_of, dec_val, lemma_dec_of_digits, lemma_dec_val_dec_of, parser};
use crate::text::{append, bytes_eq, find_byte, lemma_find_byte_at, lemma_find_byte_bounds,
    lit_brace_suffix, lit_close_brace, lit_colors_w, lit_comma_sp, lit_disp_gestalt,
    lit_empires_w, lit_ethics_w, lit_false_w, lit_lparen, lit_none_w, lit_objects_w,
    lit_planets_w, lit_pops_w, lit_rparen, lit_species_w, lit_traits_w, lit_true_w, find_byte_at,
    mk_brace_suffix, mk_close_brace, mk_colors_w, mk_comma_sp, mk_disp_gestalt, mk_empires_w,
    mk_ethics_w, mk_false_w, mk_lparen, mk_none_w, mk_objects_w, mk_planets_w, mk_pops_w,
    mk_rparen, mk_species_w, mk_tabs, mk_traits_w, mk_true_w, slice_of, tabs};
use vstd::prelude::*;

verus! {

// ------------------------------------------------------------------
// Lines and their byte rendering
// ------------------------------------------------------------------

/// The byte rendering of a line sequence: each line followed by a newline.
pub open spec fn join_lines(ls: Seq<Seq<u8>>) -> Seq<u8>
    decreases ls.len(),
{
    if ls.len() == 0 {
        Seq::empty()
    } else {
        ls[0] + seq![10u8] + join_lines(ls.drop_first())
    }
}

pub proof fn lemma_join_concat(a: Seq<Seq<u8>>, b: Seq<Seq<u8>>)
    ensures
        join_lines(a + b) == join_lines(a) + join_lines(b),
    decreases a.len(),
{
    if a.len() == 0 {
        assert(a + b =~= b);
        assert(join_lines(a) + join_lines(b) =~= join_lines(b));
    } else {
        assert((a + b).drop_first() =~= a.drop_first() + b);
        assert((a + b)[0] == a[0]);
        lemma_join_concat(a.drop_first(), b);
        assert(join_lines(a + b) =~= join_lines(a) + join_lines(b));
    }
}

pub proof fn lemma_join_snoc(ls: Seq<Seq<u8>>, l: Seq<u8>)
    ensures
        join_lines(ls.push(l)) == join_lines(ls) + l + seq![10u8],
{
    assert(ls.push(l) =~= ls + seq![l]);
    lemma_join_concat(ls, seq![l]);
    assert(seq![l].drop_first() =~= Seq::<Seq<u8>>::empty());
    assert(join_lines(Seq::<Seq<u8>>::empty()) =~= Seq::<u8>::empty());
    assert(join_lines(seq![l]) =~= l + seq![10u8]);
    assert(join_lines(ls) + (l + seq![10u8]) =~= join_lines(ls) + l + seq![10u8]);
}

/// Appends one line and its newline to the output buffer.
pub fn push_line(out: &mut Vec<u8>, line: &Vec<u8>)
    ensures
        final(out)@ == old(out)@ + line@ + seq![10u8],
{
    append(out, line);
    out.push(10u8);
    proof {
        assert((old(out)@ + line@).push(10u8) =~= old(out)@ + line@ + seq![10u8]);
    }
}

// ------------------------------------------------------------------
// Well-formedness: what the codec can represent losslessly
// ------------------------------------------------------------------

/// Text that may stand on a line of its own: no newline byte.
pub open spec fn text_ok(s: Seq<u8>) -> bool {
    forall|k: int| 0 <= k < s.len() ==> s[k] != 10u8
}

/// Text that may stand in a tab-separated field: no newline, no tab.
pub open spec fn field_ok(s: Seq<u8>) -> bool {
    forall|k: int| 0 <= k < s.len() ==> s[k] != 10u8 && s[k] != 9u8
}

/// An ethic in an empire slot: a verbatim token must fit on a line.
pub open spec fn ethic_ok(e: EthicV) -> bool {
    match e {
        EthicV::Non(s) => text_ok(s),
        _ => true,
    }
}

/// An ethic in a pop field: a verbatim token must fit in a field.
pub open spec fn pop_ethic_ok(e: EthicV) -> bool {
    match e {
        EthicV::Non(s) => field_ok(s),
        _ => true,
    }
}

pub open spec fn species_ok(s: SpeciesV) -> bool {
    &&& text_ok(s.name)
    &&& text_ok(s.plural)
    &&& text_ok(s.adjective)
    &&& text_ok(s.portrait)
    &&& forall|k: int| 0 <= k < s.traits.len() ==> text_ok(#[trigger] s.traits[k])
}

pub open spec fn pop_ok(p: PopV) -> bool {
    &&& field_ok(p.job)
    &&& field_ok(p.category)
    &&& pop_ethic_ok(p.ethic)
}

pub open spec fn planet_ok(p: PlanetV) -> bool {
    &&& text_ok(p.name)
    &&& text_ok(p.typ)
    &&& forall|k: int| 0 <= k < p.population.len() ==> pop_ok(#[trigger] p.population[k])
}

/// A color slot: absent, or a token that is not the absence marker itself.
pub open spec fn color_ok(c: Option<Seq<u8>>) -> bool {
    match c {
        None => true,
        Some(s) => text_ok(s) && s != lit_none_w(),
    }
}

/// An ethic triple: a leading Gestalt slot implies an all-Gestalt triple —
/// the invariant the gamestate parser establishes, and the form the codec
/// abbreviates to a single line.
pub open spec fn triple_ok(t: EthicTripleV) -> bool {
    &&& ethic_ok(t.e0)
    &&& ethic_ok(t.e1)
    &&& ethic_ok(t.e2)
    &&& (t.e0 == EthicV::Gestalt ==> t.e1 == EthicV::Gestalt && t.e2 == EthicV::Gestalt)
}

pub open spec fn empire_ok(e: EmpireV) -> bool {
    &&& text_ok(e.name)
    &&& text_ok(e.adjective)
    &&& match e.ethics {
        None => true,
        Some(t) => triple_ok(t),
    }
    &&& color_ok(e.color.c0)
    &&& color_ok(e.color.c1)
    &&& color_ok(e.color.c2)
    &&& color_ok(e.color.c3)
    &&& forall|k: int| 0 <= k < e.planets.len() ==> planet_ok(#[trigger] e.planets[k])
}

pub open spec fn obj_ok(o: GalObjectV) -> bool {
    &&& text_ok(o.name)
    &&& text_ok(o.typ)
}

pub open spec fn galaxy_ok(g: GalaxyV) -> bool {
    &&& forall|k: int| 0 <= k < g.species.len() ==> species_ok(#[trigger] g.species[k])
    &&& forall|k: int| 0 <= k < g.empires.len() ==> empire_ok(#[trigger] g.empires[k])
    &&& forall|k: int| 0 <= k < g.obj.len() ==> obj_ok(#[trigger] g.obj[k])
}

// ------------------------------------------------------------------
// Line-level encoding
// ------------------------------------------------------------------

/// Decimal rendering of a signed coordinate.
pub open spec fn i64_dec(x: int) -> Seq<u8> {
    if x < 0 {
        seq!['-' as u8] + dec_of((-x) as nat)
    } else {
        dec_of(x as nat)
    }
}

/// The single tab-separated line of one pop.
pub open spec fn pop_line(p: PopV) -> Seq<u8> {
    dec_of(p.id as nat) + seq![9u8] + dec_of(p.species as nat) + seq![9u8] + display_of(p.ethic)
        + seq![9u8] + p.job + seq![9u8] + p.category + seq![9u8] + (if p.slave {
        lit_true_w()
    } else {
        lit_false_w()
    }) + seq![9u8]
}

pub open spec fn pops_lines(ps: Seq<PopV>) -> Seq<Seq<u8>> {
    ps.map_values(|p: PopV| pop_line(p))
}

/// The lines of one planet.
pub open spec fn planet_lines(p: PlanetV) -> Seq<Seq<u8>> {
    seq![
        tabs(4) + dec_of(p.id as nat) + lit_brace_suffix(),
        tabs(5) + p.name,
        tabs(5) + p.typ,
        tabs(5) + dec_of(p.size as nat),
        tabs(5) + lit_pops_w(),
    ] + pops_lines(p.population) + seq![
        tabs(5) + lit_close_brace(),
        tabs(4) + lit_close_brace(),
    ]
}

pub open spec fn planets_lines(ps: Seq<PlanetV>) -> Seq<Seq<u8>>
    decreases ps.len(),
{
    if ps.len() == 0 {
        Seq::empty()
    } else {
        planet_lines(ps[0]) + planets_lines(ps.drop_first())
    }
}

/// The ethic slot lines of an empire: `None`, the Gestalt abbreviation, or
/// the three display names.
pub open spec fn ethics_lines(e: Option<EthicTripleV>) -> Seq<Seq<u8>> {
    match e {
        None => seq![tabs(4) + lit_none_w()],
        Some(t) => {
            if t.e0 == EthicV::Gestalt {
                seq![tabs(4) + lit_disp_gestalt()]
            } else {
                seq![
                    tabs(4) + display_of(t.e0),
                    tabs(4) + display_of(t.e1),
                    tabs(4) + display_of(t.e2),
                ]
            }
        },
    }
}

/// One color slot line.
pub open spec fn color_line(c: Option<Seq<u8>>) -> Seq<u8> {
    match c {
        None => tabs(4) + lit_none_w(),
        Some(s) => tabs(4) + s,
    }
}

/// The lines of one empire.
pub open spec fn empire_lines(e: EmpireV) -> Seq<Seq<u8>> {
    seq![
        tabs(2) + dec_of(e.id as nat) + lit_brace_suffix(),
        tabs(3) + e.name,
        tabs(3) + e.adjective,
        tabs(3) + lit_ethics_w(),
    ] + ethics_lines(e.ethics) + seq![tabs(3) + lit_close_brace(), tabs(3) + lit_planets_w()]
        + planets_lines(e.planets) + seq![
        tabs(3) + lit_close_brace(),
        tabs(3) + lit_colors_w(),
        color_line(e.color.c0),
        color_line(e.color.c1),
        color_line(e.color.c2),
        color_line(e.color.c3),
        tabs(3) + lit_close_brace(),
        tabs(2) + lit_close_brace(),
    ]
}

pub open spec fn empires_lines(es: Seq<EmpireV>) -> Seq<Seq<u8>>
    decreases es.len(),
{
    if es.len() == 0 {
        Seq::empty()
    } else {
        empire_lines(es[0]) + empires_lines(es.drop_first())
    }
}

/// The lines of one species entry at position `idx` of the species list.
pub open spec fn species_lines(idx: nat, s: SpeciesV) -> Seq<Seq<u8>> {
    seq![
        tabs(2) + dec_of(idx) + lit_brace_suffix(),
        tabs(3) + s.name,
        tabs(3) + s.plural,
        tabs(3) + s.adjective,
        tabs(3) + s.portrait,
        tabs(3) + lit_traits_w(),
    ] + s.traits.map_values(|t: Seq<u8>| tabs(4) + t) + seq![
        tabs(3) + lit_close_brace(),
        tabs(2) + lit_close_brace(),
    ]
}

pub open spec fn species_list_lines(ss: Seq<SpeciesV>, idx: nat) -> Seq<Seq<u8>>
    decreases ss.len(),
{
    if ss.len() == 0 {
        Seq::empty()
    } else {
        species_lines(idx, ss[0]) + species_list_lines(ss.drop_first(), idx + 1)
    }
}

/// The lines of one galactic object.
pub open spec fn obj_lines(o: GalObjectV) -> Seq<Seq<u8>> {
    seq![
        tabs(2) + dec_of(o.id as nat) + lit_brace_suffix(),
        tabs(3) + o.name,
        tabs(3) + o.typ,
        tabs(3) + lit_lparen() + i64_dec(o.x as int) + lit_comma_sp() + i64_dec(o.y as int)
            + lit_rparen(),
        tabs(3) + lit_planets_w(),
    ] + o.planets.map_values(|pid: usize| tabs(4) + dec_of(pid as nat)) + seq![
        tabs(3) + lit_close_brace(),
        tabs(2) + lit_close_brace(),
    ]
}

pub open spec fn objs_lines(os: Seq<GalObjectV>) -> Seq<Seq<u8>>
    decreases os.len(),
{
    if os.len() == 0 {
        Seq::empty()
    } else {
        obj_lines(os[0]) + objs_lines(os.drop_first())
    }
}

/// The lines of one snapshot.
pub open spec fn galaxy_lines(g: GalaxyV) -> Seq<Seq<u8>> {
    seq![legible_of(g.date as int) + lit_brace_suffix(), tabs(1) + lit_species_w()]
        + species_list_lines(g.species, 0) + seq![
        tabs(1) + lit_close_brace(),
        tabs(1) + lit_empires_w(),
    ] + empires_lines(g.empires) + seq![tabs(1) + lit_close_brace(), tabs(1) + lit_objects_w()]
        + objs_lines(g.obj) + seq![tabs(1) + lit_close_brace(), lit_close_brace()]
}

pub open spec fn galaxies_lines(gs: Seq<GalaxyV>) -> Seq<Seq<u8>>
    decreases gs.len(),
{
    if gs.len() == 0 {
        Seq::empty()
    } else {
        galaxy_lines(gs[0]) + galaxies_lines(gs.drop_first())
    }
}


// ------------------------------------------------------------------
// Join helpers for fixed line groups
// ------------------------------------------------------------------

pub proof fn lemma_join1(a: Seq<u8>)
    ensures
        join_lines(seq![a]) == a + seq![10u8],
{
    assert(seq![a] =~= Seq::<Seq<u8>>::empty().push(a));
    lemma_join_snoc(Seq::<Seq<u8>>::empty(), a);
    assert(join_lines(Seq::<Seq<u8>>::empty()) =~= Seq::<u8>::empty());
    assert(Seq::<u8>::empty() + a + seq![10u8] =~= a + seq![10u8]);
}

pub proof fn lemma_join2(a: Seq<u8>, b: Seq<u8>)
    ensures
        join_lines(seq![a, b]) == a + seq![10u8] + b + seq![10u8],
{
    assert(seq![a, b] =~= seq![a].push(b));
    lemma_join_snoc(seq![a], b);
    lemma_join1(a);
}

pub proof fn lemma_join5(a: Seq<u8>, b: Seq<u8>, c: Seq<u8>, d: Seq<u8>, e: Seq<u8>)
    ensures
        join_lines(seq![a, b, c, d, e]) == a + seq![10u8] + b + seq![10u8] + c + seq![10u8] + d
            + seq![10u8] + e + seq![10u8],
{
    assert(seq![a, b, c, d, e] =~= seq![a, b, c, d].push(e));
    assert(seq![a, b, c, d] =~= seq![a, b, c].push(d));
    assert(seq![a, b, c] =~= seq![a, b].push(c));
    lemma_join2(a, b);
    lemma_join_snoc(seq![a, b], c);
    lemma_join_snoc(seq![a, b, c], d);
    lemma_join_snoc(seq![a, b, c, d], e);
}

// ------------------------------------------------------------------
// Snoc lemmas for the recursive list encodings
// ------------------------------------------------------------------

pub proof fn lemma_planets_lines_snoc(ps: Seq<PlanetV>, p: PlanetV)
    ensures
        planets_lines(ps.push(p)) == planets_lines(ps) + planet_lines(p),
    decreases ps.len(),
{
    if ps.len() == 0 {
        assert(ps.push(p).drop_first() =~= Seq::<PlanetV>::empty());
        assert(planets_lines(Seq::<PlanetV>::empty()) =~= Seq::<Seq<u8>>::empty());
        assert(planets_lines(ps.push(p)) =~= planets_lines(ps) + planet_lines(p));
    } else {
        assert(ps.push(p).drop_first() =~= ps.drop_first().push(p));
        lemma_planets_lines_snoc(ps.drop_first(), p);
        assert(planets_lines(ps.push(p)) =~= planets_lines(ps) + planet_lines(p));
    }
}

pub proof fn lemma_empires_lines_snoc(es: Seq<EmpireV>, e: EmpireV)
    ensures
        empires_lines(es.push(e)) == empires_lines(es) + empire_lines(e),
    decreases es.len(),
{
    if es.len() == 0 {
        assert(es.push(e).drop_first() =~= Seq::<EmpireV>::empty());
        assert(empires_lines(Seq::<EmpireV>::empty()) =~= Seq::<Seq<u8>>::empty());
        assert(empires_lines(es.push(e)) =~= empires_lines(es) + empire_lines(e));
    } else {
        assert(es.push(e).drop_first() =~= es.drop_first().push(e));
        lemma_empires_lines_snoc(es.drop_first(), e);
        assert(empires_lines(es.push(e)) =~= empires_lines(es) + empire_lines(e));
    }
}

pub proof fn lemma_species_list_lines_snoc(ss: Seq<SpeciesV>, x: SpeciesV, idx: nat)
    ensures
        species_list_lines(ss.push(x), idx) == species_list_lines(ss, idx) + species_lines(
            idx + ss.len(),
            x,
        ),
    decreases ss.len(),
{
    if ss.len() == 0 {
        assert(ss.push(x).drop_first() =~= Seq::<SpeciesV>::empty());
        assert(species_list_lines(Seq::<SpeciesV>::empty(), idx + 1) =~= Seq::<Seq<u8>>::empty());
        assert(species_list_lines(ss.push(x), idx) =~= species_list_lines(ss, idx)
            + species_lines(idx + ss.len(), x));
    } else {
        assert(ss.push(x).drop_first() =~= ss.drop_first().push(x));
        lemma_species_list_lines_snoc(ss.drop_first(), x, idx + 1);
        assert(species_list_lines(ss.push(x), idx) =~= species_list_lines(ss, idx)
            + species_lines(idx + ss.len(), x));
    }
}

pub proof fn lemma_objs_lines_snoc(os: Seq<GalObjectV>, o: GalObjectV)
    ensures
        objs_lines(os.push(o)) == objs_lines(os) + obj_lines(o),
    decreases os.len(),
{
    if os.len() == 0 {
        assert(os.push(o).drop_first() =~= Seq::<GalObjectV>::empty());
        assert(objs_lines(Seq::<GalObjectV>::empty()) =~= Seq::<Seq<u8>>::empty());
        assert(objs_lines(os.push(o)) =~= objs_lines(os) + obj_lines(o));
    } else {
        assert(os.push(o).drop_first() =~= os.drop_first().push(o));
        lemma_objs_lines_snoc(os.drop_first(), o);
        assert(objs_lines(os.push(o)) =~= objs_lines(os) + obj_lines(o));
    }
}

pub proof fn lemma_galaxies_lines_snoc(gs: Seq<GalaxyV>, g: GalaxyV)
    ensures
        galaxies_lines(gs.push(g)) == galaxies_lines(gs) + galaxy_lines(g),
    decreases gs.len(),
{
    if gs.len() == 0 {
        assert(gs.push(g).drop_first() =~= Seq::<GalaxyV>::empty());
        assert(galaxies_lines(Seq::<GalaxyV>::empty()) =~= Seq::<Seq<u8>>::empty());
        assert(galaxies_lines(gs.push(g)) =~= galaxies_lines(gs) + galaxy_lines(g));
    } else {
        assert(gs.push(g).drop_first() =~= gs.drop_first().push(g));
        lemma_galaxies_lines_snoc(gs.drop_first(), g);
        assert(galaxies_lines(gs.push(g)) =~= galaxies_lines(gs) + galaxy_lines(g));
    }
}

// ------------------------------------------------------------------
// Executable encoders
// ------------------------------------------------------------------

/// Renders a signed coordinate in decimal.
pub fn i64_to_dec(x: i64) -> (v: Vec<u8>)
    ensures
        v@ == i64_dec(x as int),
{
    if x >= 0 {
        crate::num::u64_to_dec(x as u64)
    } else {
        let mag: u64 = if x == i64::MIN {
            9223372036854775808u64
        } else {
            (-x) as u64
        };
        let mut v: Vec<u8> = Vec::new();
        v.push('-' as u8);
        let m = crate::num::u64_to_dec(mag);
        append(&mut v, &m);
        proof {
            assert(v@ =~= i64_dec(x as int));
        }
        v
    }
}

impl Pop {
    /// Appends the single tab-separated line of this pop.
    pub fn save(&self, out: &mut Vec<u8>)
        ensures
            final(out)@ == old(out)@ + pop_line(self@) + seq![10u8],
    {
        let mut l = crate::num::usize_to_dec(self.id);
        l.push(9u8);
        let sp = crate::num::usize_to_dec(self.species);
        append(&mut l, &sp);
        l.push(9u8);
        let et = self.ethic.display();
        append(&mut l, &et);
        l.push(9u8);
        append(&mut l, &self.job);
        l.push(9u8);
        append(&mut l, &self.category);
        l.push(9u8);
        if self.slave {
            let w = mk_true_w();
            append(&mut l, &w);
        } else {
            let w = mk_false_w();
            append(&mut l, &w);
        }
        l.push(9u8);
        proof {
            assert(l@ =~= pop_line(self@));
        }
        push_line(out, &l);
    }
}

impl Planet {
    /// Appends the lines of this planet.
    pub fn save(&self, out: &mut Vec<u8>)
        ensures
            final(out)@ == old(out)@ + join_lines(planet_lines(self@)),
    {
        let mut l1 = mk_tabs(4);
        let idv = crate::num::usize_to_dec(self.id);
        append(&mut l1, &idv);
        let bs = mk_brace_suffix();
        append(&mut l1, &bs);
        push_line(out, &l1);
        let mut l2 = mk_tabs(5);
        append(&mut l2, &self.name);
        push_line(out, &l2);
        let mut l3 = mk_tabs(5);
        append(&mut l3, &self.typ);
        push_line(out, &l3);
        let mut l4 = mk_tabs(5);
        let sz = crate::num::usize_to_dec(self.size);
        append(&mut l4, &sz);
        push_line(out, &l4);
        let mut l5 = mk_tabs(5);
        let pw = mk_pops_w();
        append(&mut l5, &pw);
        push_line(out, &l5);
        let ghost base = out@;
        let ghost popsv = self.population.deep_view();
        let mut i: usize = 0;
        while i < self.population.len()
            invariant
                i <= self.population@.len(),
                popsv == self.population.deep_view(),
                popsv.len() == self.population@.len(),
                out@ == base + join_lines(pops_lines(popsv.subrange(0, i as int))),
            decreases self.population@.len() - i,
        {
            let ghost pre_ls = pops_lines(popsv.subrange(0, i as int));
            self.population[i].save(out);
            proof {
                assert(self.population@[i as int]@ == popsv[i as int]);
                lemma_join_snoc(pre_ls, pop_line(popsv[i as int]));
                assert(pops_lines(popsv.subrange(0, i + 1)) =~= pre_ls.push(
                    pop_line(popsv[i as int]),
                ));
            }
            i = i + 1;
        }
        proof {
            assert(popsv.subrange(0, popsv.len() as int) =~= popsv);
        }
        let mut l6 = mk_tabs(5);
        let cb = mk_close_brace();
        append(&mut l6, &cb);
        push_line(out, &l6);
        let mut l7 = mk_tabs(4);
        let cb2 = mk_close_brace();
        append(&mut l7, &cb2);
        push_line(out, &l7);
        proof {
            let pl = planet_lines(self@);
            assert(pl =~= seq![l1@, l2@, l3@, l4@, l5@] + pops_lines(popsv) + seq![l6@, l7@]);
            lemma_join_concat(seq![l1@, l2@, l3@, l4@, l5@], pops_lines(popsv));
            lemma_join_concat(
                seq![l1@, l2@, l3@, l4@, l5@] + pops_lines(popsv),
                seq![l6@, l7@],
            );
            lemma_join5(l1@, l2@, l3@, l4@, l5@);
            lemma_join2(l6@, l7@);
            assert(out@ =~= old(out)@ + join_lines(pl));
        }
    }
}


pub proof fn lemma_join3(a: Seq<u8>, b: Seq<u8>, c: Seq<u8>)
    ensures
        join_lines(seq![a, b, c]) == a + seq![10u8] + b + seq![10u8] + c + seq![10u8],
{
    assert(seq![a, b, c] =~= seq![a, b].push(c));
    lemma_join2(a, b);
    lemma_join_snoc(seq![a, b], c);
}

pub proof fn lemma_join4(a: Seq<u8>, b: Seq<u8>, c: Seq<u8>, d: Seq<u8>)
    ensures
        join_lines(seq![a, b, c, d]) == a + seq![10u8] + b + seq![10u8] + c + seq![10u8] + d
            + seq![10u8],
{
    assert(seq![a, b, c, d] =~= seq![a, b, c].push(d));
    lemma_join3(a, b, c);
    lemma_join_snoc(seq![a, b, c], d);
}

pub proof fn lemma_join6(a: Seq<u8>, b: Seq<u8>, c: Seq<u8>, d: Seq<u8>, e: Seq<u8>, f: Seq<u8>)
    ensures
        join_lines(seq![a, b, c, d, e, f]) == a + seq![10u8] + b + seq![10u8] + c + seq![10u8] + d
            + seq![10u8] + e + seq![10u8] + f + seq![10u8],
{
    assert(seq![a, b, c, d, e, f] =~= seq![a, b, c, d, e].push(f));
    lemma_join5(a, b, c, d, e);
    lemma_join_snoc(seq![a, b, c, d, e], f);
}

pub proof fn lemma_join8(
    a: Seq<u8>,
    b: Seq<u8>,
    c: Seq<u8>,
    d: Seq<u8>,
    e: Seq<u8>,
    f: Seq<u8>,
    g: Seq<u8>,
    h: Seq<u8>,
)
    ensures
        join_lines(seq![a, b, c, d, e, f, g, h]) == a + seq![10u8] + b + seq![10u8] + c + seq![10u8]
            + d + seq![10u8] + e + seq![10u8] + f + seq![10u8] + g + seq![10u8] + h + seq![10u8],
{
    assert(seq![a, b, c, d, e, f, g, h] =~= seq![a, b, c, d, e, f, g].push(h));
    assert(seq![a, b, c, d, e, f, g] =~= seq![a, b, c, d, e, f].push(g));
    lemma_join6(a, b, c, d, e, f);
    lemma_join_snoc(seq![a, b, c, d, e, f], g);
    lemma_join_snoc(seq![a, b, c, d, e, f, g], h);
}

impl Species {
    /// Appends the lines of this species entry, headed by its list position.
    pub fn save(&self, id: usize, out: &mut Vec<u8>)
        ensures
            final(out)@ == old(out)@ + join_lines(species_lines(id as nat, self@)),
    {
        let mut l1 = mk_tabs(2);
        let idv = crate::num::usize_to_dec(id);
        append(&mut l1, &idv);
        let bs = mk_brace_suffix();
        append(&mut l1, &bs);
        push_line(out, &l1);
        let mut l2 = mk_tabs(3);
        append(&mut l2, &self.name);
        push_line(out, &l2);
        let mut l3 = mk_tabs(3);
        append(&mut l3, &self.plural);
        push_line(out, &l3);
        let mut l4 = mk_tabs(3);
        append(&mut l4, &self.adjective);
        push_line(out, &l4);
        let mut l5 = mk_tabs(3);
        append(&mut l5, &self.portrait);
        push_line(out, &l5);
        let mut l6 = mk_tabs(3);
        let tw = mk_traits_w();
        append(&mut l6, &tw);
        push_line(out, &l6);
        let ghost base = out@;
        let ghost traitsv = self.traits.deep_view();
        let ghost tline = |t: Seq<u8>| tabs(4) + t;
        let mut i: usize = 0;
        while i < self.traits.len()
            invariant
                i <= self.traits@.len(),
                traitsv == self.traits.deep_view(),
                traitsv.len() == self.traits@.len(),
                tline == (|t: Seq<u8>| tabs(4) + t),
                out@ == base + join_lines(traitsv.subrange(0, i as int).map_values(tline)),
            decreases self.traits@.len() - i,
        {
            let ghost pre_ls = traitsv.subrange(0, i as int).map_values(tline);
            let mut tl = mk_tabs(4);
            append(&mut tl, &self.traits[i]);
            push_line(out, &tl);
            proof {
                assert(self.traits@[i as int]@ == traitsv[i as int]);
                lemma_join_snoc(pre_ls, tl@);
                assert(traitsv.subrange(0, i + 1).map_values(tline) =~= pre_ls.push(tl@));
            }
            i = i + 1;
        }
        proof {
            assert(traitsv.subrange(0, traitsv.len() as int) =~= traitsv);
        }
        let mut l7 = mk_tabs(3);
        let cb = mk_close_brace();
        append(&mut l7, &cb);
        push_line(out, &l7);
        let mut l8 = mk_tabs(2);
        let cb2 = mk_close_brace();
        append(&mut l8, &cb2);
        push_line(out, &l8);
        proof {
            let sl = species_lines(id as nat, self@);
            assert(self@.traits.map_values(|t: Seq<u8>| tabs(4) + t) =~= traitsv.map_values(
                tline,
            ));
            assert(sl =~= seq![l1@, l2@, l3@, l4@, l5@, l6@] + traitsv.map_values(tline) + seq![
                l7@,
                l8@,
            ]);
            lemma_join_concat(
                seq![l1@, l2@, l3@, l4@, l5@, l6@],
                traitsv.map_values(tline),
            );
            lemma_join_concat(
                seq![l1@, l2@, l3@, l4@, l5@, l6@] + traitsv.map_values(tline),
                seq![l7@, l8@],
            );
            lemma_join6(l1@, l2@, l3@, l4@, l5@, l6@);
            lemma_join2(l7@, l8@);
            assert(out@ =~= old(out)@ + join_lines(sl));
        }
    }
}

/// Appends one color slot line.
fn emit_color(c: &Option<Vec<u8>>, out: &mut Vec<u8>)
    ensures
        final(out)@ == old(out)@ + color_line(c.deep_view()) + seq![10u8],
{
    match c {
        None => {
            let mut l = mk_tabs(4);
            let nw = mk_none_w();
            append(&mut l, &nw);
            push_line(out, &l);
        },
        Some(s) => {
            let mut l = mk_tabs(4);
            append(&mut l, s);
            push_line(out, &l);
        },
    }
}

/// Appends the ethic slot lines of an empire.
fn emit_ethics(e: &Option<EthicTriple>, out: &mut Vec<u8>)
    ensures
        final(out)@ == old(out)@ + join_lines(ethics_lines(e.deep_view())),
{
    match e {
        None => {
            let mut l = mk_tabs(4);
            let nw = mk_none_w();
            append(&mut l, &nw);
            push_line(out, &l);
            proof {
                lemma_join1(l@);
                assert(ethics_lines(e.deep_view()) =~= seq![l@]);
            }
        },
        Some(t) => {
            if matches!(t.e0, Ethic::Gestalt) {
                let mut l = mk_tabs(4);
                let gw = mk_disp_gestalt();
                append(&mut l, &gw);
                push_line(out, &l);
                proof {
                    lemma_join1(l@);
                    assert(ethics_lines(e.deep_view()) =~= seq![l@]);
                }
            } else {
                let mut l1 = mk_tabs(4);
                let d0 = t.e0.display();
                append(&mut l1, &d0);
                push_line(out, &l1);
                let mut l2 = mk_tabs(4);
                let d1 = t.e1.display();
                append(&mut l2, &d1);
                push_line(out, &l2);
                let mut l3 = mk_tabs(4);
                let d2 = t.e2.display();
                append(&mut l3, &d2);
                push_line(out, &l3);
                proof {
                    lemma_join3(l1@, l2@, l3@);
                    assert(ethics_lines(e.deep_view()) =~= seq![l1@, l2@, l3@]);
                }
            }
        },
    }
}

impl Empire {
    /// Appends the lines of this empire.
    #[verifier::rlimit(100)]
    #[verifier::spinoff_prover]
    pub fn save(&self, out: &mut Vec<u8>)
        ensures
            final(out)@ == old(out)@ + join_lines(empire_lines(self@)),
    {
        let ghost mut ls: Seq<Seq<u8>> = Seq::empty();
        let mut l1 = mk_tabs(2);
        let idv = crate::num::usize_to_dec(self.id);
        append(&mut l1, &idv);
        let bs = mk_brace_suffix();
        append(&mut l1, &bs);
        push_line(out, &l1);
        proof {
            lemma_join_snoc(ls, l1@);
            ls = ls.push(l1@);
            assert(out@ =~= old(out)@ + join_lines(ls));
        }
        let mut l2 = mk_tabs(3);
        append(&mut l2, &self.name);
        push_line(out, &l2);
        proof {
            lemma_join_snoc(ls, l2@);
            ls = ls.push(l2@);
            assert(out@ =~= old(out)@ + join_lines(ls));
        }
        let mut l3 = mk_tabs(3);
        append(&mut l3, &self.adjective);
        push_line(out, &l3);
        proof {
            lemma_join_snoc(ls, l3@);
            ls = ls.push(l3@);
            assert(out@ =~= old(out)@ + join_lines(ls));
        }
        let mut l4 = mk_tabs(3);
        let ew = mk_ethics_w();
        append(&mut l4, &ew);
        push_line(out, &l4);
        proof {
            lemma_join_snoc(ls, l4@);
            ls = ls.push(l4@);
            assert(out@ =~= old(out)@ + join_lines(ls));
        }
        emit_ethics(&self.ethics, out);
        proof {
            lemma_join_concat(ls, ethics_lines(self@.ethics));
            ls = ls + ethics_lines(self@.ethics);
            assert(out@ =~= old(out)@ + join_lines(ls));
        }
        let mut l5 = mk_tabs(3);
        let cb1 = mk_close_brace();
        append(&mut l5, &cb1);
        push_line(out, &l5);
        proof {
            lemma_join_snoc(ls, l5@);
            ls = ls.push(l5@);
            assert(out@ =~= old(out)@ + join_lines(ls));
        }
        let mut l6 = mk_tabs(3);
        let pw = mk_planets_w();
        append(&mut l6, &pw);
        push_line(out, &l6);
        proof {
            lemma_join_snoc(ls, l6@);
            ls = ls.push(l6@);
            assert(out@ =~= old(out)@ + join_lines(ls));
        }
        let ghost base = out@;
        let ghost plsv = self.planets.deep_view();
        let mut i: usize = 0;
        while i < self.planets.len()
            invariant
                i <= self.planets@.len(),
                plsv == self.planets.deep_view(),
                plsv.len() == self.planets@.len(),
                out@ == base + join_lines(planets_lines(plsv.subrange(0, i as int))),
            decreases self.planets@.len() - i,
        {
            let ghost pre = plsv.subrange(0, i as int);
            self.planets[i].save(out);
            proof {
                assert(self.planets@[i as int]@ == plsv[i as int]);
                lemma_planets_lines_snoc(pre, plsv[i as int]);
                lemma_join_concat(planets_lines(pre), planet_lines(plsv[i as int]));
                assert(plsv.subrange(0, i + 1) =~= pre.push(plsv[i as int]));
            }
            i = i + 1;
        }
        proof {
            assert(plsv.subrange(0, plsv.len() as int) =~= plsv);
            lemma_join_concat(ls, planets_lines(plsv));
            ls = ls + planets_lines(plsv);
            assert(out@ =~= old(out)@ + join_lines(ls));
        }
        let mut l7 = mk_tabs(3);
        let cb2 = mk_close_brace();
        append(&mut l7, &cb2);
        push_line(out, &l7);
        proof {
            lemma_join_snoc(ls, l7@);
            ls = ls.push(l7@);
            assert(out@ =~= old(out)@ + join_lines(ls));
        }
        let mut l8 = mk_tabs(3);
        let cw = mk_colors_w();
        append(&mut l8, &cw);
        push_line(out, &l8);
        proof {
            lemma_join_snoc(ls, l8@);
            ls = ls.push(l8@);
            assert(out@ =~= old(out)@ + join_lines(ls));
        }
        emit_color(&self.color.c0, out);
        proof {
            lemma_join_snoc(ls, color_line(self@.color.c0));
            ls = ls.push(color_line(self@.color.c0));
            assert(out@ =~= old(out)@ + join_lines(ls));
        }
        emit_color(&self.color.c1, out);
        proof {
            lemma_join_snoc(ls, color_line(self@.color.c1));
            ls = ls.push(color_line(self@.color.c1));
            assert(out@ =~= old(out)@ + join_lines(ls));
        }
        emit_color(&self.color.c2, out);
        proof {
            lemma_join_snoc(ls, color_line(self@.color.c2));
            ls = ls.push(color_line(self@.color.c2));
            assert(out@ =~= old(out)@ + join_lines(ls));
        }
        emit_color(&self.color.c3, out);
        proof {
            lemma_join_snoc(ls, color_line(self@.color.c3));
            ls = ls.push(color_line(self@.color.c3));
            assert(out@ =~= old(out)@ + join_lines(ls));
        }
        let mut l9 = mk_tabs(3);
        let cb3 = mk_close_brace();
        append(&mut l9, &cb3);
        push_line(out, &l9);
        proof {
            lemma_join_snoc(ls, l9@);
            ls = ls.push(l9@);
            assert(out@ =~= old(out)@ + join_lines(ls));
        }
        let mut l10 = mk_tabs(2);
        let cb4 = mk_close_brace();
        append(&mut l10, &cb4);
        push_line(out, &l10);
        proof {
            lemma_join_snoc(ls, l10@);
            ls = ls.push(l10@);
            assert(out@ =~= old(out)@ + join_lines(ls));
            assert(ls =~= empire_lines(self@));
        }
    }
}

impl GalObject {
    /// Appends the lines of this galactic object.
    pub fn save(&self, out: &mut Vec<u8>)
        ensures
            final(out)@ == old(out)@ + join_lines(obj_lines(self@)),
    {
        let mut l1 = mk_tabs(2);
        let idv = crate::num::usize_to_dec(self.id);
        append(&mut l1, &idv);
        let bs = mk_brace_suffix();
        append(&mut l1, &bs);
        push_line(out, &l1);
        let mut l2 = mk_tabs(3);
        append(&mut l2, &self.name);
        push_line(out, &l2);
        let mut l3 = mk_tabs(3);
        append(&mut l3, &self.typ);
        push_line(out, &l3);
        let mut l4 = mk_tabs(3);
        let lp = mk_lparen();
        append(&mut l4, &lp);
        let xv = i64_to_dec(self.x);
        append(&mut l4, &xv);
        let cs = mk_comma_sp();
        append(&mut l4, &cs);
        let yv = i64_to_dec(self.y);
        append(&mut l4, &yv);
        let rp = mk_rparen();
        append(&mut l4, &rp);
        push_line(out, &l4);
        let mut l5 = mk_tabs(3);
        let pw = mk_planets_w();
        append(&mut l5, &pw);
        push_line(out, &l5);
        let ghost base = out@;
        let ghost pidsv = self.planets@;
        let ghost pline = |pid: usize| tabs(4) + dec_of(pid as nat);
        let mut i: usize = 0;
        while i < self.planets.len()
            invariant
                i <= self.planets@.len(),
                pidsv == self.planets@,
                pline == (|pid: usize| tabs(4) + dec_of(pid as nat)),
                out@ == base + join_lines(pidsv.subrange(0, i as int).map_values(pline)),
            decreases self.planets@.len() - i,
        {
            let ghost pre_ls = pidsv.subrange(0, i as int).map_values(pline);
            let mut pl = mk_tabs(4);
            let pv = crate::num::usize_to_dec(self.planets[i]);
            append(&mut pl, &pv);
            push_line(out, &pl);
            proof {
                lemma_join_snoc(pre_ls, pl@);
                assert(pidsv.subrange(0, i + 1).map_values(pline) =~= pre_ls.push(pl@));
            }
            i = i + 1;
        }
        proof {
            assert(pidsv.subrange(0, pidsv.len() as int) =~= pidsv);
        }
        let mut l6 = mk_tabs(3);
        let cb = mk_close_brace();
        append(&mut l6, &cb);
        push_line(out, &l6);
        let mut l7 = mk_tabs(2);
        let cb2 = mk_close_brace();
        append(&mut l7, &cb2);
        push_line(out, &l7);
        proof {
            let ol = obj_lines(self@);
            assert(self@.planets.map_values(|pid: usize| tabs(4) + dec_of(pid as nat))
                =~= pidsv.map_values(pline));
            assert(ol =~= seq![l1@, l2@, l3@, l4@, l5@] + pidsv.map_values(pline) + seq![
                l6@,
                l7@,
            ]);
            lemma_join_concat(seq![l1@, l2@, l3@, l4@, l5@], pidsv.map_values(pline));
            lemma_join_concat(
                seq![l1@, l2@, l3@, l4@, l5@] + pidsv.map_values(pline),
                seq![l6@, l7@],
            );
            lemma_join5(l1@, l2@, l3@, l4@, l5@);
            lemma_join2(l6@, l7@);
            assert(out@ =~= old(out)@ + join_lines(ol));
        }
    }
}

impl Galaxy {
    /// The legible date string of this snapshot.
    pub fn date_legible(&self) -> (r: Vec<u8>)
        ensures
            r@ == legible_of(self.date as int),
    {
        crate::dates::date_legible_bytes(self.date)
    }

    /// Appends the lines of this snapshot.
    #[verifier::rlimit(100)]
    #[verifier::spinoff_prover]
    pub fn save(&self, out: &mut Vec<u8>)
        ensures
            final(out)@ == old(out)@ + join_lines(galaxy_lines(self@)),
    {
        let mut l1 = self.date_legible();
        let bs = mk_brace_suffix();
        append(&mut l1, &bs);
        push_line(out, &l1);
        let mut l2 = mk_tabs(1);
        let sw = mk_species_w();
        append(&mut l2, &sw);
        push_line(out, &l2);
        let ghost base1 = out@;
        let ghost ssv = self.species.deep_view();
        let mut i: usize = 0;
        while i < self.species.len()
            invariant
                i <= self.species@.len(),
                ssv == self.species.deep_view(),
                ssv.len() == self.species@.len(),
                out@ == base1 + join_lines(species_list_lines(ssv.subrange(0, i as int), 0)),
            decreases self.species@.len() - i,
        {
            let ghost pre = ssv.subrange(0, i as int);
            self.species[i].save(i, out);
            proof {
                assert(self.species@[i as int]@ == ssv[i as int]);
                lemma_species_list_lines_snoc(pre, ssv[i as int], 0);
                lemma_join_concat(
                    species_list_lines(pre, 0),
                    species_lines(i as nat, ssv[i as int]),
                );
                assert(ssv.subrange(0, i + 1) =~= pre.push(ssv[i as int]));
            }
            i = i + 1;
        }
        proof {
            assert(ssv.subrange(0, ssv.len() as int) =~= ssv);
        }
        let mut l3 = mk_tabs(1);
        let cb1 = mk_close_brace();
        append(&mut l3, &cb1);
        push_line(out, &l3);
        let mut l4 = mk_tabs(1);
        let ew = mk_empires_w();
        append(&mut l4, &ew);
        push_line(out, &l4);
        let ghost base2 = out@;
        let ghost esv = self.empires.deep_view();
        let mut j: usize = 0;
        while j < self.empires.len()
            invariant
                j <= self.empires@.len(),
                esv == self.empires.deep_view(),
                esv.len() == self.empires@.len(),
                out@ == base2 + join_lines(empires_lines(esv.subrange(0, j as int))),
            decreases self.empires@.len() - j,
        {
            let ghost pre = esv.subrange(0, j as int);
            self.empires[j].save(out);
            proof {
                assert(self.empires@[j as int]@ == esv[j as int]);
                lemma_empires_lines_snoc(pre, esv[j as int]);
                lemma_join_concat(empires_lines(pre), empire_lines(esv[j as int]));
                assert(esv.subrange(0, j + 1) =~= pre.push(esv[j as int]));
            }
            j = j + 1;
        }
        proof {
            assert(esv.subrange(0, esv.len() as int) =~= esv);
        }
        let mut l5 = mk_tabs(1);
        let cb2 = mk_close_brace();
        append(&mut l5, &cb2);
        push_line(out, &l5);
        let mut l6 = mk_tabs(1);
        let ow = mk_objects_w();
        append(&mut l6, &ow);
        push_line(out, &l6);
        let ghost base3 = out@;
        let ghost osv = self.obj.deep_view();
        let mut k: usize = 0;
        while k < self.obj.len()
            invariant
                k <= self.obj@.len(),
                osv == self.obj.deep_view(),
                osv.len() == self.obj@.len(),
                out@ == base3 + join_lines(objs_lines(osv.subrange(0, k as int))),
            decreases self.obj@.len() - k,
        {
            let ghost pre = osv.subrange(0, k as int);
            self.obj[k].save(out);
            proof {
                assert(self.obj@[k as int]@ == osv[k as int]);
                lemma_objs_lines_snoc(pre, osv[k as int]);
                lemma_join_concat(objs_lines(pre), obj_lines(osv[k as int]));
                assert(osv.subrange(0, k + 1) =~= pre.push(osv[k as int]));
            }
            k = k + 1;
        }
        proof {
            assert(osv.subrange(0, osv.len() as int) =~= osv);
        }
        let mut l7 = mk_tabs(1);
        let cb3 = mk_close_brace();
        append(&mut l7, &cb3);
        push_line(out, &l7);
        let l8 = mk_close_brace();
        push_line(out, &l8);
        proof {
            let gl = galaxy_lines(self@);
            assert(gl =~= seq![l1@, l2@] + species_list_lines(ssv, 0) + seq![l3@, l4@]
                + empires_lines(esv) + seq![l5@, l6@] + objs_lines(osv) + seq![l7@, l8@]);
            lemma_join2(l1@, l2@);
            lemma_join2(l3@, l4@);
            lemma_join2(l5@, l6@);
            lemma_join2(l7@, l8@);
            lemma_join_concat(seq![l1@, l2@], species_list_lines(ssv, 0));
            lemma_join_concat(seq![l1@, l2@] + species_list_lines(ssv, 0), seq![l3@, l4@]);
            lemma_join_concat(
                seq![l1@, l2@] + species_list_lines(ssv, 0) + seq![l3@, l4@],
                empires_lines(esv),
            );
            lemma_join_concat(
                seq![l1@, l2@] + species_list_lines(ssv, 0) + seq![l3@, l4@] + empires_lines(esv),
                seq![l5@, l6@],
            );
            lemma_join_concat(
                seq![l1@, l2@] + species_list_lines(ssv, 0) + seq![l3@, l4@] + empires_lines(esv)
                    + seq![l5@, l6@],
                objs_lines(osv),
            );
            lemma_join_concat(
                seq![l1@, l2@] + species_list_lines(ssv, 0) + seq![l3@, l4@] + empires_lines(esv)
                    + seq![l5@, l6@] + objs_lines(osv),
                seq![l7@, l8@],
            );
            assert(out@ =~= old(out)@ + join_lines(gl));
        }
    }
}


// ------------------------------------------------------------------
// Decoding: the grammar, mirrored as spec functions
// ------------------------------------------------------------------

/// Signed decimal value of a coordinate token, as the codec reads one:
/// an optional sign, then digits, within the i64 range.
pub open spec fn i64_val_of(s: Seq<u8>) -> Option<int> {
    let sign = s.len() >= 1 && s[0] == '-' as u8;
    let ds = if s.len() >= 1 && (s[0] == '-' as u8 || s[0] == '+' as u8) {
        s.drop_first()
    } else {
        s
    };
    if ds.len() > 0 && all_digits(ds) {
        let m = dec_val(ds);
        if sign {
            if -m >= i64::MIN {
                Some(-m)
            } else {
                None
            }
        } else {
            if m <= i64::MAX {
                Some(m)
            } else {
                None
            }
        }
    } else {
        None
    }
}

/// The coordinate pair a `x, y` body holds.
pub open spec fn dec_coord_body(s: Seq<u8>) -> Option<(int, int)> {
    let k1 = crate::text::find_sep(s);
    if k1 + 2 > s.len() {
        None
    } else {
        let xs = s.subrange(0, k1);
        let rest = s.subrange(k1 + 2, s.len() as int);
        let k2 = crate::text::find_sep(rest);
        let ys = if k2 + 2 <= rest.len() {
            rest.subrange(0, k2)
        } else {
            rest
        };
        match i64_val_of(xs) {
            None => None,
            Some(x) => match i64_val_of(ys) {
                None => None,
                Some(y) => Some((x, y)),
            },
        }
    }
}

/// The pop a tab-separated cache line holds.
pub open spec fn dec_pop(line: Seq<u8>) -> Option<PopV> {
    let k0 = find_byte(line, 9u8);
    if k0 == line.len() {
        None
    } else {
        let f0 = line.subrange(0, k0);
        let r1 = line.subrange(k0 + 1, line.len() as int);
        let k1 = find_byte(r1, 9u8);
        if k1 == r1.len() {
            None
        } else {
            let f1 = r1.subrange(0, k1);
            let r2 = r1.subrange(k1 + 1, r1.len() as int);
            let k2 = find_byte(r2, 9u8);
            if k2 == r2.len() {
                None
            } else {
                let f2 = r2.subrange(0, k2);
                let r3 = r2.subrange(k2 + 1, r2.len() as int);
                let k3 = find_byte(r3, 9u8);
                if k3 == r3.len() {
                    None
                } else {
                    let f3 = r3.subrange(0, k3);
                    let r4 = r3.subrange(k3 + 1, r3.len() as int);
                    let k4 = find_byte(r4, 9u8);
                    if k4 == r4.len() {
                        None
                    } else {
                        let f4 = r4.subrange(0, k4);
                        let r5 = r4.subrange(k4 + 1, r4.len() as int);
                        let f5 = r5.subrange(0, find_byte(r5, 9u8));
                        if f0.len() > 0 && all_digits(f0) && dec_val(f0) <= usize::MAX && f1.len()
                            > 0 && all_digits(f1) && dec_val(f1) <= usize::MAX && (f5
                            == lit_true_w() || f5 == lit_false_w()) {
                            Some(
                                PopV {
                                    id: dec_val(f0) as usize,
                                    species: dec_val(f1) as usize,
                                    ethic: cache_ethic_of(f2),
                                    job: f3,
                                    category: f4,
                                    slave: f5 == lit_true_w(),
                                },
                            )
                        } else {
                            None
                        }
                    }
                }
            }
        }
    }
}

pub open spec fn dec_pop_list(lines: Seq<Seq<u8>>, i: int, acc: Seq<PopV>) -> Option<
    (Seq<PopV>, int),
>
    decreases lines.len() - i,
{
    if i < 0 || i >= lines.len() {
        None
    } else if lines[i] == tabs(5) + lit_close_brace() {
        Some((acc, i + 1))
    } else {
        match dec_pop(lines[i]) {
            None => None,
            Some(p) => dec_pop_list(lines, i + 1, acc.push(p)),
        }
    }
}

/// The planet an entry starting at line `i` holds, and the next cursor.
pub open spec fn dec_planet(lines: Seq<Seq<u8>>, i: int) -> Option<(PlanetV, int)> {
    if !(0 <= i && i + 5 <= lines.len()) {
        None
    } else {
        let hdr = lines[i];
        if hdr.len() < 6 {
            None
        } else {
            let ids = hdr.subrange(4, hdr.len() - 2);
            if !(ids.len() > 0 && all_digits(ids) && dec_val(ids) <= usize::MAX) {
                None
            } else if lines[i + 1].len() < 5 || lines[i + 2].len() < 5 || lines[i + 3].len() < 5 {
                None
            } else {
                let name = lines[i + 1].subrange(5, lines[i + 1].len() as int);
                let typ = lines[i + 2].subrange(5, lines[i + 2].len() as int);
                let szs = lines[i + 3].subrange(5, lines[i + 3].len() as int);
                if !(szs.len() > 0 && all_digits(szs) && dec_val(szs) <= usize::MAX) {
                    None
                } else {
                    match dec_pop_list(lines, i + 5, Seq::empty()) {
                        None => None,
                        Some((pops, j)) => {
                            let j2 = if j < lines.len() {
                                j + 1
                            } else {
                                j
                            };
                            Some(
                                (
                                    PlanetV {
                                        id: dec_val(ids) as usize,
                                        name,
                                        typ,
                                        size: dec_val(szs) as usize,
                                        population: pops,
                                    },
                                    j2,
                                ),
                            )
                        },
                    }
                }
            }
        }
    }
}

pub open spec fn dec_planet_list(lines: Seq<Seq<u8>>, i: int, acc: Seq<PlanetV>) -> Option<
    (Seq<PlanetV>, int),
>
    decreases lines.len() - i,
{
    if i < 0 || i >= lines.len() {
        None
    } else if lines[i] == tabs(3) + lit_close_brace() {
        Some((acc, i + 1))
    } else {
        match dec_planet(lines, i) {
            None => None,
            Some((p, j)) => {
                if i < j <= lines.len() {
                    dec_planet_list(lines, j, acc.push(p))
                } else {
                    None
                }
            },
        }
    }
}

pub open spec fn dec_trait_list(lines: Seq<Seq<u8>>, i: int, acc: Seq<Seq<u8>>) -> Option<
    (Seq<Seq<u8>>, int),
>
    decreases lines.len() - i,
{
    if i < 0 || i >= lines.len() {
        None
    } else if lines[i] == tabs(3) + lit_close_brace() {
        Some((acc, i + 1))
    } else if lines[i].len() < 4 {
        None
    } else {
        dec_trait_list(lines, i + 1, acc.push(lines[i].subrange(4, lines[i].len() as int)))
    }
}

/// The species an entry starting at line `i` holds, and the next cursor.
pub open spec fn dec_species(lines: Seq<Seq<u8>>, i: int) -> Option<(SpeciesV, int)> {
    if !(0 <= i && i + 5 <= lines.len()) {
        None
    } else if lines[i + 1].len() < 3 || lines[i + 2].len() < 3 || lines[i + 3].len() < 3 || lines[i
        + 4].len() < 3 {
        None
    } else {
        let name = lines[i + 1].subrange(3, lines[i + 1].len() as int);
        let plural = lines[i + 2].subrange(3, lines[i + 2].len() as int);
        let adjective = lines[i + 3].subrange(3, lines[i + 3].len() as int);
        let portrait = lines[i + 4].subrange(3, lines[i + 4].len() as int);
        match dec_trait_list(lines, i + 6, Seq::empty()) {
            None => None,
            Some((ts, j)) => {
                let j2 = if j < lines.len() {
                    j + 1
                } else {
                    j
                };
                Some((SpeciesV { name, plural, adjective, portrait, traits: ts }, j2))
            },
        }
    }
}

pub open spec fn dec_species_list(lines: Seq<Seq<u8>>, i: int, acc: Seq<SpeciesV>) -> Option<
    (Seq<SpeciesV>, int),
>
    decreases lines.len() - i,
{
    if i < 0 || i >= lines.len() {
        None
    } else if lines[i] == tabs(1) + lit_close_brace() {
        Some((acc, i + 1))
    } else {
        match dec_species(lines, i) {
            None => None,
            Some((x, j)) => {
                if i < j <= lines.len() {
                    dec_species_list(lines, j, acc.push(x))
                } else {
                    None
                }
            },
        }
    }
}

/// The ethic slots a block starting at line `i` holds: the absence marker,
/// the Gestalt abbreviation, or three display lines.
pub open spec fn dec_ethics(lines: Seq<Seq<u8>>, i: int) -> Option<(Option<EthicTripleV>, int)> {
    if !(0 <= i && i < lines.len()) {
        None
    } else {
        let l = lines[i];
        if l == tabs(4) + lit_none_w() {
            Some((None, i + 1))
        } else if l == tabs(4) + lit_disp_gestalt() {
            Some(
                (
                    Some(
                        EthicTripleV {
                            e0: EthicV::Gestalt,
                            e1: EthicV::Gestalt,
                            e2: EthicV::Gestalt,
                        },
                    ),
                    i + 1,
                ),
            )
        } else if l.len() < 4 || i + 3 > lines.len() || lines[i + 1].len() < 4 || lines[i
            + 2].len() < 4 {
            None
        } else {
            Some(
                (
                    Some(
                        EthicTripleV {
                            e0: cache_ethic_of(l.subrange(4, l.len() as int)),
                            e1: cache_ethic_of(lines[i + 1].subrange(4, lines[i + 1].len() as int)),
                            e2: cache_ethic_of(lines[i + 2].subrange(4, lines[i + 2].len() as int)),
                        },
                    ),
                    i + 3,
                ),
            )
        }
    }
}

/// The color slot one cache line holds.
pub open spec fn dec_color_line(l: Seq<u8>) -> Option<Option<Seq<u8>>> {
    if l.len() < 4 {
        None
    } else {
        let v = l.subrange(4, l.len() as int);
        if v == lit_none_w() {
            Some(None)
        } else {
            Some(Some(v))
        }
    }
}

/// The empire an entry starting at line `i` holds, and the next cursor.
pub open spec fn dec_empire(lines: Seq<Seq<u8>>, i: int) -> Option<(EmpireV, int)> {
    if !(0 <= i && i + 5 <= lines.len()) {
        None
    } else {
        let hdr = lines[i];
        if hdr.len() < 4 {
            None
        } else {
            let ids = hdr.subrange(2, hdr.len() - 2);
            if !(ids.len() > 0 && all_digits(ids) && dec_val(ids) <= usize::MAX) {
                None
            } else if lines[i + 1].len() < 3 || lines[i + 2].len() < 3 {
                None
            } else {
                let name = lines[i + 1].subrange(3, lines[i + 1].len() as int);
                let adjective = lines[i + 2].subrange(3, lines[i + 2].len() as int);
                match dec_ethics(lines, i + 4) {
                    None => None,
                    Some((eth, j)) => match dec_planet_list(lines, j + 2, Seq::empty()) {
                        None => None,
                        Some((planets, k)) => {
                            if !(k + 5 <= lines.len()) {
                                None
                            } else {
                                match dec_color_line(lines[k + 1]) {
                                    None => None,
                                    Some(c0) => match dec_color_line(lines[k + 2]) {
                                        None => None,
                                        Some(c1) => match dec_color_line(lines[k + 3]) {
                                            None => None,
                                            Some(c2) => match dec_color_line(lines[k + 4]) {
                                                None => None,
                                                Some(c3) => {
                                                    let j2 = if k + 7 <= lines.len() {
                                                        k + 7
                                                    } else {
                                                        lines.len() as int
                                                    };
                                                    Some(
                                                        (
                                                            EmpireV {
                                                                id: dec_val(ids) as usize,
                                                                name,
                                                                adjective,
                                                                planets,
                                                                ethics: eth,
                                                                color: ColorsV { c0, c1, c2, c3 },
                                                            },
                                                            j2,
                                                        ),
                                                    )
                                                },
                                            },
                                        },
                                    },
                                }
                            }
                        },
                    },
                }
            }
        }
    }
}

pub open spec fn dec_empire_list(lines: Seq<Seq<u8>>, i: int, acc: Seq<EmpireV>) -> Option<
    (Seq<EmpireV>, int),
>
    decreases lines.len() - i,
{
    if i < 0 || i >= lines.len() {
        None
    } else if lines[i] == tabs(1) + lit_close_brace() {
        Some((acc, i + 1))
    } else {
        match dec_empire(lines, i) {
            None => None,
            Some((x, j)) => {
                if i < j <= lines.len() {
                    dec_empire_list(lines, j, acc.push(x))
                } else {
                    None
                }
            },
        }
    }
}

pub open spec fn dec_objpid_list(lines: Seq<Seq<u8>>, i: int, acc: Seq<usize>) -> Option<
    (Seq<usize>, int),
>
    decreases lines.len() - i,
{
    if i < 0 || i >= lines.len() {
        None
    } else if lines[i] == tabs(3) + lit_close_brace() {
        Some((acc, i + 1))
    } else {
        let l = lines[i];
        if l.len() < 4 {
            None
        } else {
            let ds = l.subrange(4, l.len() as int);
            if ds.len() > 0 && all_digits(ds) && dec_val(ds) <= usize::MAX {
                dec_objpid_list(lines, i + 1, acc.push(dec_val(ds) as usize))
            } else {
                None
            }
        }
    }
}

/// The galactic object an entry starting at line `i` holds, and the next
/// cursor.
pub open spec fn dec_obj(lines: Seq<Seq<u8>>, i: int) -> Option<(GalObjectV, int)> {
    if !(0 <= i && i + 5 <= lines.len()) {
        None
    } else {
        let hdr = lines[i];
        if hdr.len() < 4 {
            None
        } else {
            let ids = hdr.subrange(2, hdr.len() - 2);
            if !(ids.len() > 0 && all_digits(ids) && dec_val(ids) <= usize::MAX) {
                None
            } else if lines[i + 1].len() < 3 || lines[i + 2].len() < 3 || lines[i + 3].len() < 5 {
                None
            } else {
                let name = lines[i + 1].subrange(3, lines[i + 1].len() as int);
                let typ = lines[i + 2].subrange(3, lines[i + 2].len() as int);
                let body = lines[i + 3].subrange(4, lines[i + 3].len() - 1);
                match dec_coord_body(body) {
                    None => None,
                    Some((x, y)) => match dec_objpid_list(lines, i + 5, Seq::empty()) {
                        None => None,
                        Some((pids, j)) => {
                            let j2 = if j < lines.len() {
                                j + 1
                            } else {
                                j
                            };
                            Some(
                                (
                                    GalObjectV {
                                        id: dec_val(ids) as usize,
                                        x: x as i64,
                                        y: y as i64,
                                        typ,
                                        name,
                                        planets: pids,
                                    },
                                    j2,
                                ),
                            )
                        },
                    },
                }
            }
        }
    }
}

pub open spec fn dec_obj_list(lines: Seq<Seq<u8>>, i: int, acc: Seq<GalObjectV>) -> Option<
    (Seq<GalObjectV>, int),
>
    decreases lines.len() - i,
{
    if i < 0 || i >= lines.len() {
        None
    } else if lines[i] == tabs(1) + lit_close_brace() {
        Some((acc, i + 1))
    } else {
        match dec_obj(lines, i) {
            None => None,
            Some((x, j)) => {
                if i < j <= lines.len() {
                    dec_obj_list(lines, j, acc.push(x))
                } else {
                    None
                }
            },
        }
    }
}

/// The zero bounding box that a freshly decoded snapshot carries.
pub open spec fn zero_bounds() -> Bounds {
    Bounds { min_x: 0, max_x: 0, min_y: 0, max_y: 0 }
}

/// The snapshot a block starting at line `i` holds, and the next cursor:
/// the dated header, then the species, empire and object sections in order.
pub open spec fn dec_galaxy(lines: Seq<Seq<u8>>, i: int) -> Option<(GalaxyV, int)> {
    if !(0 <= i && i + 2 <= lines.len()) {
        None
    } else {
        match cache_date_of(lines[i]) {
            None => None,
            Some(date) => {
                if lines[i + 1] != tabs(1) + lit_species_w() {
                    None
                } else {
                    match dec_species_list(lines, i + 2, Seq::empty()) {
                        None => None,
                        Some((ss, j)) => {
                            if !(j < lines.len() && lines[j] == tabs(1) + lit_empires_w()) {
                                None
                            } else {
                                match dec_empire_list(lines, j + 1, Seq::empty()) {
                                    None => None,
                                    Some((es, k)) => {
                                        if !(k < lines.len() && lines[k] == tabs(1)
                                            + lit_objects_w()) {
                                            None
                                        } else {
                                            match dec_obj_list(lines, k + 1, Seq::empty()) {
                                                None => None,
                                                Some((os, l)) => {
                                                    if !(l < lines.len() && lines[l]
                                                        == lit_close_brace()) {
                                                        None
                                                    } else {
                                                        Some(
                                                            (
                                                                GalaxyV {
                                                                    maxc: zero_bounds(),
                                                                    date: date as usize,
                                                                    empires: es,
                                                                    species: ss,
                                                                    obj: os,
                                                                },
                                                                l + 1,
                                                            ),
                                                        )
                                                    }
                                                },
                                            }
                                        }
                                    },
                                }
                            }
                        },
                    }
                }
            },
        }
    }
}

/// Inserts a snapshot into a date-keyed store: replaces the entry with the
/// same date, else appends.
pub open spec fn store_put(s: Seq<GalaxyV>, g: GalaxyV) -> Seq<GalaxyV>
    decreases s.len(),
{
    if s.len() == 0 {
        seq![g]
    } else if s[0].date == g.date {
        seq![g] + s.drop_first()
    } else {
        seq![s[0]] + store_put(s.drop_first(), g)
    }
}

/// The whole store a cache reads to: snapshots until the lines run out.
pub open spec fn dec_everything(lines: Seq<Seq<u8>>, i: int, acc: Seq<GalaxyV>) -> Option<
    (Seq<GalaxyV>, int),
>
    decreases lines.len() - i,
{
    if i < 0 {
        None
    } else if i >= lines.len() {
        Some((acc, i))
    } else {
        match dec_galaxy(lines, i) {
            None => None,
            Some((g, j)) => {
                if i < j <= lines.len() {
                    dec_everything(lines, j, store_put(acc, g))
                } else {
                    None
                }
            },
        }
    }
}


// ------------------------------------------------------------------
// Splitting bytes into lines
// ------------------------------------------------------------------

/// The lines of a byte string: newline-terminated segments, a trailing
/// segment without newline included, no empty trailing segment.
pub open spec fn split_lines_spec(s: Seq<u8>) -> Seq<Seq<u8>>
    decreases s.len(),
{
    if s.len() == 0 {
        Seq::empty()
    } else {
        let j = find_byte(s, 10u8);
        if 0 <= j < s.len() {
            seq![s.subrange(0, j)] + split_lines_spec(s.subrange(j + 1, s.len() as int))
        } else {
            seq![s]
        }
    }
}

/// True when no line holds a newline byte.
pub open spec fn lines_ok(ls: Seq<Seq<u8>>) -> bool {
    forall|k: int| 0 <= k < ls.len() ==> text_ok(#[trigger] ls[k])
}

/// Splitting the rendering of newline-free lines gives the lines back.
pub proof fn lemma_split_join(ls: Seq<Seq<u8>>)
    requires
        lines_ok(ls),
    ensures
        split_lines_spec(join_lines(ls)) == ls,
    decreases ls.len(),
{
    if ls.len() == 0 {
    } else {
        let l0 = ls[0];
        let rest = ls.drop_first();
        let s = join_lines(ls);
        assert(s =~= l0 + seq![10u8] + join_lines(rest));
        assert forall|k: int| 0 <= k < l0.len() implies s[k] != 10u8 by {
            assert(s[k] == l0[k]);
        }
        assert(s[l0.len() as int] == 10u8);
        lemma_find_byte_at(s, 10u8, l0.len() as int);
        assert(s.len() > 0);
        assert(s.subrange(0, l0.len() as int) =~= l0);
        assert(s.subrange(l0.len() + 1 as int, s.len() as int) =~= join_lines(rest));
        assert(lines_ok(rest)) by {
            assert(forall|k: int| 0 <= k < rest.len() ==> rest[k] == ls[k + 1]);
        }
        lemma_split_join(rest);
        assert(split_lines_spec(s) =~= ls);
    }
}

/// Splits a byte buffer into its lines.
pub fn split_lines(v: &Vec<u8>) -> (r: Vec<Vec<u8>>)
    ensures
        r.deep_view() == split_lines_spec(v@),
{
    let mut r: Vec<Vec<u8>> = Vec::new();
    let mut pos: usize = 0;
    proof {
        assert(v@.subrange(0, v@.len() as int) =~= v@);
        assert(r.deep_view() + split_lines_spec(v@) =~= split_lines_spec(v@));
    }
    while pos < v.len()
        invariant
            0 <= pos <= v@.len(),
            split_lines_spec(v@) == r.deep_view() + split_lines_spec(
                v@.subrange(pos as int, v@.len() as int),
            ),
        decreases v@.len() - pos,
    {
        let ghost pre = r.deep_view();
        let ghost tail = v@.subrange(pos as int, v@.len() as int);
        let mut line: Vec<u8> = Vec::new();
        let mut k: usize = pos;
        while k < v.len() && v[k] != 10u8
            invariant
                pos <= k <= v@.len(),
                line@ == v@.subrange(pos as int, k as int),
                forall|t: int| pos <= t < k ==> v@[t] != 10u8,
            decreases v@.len() - k,
        {
            line.push(v[k]);
            proof {
                assert(v@.subrange(pos as int, k + 1 as int) =~= v@.subrange(
                    pos as int,
                    k as int,
                ).push(v@[k as int]));
            }
            k = k + 1;
        }
        proof {
            assert forall|t: int| 0 <= t < k - pos implies tail[t] != 10u8 by {
                assert(tail[t] == v@[pos + t]);
            }
            if k < v@.len() {
                assert(tail[k - pos] == v@[k as int]);
                lemma_find_byte_at(tail, 10u8, k - pos);
            } else {
                lemma_find_byte_at(tail, 10u8, tail.len() as int);
            }
        }
        r.push(line);
        if k < v.len() {
            proof {
                let j = find_byte(tail, 10u8);
                assert(j == k - pos);
                assert(tail.subrange(0, j) =~= line@);
                assert(tail.subrange(j + 1, tail.len() as int) =~= v@.subrange(
                    k + 1 as int,
                    v@.len() as int,
                ));
                assert(split_lines_spec(tail) =~= seq![line@] + split_lines_spec(
                    v@.subrange(k + 1 as int, v@.len() as int),
                ));
                assert(r.deep_view() =~~= pre.push(line@));
                assert(pre + split_lines_spec(tail) =~= r.deep_view() + split_lines_spec(
                    v@.subrange(k + 1 as int, v@.len() as int),
                ));
            }
            pos = k + 1;
        } else {
            proof {
                let j = find_byte(tail, 10u8);
                assert(j == tail.len());
                assert(tail.len() > 0);
                assert(tail =~= line@);
                assert(split_lines_spec(tail) =~= seq![line@]);
                assert(r.deep_view() =~~= pre.push(line@));
                assert(split_lines_spec(v@.subrange(v@.len() as int, v@.len() as int))
                    =~= Seq::<Seq<u8>>::empty());
                assert(pre + split_lines_spec(tail) =~= r.deep_view() + split_lines_spec(
                    v@.subrange(v@.len() as int, v@.len() as int),
                ));
            }
            pos = v.len();
        }
    }
    proof {
        assert(split_lines_spec(v@.subrange(pos as int, v@.len() as int))
            =~= Seq::<Seq<u8>>::empty());
        assert(r.deep_view() + Seq::<Seq<u8>>::empty() =~= r.deep_view());
    }
    r
}

// ------------------------------------------------------------------
// Round trip: decoding inverts encoding
// ------------------------------------------------------------------

/// A window of lines standing at position `i`.
pub open spec fn lines_at(lines: Seq<Seq<u8>>, i: int, w: Seq<Seq<u8>>) -> bool {
    &&& 0 <= i
    &&& i + w.len() <= lines.len()
    &&& lines.subrange(i, i + w.len()) == w
}

pub proof fn lemma_lines_at_split(lines: Seq<Seq<u8>>, i: int, a: Seq<Seq<u8>>, b: Seq<Seq<u8>>)
    requires
        lines_at(lines, i, a + b),
    ensures
        lines_at(lines, i, a),
        lines_at(lines, i + a.len(), b),
{
    assert(lines.subrange(i, i + a.len()) =~= a) by {
        assert forall|k: int| 0 <= k < a.len() implies lines.subrange(i, i + a.len())[k] == a[k] by {
            assert(lines.subrange(i, i + (a + b).len())[k] == (a + b)[k]);
        }
    }
    assert(lines.subrange(i + a.len(), i + a.len() + b.len()) =~= b) by {
        assert forall|k: int|
            0 <= k < b.len() implies lines.subrange(i + a.len(), i + a.len() + b.len())[k]
            == b[k] by {
            assert(lines.subrange(i, i + (a + b).len())[a.len() + k] == (a + b)[a.len() + k]);
        }
    }
}

pub proof fn lemma_lines_at_index(lines: Seq<Seq<u8>>, i: int, w: Seq<Seq<u8>>, k: int)
    requires
        lines_at(lines, i, w),
        0 <= k < w.len(),
    ensures
        lines[i + k] == w[k],
{
    assert(lines.subrange(i, i + w.len())[k] == w[k]);
}

/// Reading back a rendered coordinate gives the coordinate.
pub proof fn lemma_i64_dec_round(x: i64)
    ensures
        i64_val_of(i64_dec(x as int)) == Some(x as int),
        forall|k: int| 0 <= k < i64_dec(x as int).len() ==> #[trigger] i64_dec(x as int)[k] != 10u8
            && i64_dec(x as int)[k] != 9u8 && i64_dec(x as int)[k] != ',' as u8,
        i64_dec(x as int).len() > 0,
{
    if x >= 0 {
        lemma_dec_of_digits(x as nat);
        lemma_dec_val_dec_of(x as nat);
        let s = i64_dec(x as int);
        assert(s == dec_of(x as nat));
        assert(s[0] != '-' as u8 && s[0] != '+' as u8) by {
            assert(crate::num::is_digit(s[0]));
        }
        assert forall|k: int| 0 <= k < s.len() implies #[trigger] s[k] != 10u8 && s[k] != 9u8
            && s[k] != ',' as u8 by {
            assert(crate::num::is_digit(s[k]));
        }
    } else {
        let m = (-(x as int)) as nat;
        lemma_dec_of_digits(m);
        lemma_dec_val_dec_of(m);
        let s = i64_dec(x as int);
        assert(s =~= seq!['-' as u8] + dec_of(m));
        assert(s[0] == '-' as u8);
        assert(s.drop_first() =~= dec_of(m));
        assert forall|k: int| 0 <= k < s.len() implies #[trigger] s[k] != 10u8 && s[k] != 9u8
            && s[k] != ',' as u8 by {
            if k > 0 {
                assert(s[k] == dec_of(m)[k - 1]);
                assert(crate::num::is_digit(dec_of(m)[k - 1]));
            }
        }
    }
}

/// Reading back a rendered pop line gives the pop (the bounding facts on
/// its text fields coming from `pop_ok`).
#[verifier::rlimit(100)]
#[verifier::spinoff_prover]
pub proof fn lemma_rt_pop(p: PopV)
    requires
        pop_ok(p),
    ensures
        dec_pop(pop_line(p)) == Some(p),
{
    let line = pop_line(p);
    let f0 = dec_of(p.id as nat);
    let f1 = dec_of(p.species as nat);
    let f2 = display_of(p.ethic);
    let f3 = p.job;
    let f4 = p.category;
    let f5 = if p.slave {
        lit_true_w()
    } else {
        lit_false_w()
    };
    lemma_dec_of_digits(p.id as nat);
    lemma_dec_of_digits(p.species as nat);
    lemma_dec_val_dec_of(p.id as nat);
    lemma_dec_val_dec_of(p.species as nat);
    assert(forall|k: int| 0 <= k < f0.len() ==> #[trigger] f0[k] != 9u8) by {
        assert(forall|k: int| 0 <= k < f0.len() ==> crate::num::is_digit(#[trigger] f0[k]));
    }
    assert(forall|k: int| 0 <= k < f1.len() ==> #[trigger] f1[k] != 9u8) by {
        assert(forall|k: int| 0 <= k < f1.len() ==> crate::num::is_digit(#[trigger] f1[k]));
    }
    assert(forall|k: int| 0 <= k < f2.len() ==> #[trigger] f2[k] != 9u8) by {
        crate::ethic::lemma_display_no_tab(p.ethic);
    }
    assert(forall|k: int| 0 <= k < f5.len() ==> #[trigger] f5[k] != 9u8);
    let r1 = f1 + seq![9u8] + f2 + seq![9u8] + f3 + seq![9u8] + f4 + seq![9u8] + f5 + seq![9u8];
    let r2 = f2 + seq![9u8] + f3 + seq![9u8] + f4 + seq![9u8] + f5 + seq![9u8];
    let r3 = f3 + seq![9u8] + f4 + seq![9u8] + f5 + seq![9u8];
    let r4 = f4 + seq![9u8] + f5 + seq![9u8];
    let r5 = f5 + seq![9u8];
    assert(line =~= f0 + seq![9u8] + r1);
    assert forall|k: int| 0 <= k < f0.len() implies line[k] != 9u8 by {
        assert(line[k] == f0[k]);
    }
    assert(line[f0.len() as int] == 9u8);
    lemma_find_byte_at(line, 9u8, f0.len() as int);
    assert(line.subrange(0, f0.len() as int) =~= f0);
    assert(line.subrange(f0.len() + 1 as int, line.len() as int) =~= r1);
    assert forall|k: int| 0 <= k < f1.len() implies r1[k] != 9u8 by {
        assert(r1[k] == f1[k]);
    }
    assert(r1[f1.len() as int] == 9u8);
    lemma_find_byte_at(r1, 9u8, f1.len() as int);
    assert(r1.subrange(0, f1.len() as int) =~= f1);
    assert(r1.subrange(f1.len() + 1 as int, r1.len() as int) =~= r2);
    assert forall|k: int| 0 <= k < f2.len() implies r2[k] != 9u8 by {
        assert(r2[k] == f2[k]);
    }
    assert(r2[f2.len() as int] == 9u8);
    lemma_find_byte_at(r2, 9u8, f2.len() as int);
    assert(r2.subrange(0, f2.len() as int) =~= f2);
    assert(r2.subrange(f2.len() + 1 as int, r2.len() as int) =~= r3);
    assert forall|k: int| 0 <= k < f3.len() implies r3[k] != 9u8 by {
        assert(r3[k] == f3[k]);
    }
    assert(r3[f3.len() as int] == 9u8);
    lemma_find_byte_at(r3, 9u8, f3.len() as int);
    assert(r3.subrange(0, f3.len() as int) =~= f3);
    assert(r3.subrange(f3.len() + 1 as int, r3.len() as int) =~= r4);
    assert forall|k: int| 0 <= k < f4.len() implies r4[k] != 9u8 by {
        assert(r4[k] == f4[k]);
    }
    assert(r4[f4.len() as int] == 9u8);
    lemma_find_byte_at(r4, 9u8, f4.len() as int);
    assert(r4.subrange(0, f4.len() as int) =~= f4);
    assert(r4.subrange(f4.len() + 1 as int, r4.len() as int) =~= r5);
    assert forall|k: int| 0 <= k < f5.len() implies r5[k] != 9u8 by {
        assert(r5[k] == f5[k]);
    }
    assert(r5[f5.len() as int] == 9u8);
    lemma_find_byte_at(r5, 9u8, f5.len() as int);
    assert(r5.subrange(0, f5.len() as int) =~= f5);
    crate::ethic::lemma_ethic_display_round(p.ethic);
    assert(lit_true_w() != lit_false_w()) by {
        assert(lit_true_w().len() != lit_false_w().len());
    }
}


pub proof fn lemma_tabs(n: nat)
    ensures
        tabs(n).len() == n,
        forall|k: int| 0 <= k < n ==> tabs(n)[k] == 9u8,
    decreases n,
{
    if n > 0 {
        lemma_tabs((n - 1) as nat);
    }
}

pub proof fn lemma_rt_pop_list(lines: Seq<Seq<u8>>, i: int, ps: Seq<PopV>, acc: Seq<PopV>)
    requires
        forall|k: int| 0 <= k < ps.len() ==> pop_ok(#[trigger] ps[k]),
        lines_at(lines, i, pops_lines(ps).push(tabs(5) + lit_close_brace())),
    ensures
        dec_pop_list(lines, i, acc) == Some((acc + ps, i + ps.len() + 1)),
    decreases ps.len(),
{
    let term = tabs(5) + lit_close_brace();
    let w = pops_lines(ps).push(term);
    lemma_tabs(5);
    if ps.len() == 0 {
        lemma_lines_at_index(lines, i, w, 0);
        assert(lines[i] == term);
        assert(acc + ps =~= acc);
    } else {
        lemma_lines_at_index(lines, i, w, 0);
        assert(lines[i] == pop_line(ps[0]));
        let f0 = dec_of(ps[0].id as nat);
        lemma_dec_of_digits(ps[0].id as nat);
        assert(pop_line(ps[0])[0] == f0[0]);
        assert(crate::num::is_digit(f0[0]));
        assert(term[0] == 9u8);
        assert(lines[i] != term);
        lemma_rt_pop(ps[0]);
        assert(w =~= seq![pop_line(ps[0])] + pops_lines(ps.drop_first()).push(term)) by {
            assert(pops_lines(ps.drop_first()) =~= pops_lines(ps).drop_first());
        }
        lemma_lines_at_split(
            lines,
            i,
            seq![pop_line(ps[0])],
            pops_lines(ps.drop_first()).push(term),
        );
        assert(forall|k: int|
            0 <= k < ps.drop_first().len() ==> pop_ok(#[trigger] ps.drop_first()[k]));
        lemma_rt_pop_list(lines, i + 1, ps.drop_first(), acc.push(ps[0]));
        assert(acc.push(ps[0]) + ps.drop_first() =~= acc + ps);
    }
}

pub proof fn lemma_rt_trait_list(lines: Seq<Seq<u8>>, i: int, ts: Seq<Seq<u8>>, acc: Seq<Seq<u8>>)
    requires
        lines_at(
            lines,
            i,
            ts.map_values(|t: Seq<u8>| tabs(4) + t).push(tabs(3) + lit_close_brace()),
        ),
    ensures
        dec_trait_list(lines, i, acc) == Some((acc + ts, i + ts.len() + 1)),
    decreases ts.len(),
{
    let term = tabs(3) + lit_close_brace();
    let tline = |t: Seq<u8>| tabs(4) + t;
    let w = ts.map_values(tline).push(term);
    lemma_tabs(3);
    lemma_tabs(4);
    if ts.len() == 0 {
        lemma_lines_at_index(lines, i, w, 0);
        assert(lines[i] == term);
        assert(acc + ts =~= acc);
    } else {
        lemma_lines_at_index(lines, i, w, 0);
        let l = tabs(4) + ts[0];
        assert(lines[i] == l);
        assert(l[3] == 9u8);
        assert(term[3] == '}' as u8);
        assert(lines[i] != term);
        assert(l.len() >= 4);
        assert(l.subrange(4, l.len() as int) =~= ts[0]);
        assert(w =~= seq![l] + ts.drop_first().map_values(tline).push(term)) by {
            assert(ts.drop_first().map_values(tline) =~= ts.map_values(tline).drop_first());
        }
        lemma_lines_at_split(lines, i, seq![l], ts.drop_first().map_values(tline).push(term));
        lemma_rt_trait_list(lines, i + 1, ts.drop_first(), acc.push(ts[0]));
        assert(acc.push(ts[0]) + ts.drop_first() =~= acc + ts);
    }
}

pub proof fn lemma_rt_objpid_list(lines: Seq<Seq<u8>>, i: int, ids: Seq<usize>, acc: Seq<usize>)
    requires
        lines_at(
            lines,
            i,
            ids.map_values(|pid: usize| tabs(4) + dec_of(pid as nat)).push(
                tabs(3) + lit_close_brace(),
            ),
        ),
    ensures
        dec_objpid_list(lines, i, acc) == Some((acc + ids, i + ids.len() + 1)),
    decreases ids.len(),
{
    let term = tabs(3) + lit_close_brace();
    let pline = |pid: usize| tabs(4) + dec_of(pid as nat);
    let w = ids.map_values(pline).push(term);
    lemma_tabs(3);
    lemma_tabs(4);
    if ids.len() == 0 {
        lemma_lines_at_index(lines, i, w, 0);
        assert(lines[i] == term);
        assert(acc + ids =~= acc);
    } else {
        lemma_lines_at_index(lines, i, w, 0);
        let l = tabs(4) + dec_of(ids[0] as nat);
        assert(lines[i] == l);
        assert(l[3] == 9u8);
        assert(term[3] == '}' as u8);
        assert(lines[i] != term);
        lemma_dec_of_digits(ids[0] as nat);
        lemma_dec_val_dec_of(ids[0] as nat);
        assert(l.len() >= 4);
        let ds = l.subrange(4, l.len() as int);
        assert(ds =~= dec_of(ids[0] as nat));
        assert(w =~= seq![l] + ids.drop_first().map_values(pline).push(term)) by {
            assert(ids.drop_first().map_values(pline) =~= ids.map_values(pline).drop_first());
        }
        lemma_lines_at_split(lines, i, seq![l], ids.drop_first().map_values(pline).push(term));
        lemma_rt_objpid_list(lines, i + 1, ids.drop_first(), acc.push(ids[0]));
        assert(acc.push(ids[0]) + ids.drop_first() =~= acc + ids);
    }
}

pub proof fn lemma_rt_color(c: Option<Seq<u8>>)
    requires
        color_ok(c),
    ensures
        dec_color_line(color_line(c)) == Some(c),
{
    lemma_tabs(4);
    match c {
        None => {
            let l = color_line(c);
            assert(l.subrange(4, l.len() as int) =~= lit_none_w());
        },
        Some(v) => {
            let l = color_line(c);
            assert(l.subrange(4, l.len() as int) =~= v);
        },
    }
}

pub proof fn lemma_rt_ethics(lines: Seq<Seq<u8>>, i: int, e: Option<EthicTripleV>)
    requires
        lines_at(lines, i, ethics_lines(e)),
        e matches Some(t) ==> triple_ok(t),
    ensures
        dec_ethics(lines, i) == Some((e, i + ethics_lines(e).len())),
{
    lemma_tabs(4);
    let none_l = tabs(4) + lit_none_w();
    let gest_l = tabs(4) + lit_disp_gestalt();
    match e {
        None => {
            lemma_lines_at_index(lines, i, ethics_lines(e), 0);
            assert(lines[i] =~= none_l);
        },
        Some(t) => {
            if t.e0 == EthicV::Gestalt {
                lemma_lines_at_index(lines, i, ethics_lines(e), 0);
                assert(lines[i] =~= gest_l);
                assert(lines[i] != none_l) by {
                    assert(gest_l[4] == 'G' as u8);
                    assert(none_l[4] == 'N' as u8);
                }
                assert(
                    Some(
                        (
                            Some(
                                EthicTripleV {
                                    e0: EthicV::Gestalt,
                                    e1: EthicV::Gestalt,
                                    e2: EthicV::Gestalt,
                                },
                            ),
                            i + 1,
                        ),
                    ) =~~= Some((e, i + ethics_lines(e).len())));
            } else {
                let l0 = tabs(4) + display_of(t.e0);
                let l1 = tabs(4) + display_of(t.e1);
                let l2 = tabs(4) + display_of(t.e2);
                lemma_lines_at_index(lines, i, ethics_lines(e), 0);
                lemma_lines_at_index(lines, i, ethics_lines(e), 1);
                lemma_lines_at_index(lines, i, ethics_lines(e), 2);
                assert(lines[i] == l0);
                assert(lines[i + 1] == l1);
                assert(lines[i + 2] == l2);
                let d0 = display_of(t.e0);
                assert(lines[i] != none_l) by {
                    assert(d0.len() != lit_none_w().len()) by {
                        if t.e0 is Non {
                            assert(d0.len() >= 7);
                        }
                    }
                    assert(l0.len() != none_l.len());
                }
                assert(lines[i] != gest_l) by {
                    if t.e0 is Non {
                        assert(d0[0] == 'o' as u8);
                        assert(lit_disp_gestalt()[0] == 'G' as u8);
                        assert(l0[4] != gest_l[4]);
                    } else {
                        assert(d0.len() != lit_disp_gestalt().len());
                        assert(l0.len() != gest_l.len());
                    }
                }
                assert(l0.subrange(4, l0.len() as int) =~= d0);
                assert(l1.subrange(4, l1.len() as int) =~= display_of(t.e1));
                assert(l2.subrange(4, l2.len() as int) =~= display_of(t.e2));
                crate::ethic::lemma_ethic_display_round(t.e0);
                crate::ethic::lemma_ethic_display_round(t.e1);
                crate::ethic::lemma_ethic_display_round(t.e2);
                assert(dec_ethics(lines, i) =~~= Some((e, i + 3)));
            }
        },
    }
}

#[verifier::rlimit(100)]
#[verifier::spinoff_prover]
pub proof fn lemma_rt_planet(lines: Seq<Seq<u8>>, i: int, p: PlanetV)
    requires
        planet_ok(p),
        lines_at(lines, i, planet_lines(p)),
    ensures
        dec_planet(lines, i) == Some((p, i + planet_lines(p).len())),
{
    let w = planet_lines(p);
    lemma_tabs(4);
    lemma_tabs(5);
    let hdr = tabs(4) + dec_of(p.id as nat) + lit_brace_suffix();
    let head = seq![
        hdr,
        tabs(5) + p.name,
        tabs(5) + p.typ,
        tabs(5) + dec_of(p.size as nat),
        tabs(5) + lit_pops_w(),
    ];
    let popw = pops_lines(p.population).push(tabs(5) + lit_close_brace());
    let tail = seq![tabs(4) + lit_close_brace()];
    assert(w =~= head + (popw + tail));
    lemma_lines_at_split(lines, i, head, popw + tail);
    lemma_lines_at_split(lines, i + 5, popw, tail);
    lemma_lines_at_index(lines, i, head, 0);
    lemma_lines_at_index(lines, i, head, 1);
    lemma_lines_at_index(lines, i, head, 2);
    lemma_lines_at_index(lines, i, head, 3);
    lemma_lines_at_index(lines, i + 5 + popw.len(), tail, 0);
    lemma_dec_of_digits(p.id as nat);
    lemma_dec_val_dec_of(p.id as nat);
    lemma_dec_of_digits(p.size as nat);
    lemma_dec_val_dec_of(p.size as nat);
    assert(hdr.len() >= 7);
    assert(hdr.subrange(4, hdr.len() - 2) =~= dec_of(p.id as nat));
    assert((tabs(5) + p.name).subrange(5, (tabs(5) + p.name).len() as int) =~= p.name);
    assert((tabs(5) + p.typ).subrange(5, (tabs(5) + p.typ).len() as int) =~= p.typ);
    assert((tabs(5) + dec_of(p.size as nat)).subrange(
        5,
        (tabs(5) + dec_of(p.size as nat)).len() as int,
    ) =~= dec_of(p.size as nat));
    lemma_rt_pop_list(lines, i + 5, p.population, Seq::empty());
    assert(Seq::<PopV>::empty() + p.population =~= p.population);
    let j = i + 5 + p.population.len() + 1;
    assert(j < lines.len());
    assert(dec_planet(lines, i) =~~= Some((p, i + w.len())));
}


#[verifier::rlimit(100)]
#[verifier::spinoff_prover]
pub proof fn lemma_rt_species(lines: Seq<Seq<u8>>, i: int, idx: nat, x: SpeciesV)
    requires
        species_ok(x),
        lines_at(lines, i, species_lines(idx, x)),
    ensures
        dec_species(lines, i) == Some((x, i + species_lines(idx, x).len())),
{
    let w = species_lines(idx, x);
    lemma_tabs(2);
    lemma_tabs(3);
    let head = seq![
        tabs(2) + dec_of(idx) + lit_brace_suffix(),
        tabs(3) + x.name,
        tabs(3) + x.plural,
        tabs(3) + x.adjective,
        tabs(3) + x.portrait,
        tabs(3) + lit_traits_w(),
    ];
    let tw = x.traits.map_values(|t: Seq<u8>| tabs(4) + t).push(tabs(3) + lit_close_brace());
    let tail = seq![tabs(2) + lit_close_brace()];
    assert(w =~= head + (tw + tail));
    lemma_lines_at_split(lines, i, head, tw + tail);
    lemma_lines_at_split(lines, i + 6, tw, tail);
    lemma_lines_at_index(lines, i, head, 1);
    lemma_lines_at_index(lines, i, head, 2);
    lemma_lines_at_index(lines, i, head, 3);
    lemma_lines_at_index(lines, i, head, 4);
    lemma_lines_at_index(lines, i + 6 + tw.len(), tail, 0);
    assert((tabs(3) + x.name).subrange(3, (tabs(3) + x.name).len() as int) =~= x.name);
    assert((tabs(3) + x.plural).subrange(3, (tabs(3) + x.plural).len() as int) =~= x.plural);
    assert((tabs(3) + x.adjective).subrange(3, (tabs(3) + x.adjective).len() as int)
        =~= x.adjective);
    assert((tabs(3) + x.portrait).subrange(3, (tabs(3) + x.portrait).len() as int) =~= x.portrait);
    lemma_rt_trait_list(lines, i + 6, x.traits, Seq::empty());
    assert(Seq::<Seq<u8>>::empty() + x.traits =~= x.traits);
    let j = i + 6 + x.traits.len() + 1;
    assert(j < lines.len());
    assert(dec_species(lines, i) =~~= Some((x, i + w.len())));
}

pub proof fn lemma_rt_species_list(
    lines: Seq<Seq<u8>>,
    i: int,
    ss: Seq<SpeciesV>,
    idx: nat,
    acc: Seq<SpeciesV>,
)
    requires
        forall|k: int| 0 <= k < ss.len() ==> species_ok(#[trigger] ss[k]),
        lines_at(lines, i, species_list_lines(ss, idx).push(tabs(1) + lit_close_brace())),
    ensures
        dec_species_list(lines, i, acc) == Some(
            (acc + ss, i + species_list_lines(ss, idx).len() + 1),
        ),
    decreases ss.len(),
{
    let term = tabs(1) + lit_close_brace();
    let w = species_list_lines(ss, idx).push(term);
    lemma_tabs(1);
    lemma_tabs(2);
    if ss.len() == 0 {
        lemma_lines_at_index(lines, i, w, 0);
        assert(lines[i] == term);
        assert(acc + ss =~= acc);
    } else {
        let w0 = species_lines(idx, ss[0]);
        let rest_w = species_list_lines(ss.drop_first(), idx + 1).push(term);
        assert(w =~= w0 + rest_w);
        lemma_lines_at_split(lines, i, w0, rest_w);
        lemma_lines_at_index(lines, i, w0, 0);
        let hdr = tabs(2) + dec_of(idx) + lit_brace_suffix();
        assert(lines[i] == hdr);
        assert(lines[i] != term) by {
            assert(hdr[1] == 9u8);
            assert(term[1] == '}' as u8);
        }
        lemma_rt_species(lines, i, idx, ss[0]);
        lemma_rt_species_list(lines, i + w0.len(), ss.drop_first(), idx + 1, acc.push(ss[0]));
        assert(acc.push(ss[0]) + ss.drop_first() =~= acc + ss);
        assert(i < i + w0.len() <= lines.len());
    }
}

pub proof fn lemma_rt_planet_list(lines: Seq<Seq<u8>>, i: int, ps: Seq<PlanetV>, acc: Seq<PlanetV>)
    requires
        forall|k: int| 0 <= k < ps.len() ==> planet_ok(#[trigger] ps[k]),
        lines_at(lines, i, planets_lines(ps).push(tabs(3) + lit_close_brace())),
    ensures
        dec_planet_list(lines, i, acc) == Some((acc + ps, i + planets_lines(ps).len() + 1)),
    decreases ps.len(),
{
    let term = tabs(3) + lit_close_brace();
    let w = planets_lines(ps).push(term);
    lemma_tabs(3);
    lemma_tabs(4);
    if ps.len() == 0 {
        lemma_lines_at_index(lines, i, w, 0);
        assert(lines[i] == term);
        assert(acc + ps =~= acc);
    } else {
        let w0 = planet_lines(ps[0]);
        let rest_w = planets_lines(ps.drop_first()).push(term);
        assert(w =~= w0 + rest_w);
        lemma_lines_at_split(lines, i, w0, rest_w);
        lemma_lines_at_index(lines, i, w0, 0);
        let hdr = tabs(4) + dec_of(ps[0].id as nat) + lit_brace_suffix();
        assert(lines[i] == hdr);
        assert(lines[i] != term) by {
            assert(hdr[3] == 9u8);
            assert(term[3] == '}' as u8);
        }
        lemma_rt_planet(lines, i, ps[0]);
        lemma_rt_planet_list(lines, i + w0.len(), ps.drop_first(), acc.push(ps[0]));
        assert(acc.push(ps[0]) + ps.drop_first() =~= acc + ps);
        assert(i < i + w0.len() <= lines.len());
    }
}

#[verifier::rlimit(100)]
#[verifier::spinoff_prover]
pub proof fn lemma_rt_empire(lines: Seq<Seq<u8>>, i: int, e: EmpireV)
    requires
        empire_ok(e),
        lines_at(lines, i, empire_lines(e)),
    ensures
        dec_empire(lines, i) == Some((e, i + empire_lines(e).len())),
{
    let w = empire_lines(e);
    lemma_tabs(2);
    lemma_tabs(3);
    let hdr = tabs(2) + dec_of(e.id as nat) + lit_brace_suffix();
    let head = seq![hdr, tabs(3) + e.name, tabs(3) + e.adjective, tabs(3) + lit_ethics_w()];
    let eth = ethics_lines(e.ethics);
    let mid = seq![tabs(3) + lit_close_brace(), tabs(3) + lit_planets_w()];
    let plw = planets_lines(e.planets).push(tabs(3) + lit_close_brace());
    let tail = seq![
        tabs(3) + lit_colors_w(),
        color_line(e.color.c0),
        color_line(e.color.c1),
        color_line(e.color.c2),
        color_line(e.color.c3),
        tabs(3) + lit_close_brace(),
        tabs(2) + lit_close_brace(),
    ];
    assert(w =~= head + (eth + (mid + (plw + tail))));
    lemma_lines_at_split(lines, i, head, eth + (mid + (plw + tail)));
    lemma_lines_at_split(lines, i + 4, eth, mid + (plw + tail));
    lemma_lines_at_split(lines, i + 4 + eth.len(), mid, plw + tail);
    lemma_lines_at_split(lines, i + 4 + eth.len() + 2, plw, tail);
    lemma_lines_at_index(lines, i, head, 0);
    lemma_lines_at_index(lines, i, head, 1);
    lemma_lines_at_index(lines, i, head, 2);
    lemma_dec_of_digits(e.id as nat);
    lemma_dec_val_dec_of(e.id as nat);
    assert(hdr.len() >= 5);
    assert(hdr.subrange(2, hdr.len() - 2) =~= dec_of(e.id as nat));
    assert((tabs(3) + e.name).subrange(3, (tabs(3) + e.name).len() as int) =~= e.name);
    assert((tabs(3) + e.adjective).subrange(3, (tabs(3) + e.adjective).len() as int)
        =~= e.adjective);
    lemma_rt_ethics(lines, i + 4, e.ethics);
    let j = i + 4 + eth.len();
    lemma_rt_planet_list(lines, j + 2, e.planets, Seq::empty());
    assert(Seq::<PlanetV>::empty() + e.planets =~= e.planets);
    let k = j + 2 + planets_lines(e.planets).len() + 1;
    lemma_lines_at_index(lines, k, tail, 1);
    lemma_lines_at_index(lines, k, tail, 2);
    lemma_lines_at_index(lines, k, tail, 3);
    lemma_lines_at_index(lines, k, tail, 4);
    lemma_rt_color(e.color.c0);
    lemma_rt_color(e.color.c1);
    lemma_rt_color(e.color.c2);
    lemma_rt_color(e.color.c3);
    assert(k + 5 <= lines.len());
    assert(k + 7 <= lines.len());
    assert(k + 7 == i + w.len());
    assert(dec_empire(lines, i) =~~= Some((e, i + w.len())));
}

pub proof fn lemma_rt_empire_list(lines: Seq<Seq<u8>>, i: int, es: Seq<EmpireV>, acc: Seq<EmpireV>)
    requires
        forall|k: int| 0 <= k < es.len() ==> empire_ok(#[trigger] es[k]),
        lines_at(lines, i, empires_lines(es).push(tabs(1) + lit_close_brace())),
    ensures
        dec_empire_list(lines, i, acc) == Some((acc + es, i + empires_lines(es).len() + 1)),
    decreases es.len(),
{
    let term = tabs(1) + lit_close_brace();
    let w = empires_lines(es).push(term);
    lemma_tabs(1);
    lemma_tabs(2);
    if es.len() == 0 {
        lemma_lines_at_index(lines, i, w, 0);
        assert(lines[i] == term);
        assert(acc + es =~= acc);
    } else {
        let w0 = empire_lines(es[0]);
        let rest_w = empires_lines(es.drop_first()).push(term);
        assert(w =~= w0 + rest_w);
        lemma_lines_at_split(lines, i, w0, rest_w);
        lemma_lines_at_index(lines, i, w0, 0);
        let hdr = tabs(2) + dec_of(es[0].id as nat) + lit_brace_suffix();
        assert(lines[i] == hdr);
        assert(lines[i] != term) by {
            assert(hdr[1] == 9u8);
            assert(term[1] == '}' as u8);
        }
        lemma_rt_empire(lines, i, es[0]);
        lemma_rt_empire_list(lines, i + w0.len(), es.drop_first(), acc.push(es[0]));
        assert(acc.push(es[0]) + es.drop_first() =~= acc + es);
        assert(i < i + w0.len() <= lines.len());
    }
}

#[verifier::rlimit(100)]
#[verifier::spinoff_prover]
pub proof fn lemma_rt_obj(lines: Seq<Seq<u8>>, i: int, o: GalObjectV)
    requires
        obj_ok(o),
        lines_at(lines, i, obj_lines(o)),
    ensures
        dec_obj(lines, i) == Some((o, i + obj_lines(o).len())),
{
    let w = obj_lines(o);
    lemma_tabs(2);
    lemma_tabs(3);
    let hdr = tabs(2) + dec_of(o.id as nat) + lit_brace_suffix();
    let xd = i64_dec(o.x as int);
    let yd = i64_dec(o.y as int);
    let coord = tabs(3) + lit_lparen() + xd + lit_comma_sp() + yd + lit_rparen();
    let head = seq![hdr, tabs(3) + o.name, tabs(3) + o.typ, coord, tabs(3) + lit_planets_w()];
    let pw = o.planets.map_values(|pid: usize| tabs(4) + dec_of(pid as nat)).push(
        tabs(3) + lit_close_brace(),
    );
    let tail = seq![tabs(2) + lit_close_brace()];
    assert(w =~= head + (pw + tail));
    lemma_lines_at_split(lines, i, head, pw + tail);
    lemma_lines_at_split(lines, i + 5, pw, tail);
    lemma_lines_at_index(lines, i, head, 0);
    lemma_lines_at_index(lines, i, head, 1);
    lemma_lines_at_index(lines, i, head, 2);
    lemma_lines_at_index(lines, i, head, 3);
    lemma_lines_at_index(lines, i + 5 + pw.len(), tail, 0);
    lemma_dec_of_digits(o.id as nat);
    lemma_dec_val_dec_of(o.id as nat);
    assert(hdr.len() >= 5);
    assert(hdr.subrange(2, hdr.len() - 2) =~= dec_of(o.id as nat));
    assert((tabs(3) + o.name).subrange(3, (tabs(3) + o.name).len() as int) =~= o.name);
    assert((tabs(3) + o.typ).subrange(3, (tabs(3) + o.typ).len() as int) =~= o.typ);
    lemma_i64_dec_round(o.x);
    lemma_i64_dec_round(o.y);
    let body = xd + lit_comma_sp() + yd;
    assert(coord.len() >= 5);
    assert(coord.subrange(4, coord.len() - 1) =~= body);
    assert(dec_coord_body(body) == Some((o.x as int, o.y as int))) by {
        assert forall|k: int| 0 <= k < xd.len() implies !(k + 2 <= body.len() && #[trigger] body[k]
            == ',' as u8 && body[k + 1] == ' ' as u8) by {
            assert(body[k] == xd[k]);
        }
        assert(body[xd.len() as int] == ',' as u8);
        assert(body[xd.len() + 1 as int] == ' ' as u8);
        crate::text::lemma_find_sep_at(body, xd.len() as int);
        assert(body.subrange(0, xd.len() as int) =~= xd);
        let rest = body.subrange(xd.len() + 2 as int, body.len() as int);
        assert(rest =~= yd);
        assert forall|k: int| 0 <= k < rest.len() implies !(k + 2 <= rest.len() && #[trigger] rest[k]
            == ',' as u8 && rest[k + 1] == ' ' as u8) by {
            assert(rest[k] == yd[k]);
        }
        crate::text::lemma_find_sep_at(rest, rest.len() as int);
    }
    lemma_rt_objpid_list(lines, i + 5, o.planets, Seq::empty());
    assert(Seq::<usize>::empty() + o.planets =~= o.planets);
    let j = i + 5 + o.planets.len() + 1;
    assert(j < lines.len());
    assert(dec_obj(lines, i) =~~= Some((o, i + w.len())));
}

pub proof fn lemma_rt_obj_list(lines: Seq<Seq<u8>>, i: int, os: Seq<GalObjectV>, acc: Seq<GalObjectV>)
    requires
        forall|k: int| 0 <= k < os.len() ==> obj_ok(#[trigger] os[k]),
        lines_at(lines, i, objs_lines(os).push(tabs(1) + lit_close_brace())),
    ensures
        dec_obj_list(lines, i, acc) == Some((acc + os, i + objs_lines(os).len() + 1)),
    decreases os.len(),
{
    let term = tabs(1) + lit_close_brace();
    let w = objs_lines(os).push(term);
    lemma_tabs(1);
    lemma_tabs(2);
    if os.len() == 0 {
        lemma_lines_at_index(lines, i, w, 0);
        assert(lines[i] == term);
        assert(acc + os =~= acc);
    } else {
        let w0 = obj_lines(os[0]);
        let rest_w = objs_lines(os.drop_first()).push(term);
        assert(w =~= w0 + rest_w);
        lemma_lines_at_split(lines, i, w0, rest_w);
        lemma_lines_at_index(lines, i, w0, 0);
        let hdr = tabs(2) + dec_of(os[0].id as nat) + lit_brace_suffix();
        assert(lines[i] == hdr);
        assert(lines[i] != term) by {
            assert(hdr[1] == 9u8);
            assert(term[1] == '}' as u8);
        }
        lemma_rt_obj(lines, i, os[0]);
        lemma_rt_obj_list(lines, i + w0.len(), os.drop_first(), acc.push(os[0]));
        assert(acc.push(os[0]) + os.drop_first() =~= acc + os);
        assert(i < i + w0.len() <= lines.len());
    }
}

#[verifier::rlimit(100)]
#[verifier::spinoff_prover]
pub proof fn lemma_rt_galaxy(lines: Seq<Seq<u8>>, i: int, g: GalaxyV)
    requires
        galaxy_ok(g),
        g.maxc == zero_bounds(),
        lines_at(lines, i, galaxy_lines(g)),
    ensures
        dec_galaxy(lines, i) == Some((g, i + galaxy_lines(g).len())),
{
    let w = galaxy_lines(g);
    lemma_tabs(1);
    let date_l = legible_of(g.date as int) + lit_brace_suffix();
    let head = seq![date_l, tabs(1) + lit_species_w()];
    let ssw = species_list_lines(g.species, 0).push(tabs(1) + lit_close_brace());
    let mid1 = seq![tabs(1) + lit_empires_w()];
    let esw = empires_lines(g.empires).push(tabs(1) + lit_close_brace());
    let mid2 = seq![tabs(1) + lit_objects_w()];
    let osw = objs_lines(g.obj).push(tabs(1) + lit_close_brace());
    let tail = seq![lit_close_brace()];
    assert(w =~= head + (ssw + (mid1 + (esw + (mid2 + (osw + tail))))));
    lemma_lines_at_split(lines, i, head, ssw + (mid1 + (esw + (mid2 + (osw + tail)))));
    lemma_lines_at_split(lines, i + 2, ssw, mid1 + (esw + (mid2 + (osw + tail))));
    let a1 = i + 2 + ssw.len();
    lemma_lines_at_split(lines, a1, mid1, esw + (mid2 + (osw + tail)));
    lemma_lines_at_split(lines, a1 + 1, esw, mid2 + (osw + tail));
    let a2 = a1 + 1 + esw.len();
    lemma_lines_at_split(lines, a2, mid2, osw + tail);
    lemma_lines_at_split(lines, a2 + 1, osw, tail);
    let a3 = a2 + 1 + osw.len();
    lemma_lines_at_index(lines, i, head, 0);
    lemma_lines_at_index(lines, i, head, 1);
    lemma_lines_at_index(lines, a1, mid1, 0);
    lemma_lines_at_index(lines, a2, mid2, 0);
    lemma_lines_at_index(lines, a3, tail, 0);
    crate::dates::lemma_date_legible_round(g.date as int);
    lemma_rt_species_list(lines, i + 2, g.species, 0, Seq::empty());
    assert(Seq::<SpeciesV>::empty() + g.species =~= g.species);
    lemma_rt_empire_list(lines, a1 + 1, g.empires, Seq::empty());
    assert(Seq::<EmpireV>::empty() + g.empires =~= g.empires);
    lemma_rt_obj_list(lines, a2 + 1, g.obj, Seq::empty());
    assert(Seq::<GalObjectV>::empty() + g.obj =~= g.obj);
    assert(a3 < lines.len());
    assert(a3 + 1 == i + w.len());
    assert(dec_galaxy(lines, i) =~~= Some((g, i + w.len())));
}

/// True when no two snapshots share a date.
pub open spec fn dates_distinct(s: Seq<GalaxyV>) -> bool {
    forall|j: int, k: int| 0 <= j < k < s.len() ==> (#[trigger] s[j]).date != (#[trigger] s[k]).date
}

pub proof fn lemma_store_put_append(s: Seq<GalaxyV>, g: GalaxyV)
    requires
        forall|k: int| 0 <= k < s.len() ==> (#[trigger] s[k]).date != g.date,
    ensures
        store_put(s, g) == s.push(g),
    decreases s.len(),
{
    if s.len() == 0 {
        assert(store_put(s, g) =~= s.push(g));
    } else {
        assert(forall|k: int|
            0 <= k < s.drop_first().len() ==> (#[trigger] s.drop_first()[k]).date != g.date);
        lemma_store_put_append(s.drop_first(), g);
        assert(store_put(s, g) =~= s.push(g));
    }
}

pub proof fn lemma_rt_everything(lines: Seq<Seq<u8>>, i: int, gs: Seq<GalaxyV>, acc: Seq<GalaxyV>)
    requires
        forall|k: int|
            0 <= k < gs.len() ==> galaxy_ok(#[trigger] gs[k]) && gs[k].maxc == zero_bounds(),
        dates_distinct(acc + gs),
        lines_at(lines, i, galaxies_lines(gs)),
        i + galaxies_lines(gs).len() == lines.len(),
    ensures
        dec_everything(lines, i, acc) == Some((acc + gs, lines.len() as int)),
    decreases gs.len(),
{
    if gs.len() == 0 {
        assert(i == lines.len());
        assert(acc + gs =~= acc);
    } else {
        let w0 = galaxy_lines(gs[0]);
        let rest_w = galaxies_lines(gs.drop_first());
        assert(galaxies_lines(gs) =~= w0 + rest_w);
        lemma_lines_at_split(lines, i, w0, rest_w);
        lemma_rt_galaxy(lines, i, gs[0]);
        assert(i < lines.len()) by {
            assert(w0.len() >= 1);
        }
        assert(forall|k: int|
            0 <= k < acc.len() ==> ((acc + gs)[k]).date == (#[trigger] acc[k]).date);
        assert(forall|k: int| 0 <= k < acc.len() ==> (#[trigger] acc[k]).date != gs[0].date) by {
            assert(forall|k: int| 0 <= k < acc.len() ==> (acc + gs)[acc.len() as int].date != (
            #[trigger] (acc + gs)[k]).date);
        }
        lemma_store_put_append(acc, gs[0]);
        assert(acc.push(gs[0]) + gs.drop_first() =~= acc + gs);
        lemma_rt_everything(lines, i + w0.len(), gs.drop_first(), acc.push(gs[0]));
        assert(i < i + w0.len() <= lines.len());
    }
}


// ------------------------------------------------------------------
// The encoded lines are newline-free, so byte joining splits back
// ------------------------------------------------------------------

pub proof fn lemma_text_ok_concat(a: Seq<u8>, b: Seq<u8>)
    requires
        text_ok(a),
        text_ok(b),
    ensures
        text_ok(a + b),
{
    assert forall|k: int| 0 <= k < (a + b).len() implies (a + b)[k] != 10u8 by {
        if k < a.len() {
            assert((a + b)[k] == a[k]);
        } else {
            assert((a + b)[k] == b[k - a.len()]);
        }
    }
}

pub proof fn lemma_text_ok_dec_of(n: nat)
    ensures
        text_ok(dec_of(n)),
{
    lemma_dec_of_digits(n);
    assert forall|k: int| 0 <= k < dec_of(n).len() implies dec_of(n)[k] != 10u8 by {
        assert(crate::num::is_digit(dec_of(n)[k]));
    }
}

pub proof fn lemma_text_ok_tabs(n: nat)
    ensures
        text_ok(tabs(n)),
{
    lemma_tabs(n);
}

pub proof fn lemma_text_ok_i64(x: i64)
    ensures
        text_ok(i64_dec(x as int)),
{
    lemma_i64_dec_round(x);
}

pub proof fn lemma_text_ok_display(e: EthicV)
    requires
        ethic_ok(e),
    ensures
        text_ok(display_of(e)),
{
    match e {
        EthicV::Non(t) => {
            lemma_text_ok_concat(crate::text::lit_disp_other(), t);
        },
        _ => {},
    }
}

pub proof fn lemma_lines_ok_concat(a: Seq<Seq<u8>>, b: Seq<Seq<u8>>)
    requires
        lines_ok(a),
        lines_ok(b),
    ensures
        lines_ok(a + b),
{
    assert forall|k: int| 0 <= k < (a + b).len() implies text_ok(#[trigger] (a + b)[k]) by {
        if k < a.len() {
            assert((a + b)[k] == a[k]);
        } else {
            assert((a + b)[k] == b[k - a.len()]);
        }
    }
}

pub proof fn lemma_lines_ok_pop(p: PopV)
    requires
        pop_ok(p),
    ensures
        text_ok(pop_line(p)),
{
    lemma_text_ok_dec_of(p.id as nat);
    lemma_text_ok_dec_of(p.species as nat);
    lemma_text_ok_display(p.ethic);
    let t = seq![9u8];
    assert(text_ok(t));
    lemma_text_ok_concat(dec_of(p.id as nat), t);
    lemma_text_ok_concat(dec_of(p.id as nat) + t, dec_of(p.species as nat));
    lemma_text_ok_concat(dec_of(p.id as nat) + t + dec_of(p.species as nat), t);
    lemma_text_ok_concat(
        dec_of(p.id as nat) + t + dec_of(p.species as nat) + t,
        display_of(p.ethic),
    );
    lemma_text_ok_concat(
        dec_of(p.id as nat) + t + dec_of(p.species as nat) + t + display_of(p.ethic),
        t,
    );
    lemma_text_ok_concat(
        dec_of(p.id as nat) + t + dec_of(p.species as nat) + t + display_of(p.ethic) + t,
        p.job,
    );
    lemma_text_ok_concat(
        dec_of(p.id as nat) + t + dec_of(p.species as nat) + t + display_of(p.ethic) + t + p.job,
        t,
    );
    lemma_text_ok_concat(
        dec_of(p.id as nat) + t + dec_of(p.species as nat) + t + display_of(p.ethic) + t + p.job
            + t,
        p.category,
    );
    lemma_text_ok_concat(
        dec_of(p.id as nat) + t + dec_of(p.species as nat) + t + display_of(p.ethic) + t + p.job
            + t + p.category,
        t,
    );
    let sw = if p.slave {
        lit_true_w()
    } else {
        lit_false_w()
    };
    lemma_text_ok_concat(
        dec_of(p.id as nat) + t + dec_of(p.species as nat) + t + display_of(p.ethic) + t + p.job
            + t + p.category + t,
        sw,
    );
    lemma_text_ok_concat(
        dec_of(p.id as nat) + t + dec_of(p.species as nat) + t + display_of(p.ethic) + t + p.job
            + t + p.category + t + sw,
        t,
    );
}

/// A tab-indented line around newline-free text is newline-free.
pub proof fn lemma_text_ok_tab_line(n: nat, t: Seq<u8>)
    requires
        text_ok(t),
    ensures
        text_ok(tabs(n) + t),
{
    lemma_text_ok_tabs(n);
    lemma_text_ok_concat(tabs(n), t);
}

pub proof fn lemma_lines_ok_planet(p: PlanetV)
    requires
        planet_ok(p),
    ensures
        lines_ok(planet_lines(p)),
{
    lemma_text_ok_dec_of(p.id as nat);
    lemma_text_ok_dec_of(p.size as nat);
    lemma_text_ok_tabs(4);
    lemma_text_ok_concat(tabs(4), dec_of(p.id as nat));
    lemma_text_ok_concat(tabs(4) + dec_of(p.id as nat), lit_brace_suffix());
    lemma_text_ok_tab_line(5, p.name);
    lemma_text_ok_tab_line(5, p.typ);
    lemma_text_ok_tab_line(5, dec_of(p.size as nat));
    lemma_text_ok_tab_line(5, lit_pops_w());
    lemma_text_ok_tab_line(5, lit_close_brace());
    lemma_text_ok_tab_line(4, lit_close_brace());
    assert(lines_ok(pops_lines(p.population))) by {
        assert forall|k: int| 0 <= k < pops_lines(p.population).len() implies text_ok(
            #[trigger] pops_lines(p.population)[k],
        ) by {
            assert(pops_lines(p.population)[k] == pop_line(p.population[k]));
            lemma_lines_ok_pop(p.population[k]);
        }
    }
    let n = pops_lines(p.population).len();
    assert forall|k: int| 0 <= k < planet_lines(p).len() implies text_ok(
        #[trigger] planet_lines(p)[k],
    ) by {
        let w = planet_lines(p);
        if k == 0 {
            assert(w[k] == tabs(4) + dec_of(p.id as nat) + lit_brace_suffix());
        } else if k == 1 {
            assert(w[k] == tabs(5) + p.name);
        } else if k == 2 {
            assert(w[k] == tabs(5) + p.typ);
        } else if k == 3 {
            assert(w[k] == tabs(5) + dec_of(p.size as nat));
        } else if k == 4 {
            assert(w[k] == tabs(5) + lit_pops_w());
        } else if k < 5 + n {
            assert(w[k] == pops_lines(p.population)[k - 5]);
        } else if k == 5 + n {
            assert(w[k] == tabs(5) + lit_close_brace());
        } else {
            assert(w[k] == tabs(4) + lit_close_brace());
        }
    }
}

pub proof fn lemma_lines_ok_planets(ps: Seq<PlanetV>)
    requires
        forall|k: int| 0 <= k < ps.len() ==> planet_ok(#[trigger] ps[k]),
    ensures
        lines_ok(planets_lines(ps)),
    decreases ps.len(),
{
    if ps.len() > 0 {
        lemma_lines_ok_planet(ps[0]);
        lemma_lines_ok_planets(ps.drop_first());
        lemma_lines_ok_concat(planet_lines(ps[0]), planets_lines(ps.drop_first()));
    }
}

pub proof fn lemma_lines_ok_species(idx: nat, x: SpeciesV)
    requires
        species_ok(x),
    ensures
        lines_ok(species_lines(idx, x)),
{
    lemma_text_ok_dec_of(idx);
    lemma_text_ok_tabs(2);
    lemma_text_ok_concat(tabs(2), dec_of(idx));
    lemma_text_ok_concat(tabs(2) + dec_of(idx), lit_brace_suffix());
    lemma_text_ok_tab_line(3, x.name);
    lemma_text_ok_tab_line(3, x.plural);
    lemma_text_ok_tab_line(3, x.adjective);
    lemma_text_ok_tab_line(3, x.portrait);
    lemma_text_ok_tab_line(3, lit_traits_w());
    lemma_text_ok_tab_line(3, lit_close_brace());
    lemma_text_ok_tab_line(2, lit_close_brace());
    let tl = x.traits.map_values(|t: Seq<u8>| tabs(4) + t);
    assert(lines_ok(tl)) by {
        assert forall|k: int| 0 <= k < tl.len() implies text_ok(#[trigger] tl[k]) by {
            assert(tl[k] == tabs(4) + x.traits[k]);
            lemma_text_ok_tab_line(4, x.traits[k]);
        }
    }
    let n = tl.len();
    assert forall|k: int| 0 <= k < species_lines(idx, x).len() implies text_ok(
        #[trigger] species_lines(idx, x)[k],
    ) by {
        let w = species_lines(idx, x);
        if k == 0 {
            assert(w[k] == tabs(2) + dec_of(idx) + lit_brace_suffix());
        } else if k == 1 {
            assert(w[k] == tabs(3) + x.name);
        } else if k == 2 {
            assert(w[k] == tabs(3) + x.plural);
        } else if k == 3 {
            assert(w[k] == tabs(3) + x.adjective);
        } else if k == 4 {
            assert(w[k] == tabs(3) + x.portrait);
        } else if k == 5 {
            assert(w[k] == tabs(3) + lit_traits_w());
        } else if k < 6 + n {
            assert(w[k] == tl[k - 6]);
        } else if k == 6 + n {
            assert(w[k] == tabs(3) + lit_close_brace());
        } else {
            assert(w[k] == tabs(2) + lit_close_brace());
        }
    }
}

pub proof fn lemma_lines_ok_species_list(ss: Seq<SpeciesV>, idx: nat)
    requires
        forall|k: int| 0 <= k < ss.len() ==> species_ok(#[trigger] ss[k]),
    ensures
        lines_ok(species_list_lines(ss, idx)),
    decreases ss.len(),
{
    if ss.len() > 0 {
        lemma_lines_ok_species(idx, ss[0]);
        lemma_lines_ok_species_list(ss.drop_first(), idx + 1);
        lemma_lines_ok_concat(
            species_lines(idx, ss[0]),
            species_list_lines(ss.drop_first(), idx + 1),
        );
    }
}

pub proof fn lemma_lines_ok_empire(e: EmpireV)
    requires
        empire_ok(e),
    ensures
        lines_ok(empire_lines(e)),
{
    lemma_text_ok_dec_of(e.id as nat);
    lemma_text_ok_tabs(2);
    lemma_text_ok_concat(tabs(2), dec_of(e.id as nat));
    lemma_text_ok_concat(tabs(2) + dec_of(e.id as nat), lit_brace_suffix());
    lemma_text_ok_tab_line(3, e.name);
    lemma_text_ok_tab_line(3, e.adjective);
    lemma_text_ok_tab_line(3, lit_ethics_w());
    lemma_text_ok_tab_line(3, lit_close_brace());
    lemma_text_ok_tab_line(3, lit_planets_w());
    lemma_text_ok_tab_line(3, lit_colors_w());
    lemma_text_ok_tab_line(2, lit_close_brace());
    lemma_text_ok_tab_line(4, lit_none_w());
    assert(lines_ok(ethics_lines(e.ethics))) by {
        match e.ethics {
            None => {},
            Some(t) => {
                if t.e0 == EthicV::Gestalt {
                    lemma_text_ok_tab_line(4, lit_disp_gestalt());
                } else {
                    lemma_text_ok_display(t.e0);
                    lemma_text_ok_display(t.e1);
                    lemma_text_ok_display(t.e2);
                    lemma_text_ok_tab_line(4, display_of(t.e0));
                    lemma_text_ok_tab_line(4, display_of(t.e1));
                    lemma_text_ok_tab_line(4, display_of(t.e2));
                }
            },
        }
    }
    assert(text_ok(color_line(e.color.c0))) by {
        match e.color.c0 {
            None => {},
            Some(v) => {
                lemma_text_ok_tab_line(4, v);
            },
        }
    }
    assert(text_ok(color_line(e.color.c1))) by {
        match e.color.c1 {
            None => {},
            Some(v) => {
                lemma_text_ok_tab_line(4, v);
            },
        }
    }
    assert(text_ok(color_line(e.color.c2))) by {
        match e.color.c2 {
            None => {},
            Some(v) => {
                lemma_text_ok_tab_line(4, v);
            },
        }
    }
    assert(text_ok(color_line(e.color.c3))) by {
        match e.color.c3 {
            None => {},
            Some(v) => {
                lemma_text_ok_tab_line(4, v);
            },
        }
    }
    lemma_lines_ok_planets(e.planets);
    let ne = ethics_lines(e.ethics).len();
    let np = planets_lines(e.planets).len();
    assert forall|k: int| 0 <= k < empire_lines(e).len() implies text_ok(
        #[trigger] empire_lines(e)[k],
    ) by {
        let w = empire_lines(e);
        if k == 0 {
            assert(w[k] == tabs(2) + dec_of(e.id as nat) + lit_brace_suffix());
        } else if k == 1 {
            assert(w[k] == tabs(3) + e.name);
        } else if k == 2 {
            assert(w[k] == tabs(3) + e.adjective);
        } else if k == 3 {
            assert(w[k] == tabs(3) + lit_ethics_w());
        } else if k < 4 + ne {
            assert(w[k] == ethics_lines(e.ethics)[k - 4]);
        } else if k == 4 + ne {
            assert(w[k] == tabs(3) + lit_close_brace());
        } else if k == 4 + ne + 1 {
            assert(w[k] == tabs(3) + lit_planets_w());
        } else if k < 4 + ne + 2 + np {
            assert(w[k] == planets_lines(e.planets)[k - (4 + ne + 2)]);
        } else if k == 4 + ne + 2 + np {
            assert(w[k] == tabs(3) + lit_close_brace());
        } else if k == 4 + ne + 2 + np + 1 {
            assert(w[k] == tabs(3) + lit_colors_w());
        } else if k == 4 + ne + 2 + np + 2 {
            assert(w[k] == color_line(e.color.c0));
        } else if k == 4 + ne + 2 + np + 3 {
            assert(w[k] == color_line(e.color.c1));
        } else if k == 4 + ne + 2 + np + 4 {
            assert(w[k] == color_line(e.color.c2));
        } else if k == 4 + ne + 2 + np + 5 {
            assert(w[k] == color_line(e.color.c3));
        } else if k == 4 + ne + 2 + np + 6 {
            assert(w[k] == tabs(3) + lit_close_brace());
        } else {
            assert(w[k] == tabs(2) + lit_close_brace());
        }
    }
}

pub proof fn lemma_lines_ok_empires(es: Seq<EmpireV>)
    requires
        forall|k: int| 0 <= k < es.len() ==> empire_ok(#[trigger] es[k]),
    ensures
        lines_ok(empires_lines(es)),
    decreases es.len(),
{
    if es.len() > 0 {
        lemma_lines_ok_empire(es[0]);
        lemma_lines_ok_empires(es.drop_first());
        lemma_lines_ok_concat(empire_lines(es[0]), empires_lines(es.drop_first()));
    }
}

pub proof fn lemma_lines_ok_obj(o: GalObjectV)
    requires
        obj_ok(o),
    ensures
        lines_ok(obj_lines(o)),
{
    lemma_text_ok_dec_of(o.id as nat);
    lemma_text_ok_tabs(2);
    lemma_text_ok_tabs(3);
    lemma_text_ok_concat(tabs(2), dec_of(o.id as nat));
    lemma_text_ok_concat(tabs(2) + dec_of(o.id as nat), lit_brace_suffix());
    lemma_text_ok_tab_line(3, o.name);
    lemma_text_ok_tab_line(3, o.typ);
    lemma_text_ok_i64(o.x);
    lemma_text_ok_i64(o.y);
    lemma_text_ok_concat(tabs(3), lit_lparen());
    lemma_text_ok_concat(tabs(3) + lit_lparen(), i64_dec(o.x as int));
    lemma_text_ok_concat(tabs(3) + lit_lparen() + i64_dec(o.x as int), lit_comma_sp());
    lemma_text_ok_concat(
        tabs(3) + lit_lparen() + i64_dec(o.x as int) + lit_comma_sp(),
        i64_dec(o.y as int),
    );
    lemma_text_ok_concat(
        tabs(3) + lit_lparen() + i64_dec(o.x as int) + lit_comma_sp() + i64_dec(o.y as int),
        lit_rparen(),
    );
    lemma_text_ok_tab_line(3, lit_planets_w());
    lemma_text_ok_tab_line(3, lit_close_brace());
    lemma_text_ok_tab_line(2, lit_close_brace());
    let pl = o.planets.map_values(|pid: usize| tabs(4) + dec_of(pid as nat));
    assert(lines_ok(pl)) by {
        assert forall|k: int| 0 <= k < pl.len() implies text_ok(#[trigger] pl[k]) by {
            assert(pl[k] == tabs(4) + dec_of(o.planets[k] as nat));
            lemma_text_ok_dec_of(o.planets[k] as nat);
            lemma_text_ok_tab_line(4, dec_of(o.planets[k] as nat));
        }
    }
    let n = pl.len();
    assert forall|k: int| 0 <= k < obj_lines(o).len() implies text_ok(#[trigger] obj_lines(o)[k]) by {
        let w = obj_lines(o);
        if k == 0 {
            assert(w[k] == tabs(2) + dec_of(o.id as nat) + lit_brace_suffix());
        } else if k == 1 {
            assert(w[k] == tabs(3) + o.name);
        } else if k == 2 {
            assert(w[k] == tabs(3) + o.typ);
        } else if k == 3 {
            assert(w[k] == tabs(3) + lit_lparen() + i64_dec(o.x as int) + lit_comma_sp() + i64_dec(
                o.y as int,
            ) + lit_rparen());
        } else if k == 4 {
            assert(w[k] == tabs(3) + lit_planets_w());
        } else if k < 5 + n {
            assert(w[k] == pl[k - 5]);
        } else if k == 5 + n {
            assert(w[k] == tabs(3) + lit_close_brace());
        } else {
            assert(w[k] == tabs(2) + lit_close_brace());
        }
    }
}

pub proof fn lemma_lines_ok_objs(os: Seq<GalObjectV>)
    requires
        forall|k: int| 0 <= k < os.len() ==> obj_ok(#[trigger] os[k]),
    ensures
        lines_ok(objs_lines(os)),
    decreases os.len(),
{
    if os.len() > 0 {
        lemma_lines_ok_obj(os[0]);
        lemma_lines_ok_objs(os.drop_first());
        lemma_lines_ok_concat(obj_lines(os[0]), objs_lines(os.drop_first()));
    }
}

pub proof fn lemma_text_ok_legible(date: int)
    requires
        0 <= date,
    ensures
        text_ok(legible_of(date)),
{
    crate::dates::lemma_date_split(date);
    let year = crate::dates::year_of(date);
    let month = crate::dates::month_of(date);
    let day = crate::dates::day_of(date);
    lemma_text_ok_dec_of((year + 2200) as nat);
    lemma_text_ok_dec_of((month + 1) as nat);
    lemma_text_ok_dec_of((day + 1) as nat);
    let z = seq![48u8];
    assert(text_ok(z));
    let dot = seq!['.' as u8];
    assert(text_ok(dot));
    let ms = if month % 10 == 0 {
        z + dec_of((month + 1) as nat)
    } else {
        dec_of((month + 1) as nat)
    };
    let ds = if day % 10 == 0 {
        z + dec_of((day + 1) as nat)
    } else {
        dec_of((day + 1) as nat)
    };
    lemma_text_ok_concat(z, dec_of((month + 1) as nat));
    lemma_text_ok_concat(z, dec_of((day + 1) as nat));
    lemma_text_ok_concat(dec_of((year + 2200) as nat), dot);
    lemma_text_ok_concat(dec_of((year + 2200) as nat) + dot, ms);
    lemma_text_ok_concat(dec_of((year + 2200) as nat) + dot + ms, dot);
    lemma_text_ok_concat(dec_of((year + 2200) as nat) + dot + ms + dot, ds);
}

pub proof fn lemma_lines_ok_galaxy(g: GalaxyV)
    requires
        galaxy_ok(g),
    ensures
        lines_ok(galaxy_lines(g)),
{
    lemma_text_ok_legible(g.date as int);
    lemma_text_ok_concat(legible_of(g.date as int), lit_brace_suffix());
    lemma_text_ok_tab_line(1, lit_species_w());
    lemma_text_ok_tab_line(1, lit_empires_w());
    lemma_text_ok_tab_line(1, lit_objects_w());
    lemma_text_ok_tab_line(1, lit_close_brace());
    assert(text_ok(lit_close_brace()));
    lemma_lines_ok_species_list(g.species, 0);
    lemma_lines_ok_empires(g.empires);
    lemma_lines_ok_objs(g.obj);
    let ns = species_list_lines(g.species, 0).len();
    let ne = empires_lines(g.empires).len();
    let no = objs_lines(g.obj).len();
    assert forall|k: int| 0 <= k < galaxy_lines(g).len() implies text_ok(
        #[trigger] galaxy_lines(g)[k],
    ) by {
        if 2 <= k < 2 + ns {
            assert(galaxy_lines(g)[k] == species_list_lines(g.species, 0)[k - 2]);
        } else if 2 + ns + 2 <= k < 2 + ns + 2 + ne {
            assert(galaxy_lines(g)[k] == empires_lines(g.empires)[k - (2 + ns + 2)]);
        } else if 2 + ns + 2 + ne + 2 <= k < 2 + ns + 2 + ne + 2 + no {
            assert(galaxy_lines(g)[k] == objs_lines(g.obj)[k - (2 + ns + 2 + ne + 2)]);
        }
    }
}

pub proof fn lemma_lines_ok_galaxies(gs: Seq<GalaxyV>)
    requires
        forall|k: int| 0 <= k < gs.len() ==> galaxy_ok(#[trigger] gs[k]),
    ensures
        lines_ok(galaxies_lines(gs)),
    decreases gs.len(),
{
    if gs.len() > 0 {
        lemma_lines_ok_galaxy(gs[0]);
        lemma_lines_ok_galaxies(gs.drop_first());
        lemma_lines_ok_concat(galaxy_lines(gs[0]), galaxies_lines(gs.drop_first()));
    }
}

/// Round trip of the cache codec: any store of well-formed snapshots with
/// distinct dates and zero bounding boxes reads back, from its rendered
/// bytes, exactly as it was written.
pub proof fn lemma_store_round_trip(gs: Seq<GalaxyV>)
    requires
        forall|k: int|
            0 <= k < gs.len() ==> galaxy_ok(#[trigger] gs[k]) && gs[k].maxc == zero_bounds(),
        dates_distinct(gs),
    ensures
        dec_everything(
            split_lines_spec(join_lines(galaxies_lines(gs))),
            0,
            Seq::empty(),
        ) == Some((gs, galaxies_lines(gs).len() as int)),
{
    lemma_lines_ok_galaxies(gs);
    lemma_split_join(galaxies_lines(gs));
    let lines = galaxies_lines(gs);
    assert(lines.subrange(0, lines.len() as int) =~= lines);
    assert(lines_at(lines, 0, lines));
    assert(Seq::<GalaxyV>::empty() + gs =~= gs);
    lemma_rt_everything(lines, 0, gs, Seq::empty());
}


// ------------------------------------------------------------------
// Executable decoders
// ------------------------------------------------------------------

/// Reads a signed coordinate token.
pub fn parse_i64(s: &Vec<u8>) -> (r: Result<i64, ParseError>)
    ensures
        match i64_val_of(s@) {
            Some(v) => r is Ok && r->Ok_0 == v,
            None => r is Err,
        },
{
    let mut start: usize = 0;
    let mut sign: bool = false;
    if s.len() >= 1 && (s[0] == '-' as u8 || s[0] == '+' as u8) {
        sign = s[0] == '-' as u8;
        start = 1;
    }
    let ds = slice_of(s, start, s.len());
    proof {
        if start == 1 {
            assert(ds@ =~= s@.drop_first());
        } else {
            assert(ds@ =~= s@);
        }
    }
    if ds.len() == 0 {
        return Err(ParseError::new(Section::Coordinate, slice_of(s, 0, s.len())));
    }
    let limit: u64 = if sign {
        9223372036854775808u64
    } else {
        9223372036854775807u64
    };
    let mut acc: u64 = 0;
    let mut i: usize = 0;
    while i < ds.len()
        invariant
            0 <= i <= ds@.len(),
            ds@.len() > 0,
            sign == (s@.len() >= 1 && s@[0] == '-' as u8),
            ds@ == (if s@.len() >= 1 && (s@[0] == '-' as u8 || s@[0] == '+' as u8) {
                s@.drop_first()
            } else {
                s@
            }),
            limit == if sign {
                9223372036854775808u64
            } else {
                9223372036854775807u64
            },
            all_digits(ds@.subrange(0, i as int)),
            acc == dec_val(ds@.subrange(0, i as int)),
            acc <= limit,
        decreases ds@.len() - i,
    {
        let b = ds[i];
        if b < 48 || b > 57 {
            assert(!all_digits(ds@));
            return Err(ParseError::new(Section::Coordinate, slice_of(s, 0, s.len())));
        }
        let d = (b - 48) as u64;
        if acc > (limit - d) / 10 {
            proof {
                let t = ds@.subrange(0, i + 1);
                assert(t.drop_last() =~= ds@.subrange(0, i as int));
                assert(dec_val(t) == acc * 10 + d);
                assert(dec_val(t) > limit) by (nonlinear_arith)
                    requires
                        acc > (limit - d) / 10,
                        0 <= d <= 9,
                        dec_val(t) == acc * 10 + d,
                        limit >= 1,
                ;
                if all_digits(ds@) {
                    crate::num::lemma_dec_val_prefix_le(ds@, i + 1);
                }
            }
            return Err(ParseError::new(Section::Coordinate, slice_of(s, 0, s.len())));
        }
        assert(acc * 10 + d <= limit) by (nonlinear_arith)
            requires
                acc <= (limit - d) / 10,
                0 <= d <= 9,
                limit >= 1,
        ;
        acc = acc * 10 + d;
        i = i + 1;
        proof {
            let t = ds@.subrange(0, i as int);
            assert(t.drop_last() =~= ds@.subrange(0, i - 1));
            assert(t.last() == b);
        }
    }
    proof {
        assert(ds@.subrange(0, ds@.len() as int) =~= ds@);
    }
    if sign {
        if acc == 9223372036854775808u64 {
            Ok(i64::MIN)
        } else {
            Ok(-(acc as i64))
        }
    } else {
        Ok(acc as i64)
    }
}

impl Pop {
    /// Reads one pop line of the cache format.
    pub fn read(line: &Vec<u8>) -> (r: Result<Pop, ParseError>)
        ensures
            match dec_pop(line@) {
                Some(p) => r is Ok && r->Ok_0@ == p,
                None => r is Err,
            },
    {
        let n = line.len();
        let k0 = find_byte_at(line, 9u8);
        proof {
            lemma_find_byte_bounds(line@, 9u8);
        }
        if k0 == n {
            return Err(ParseError::new(Section::Cache, slice_of(line, 0, n)));
        }
        let f0 = slice_of(line, 0, k0);
        let r1 = slice_of(line, k0 + 1, n);
        let k1 = find_byte_at(&r1, 9u8);
        proof {
            lemma_find_byte_bounds(r1@, 9u8);
        }
        if k1 == r1.len() {
            return Err(ParseError::new(Section::Cache, slice_of(line, 0, n)));
        }
        let f1 = slice_of(&r1, 0, k1);
        let r2 = slice_of(&r1, k1 + 1, r1.len());
        let k2 = find_byte_at(&r2, 9u8);
        proof {
            lemma_find_byte_bounds(r2@, 9u8);
        }
        if k2 == r2.len() {
            return Err(ParseError::new(Section::Cache, slice_of(line, 0, n)));
        }
        let f2 = slice_of(&r2, 0, k2);
        let r3 = slice_of(&r2, k2 + 1, r2.len());
        let k3 = find_byte_at(&r3, 9u8);
        proof {
            lemma_find_byte_bounds(r3@, 9u8);
        }
        if k3 == r3.len() {
            return Err(ParseError::new(Section::Cache, slice_of(line, 0, n)));
        }
        let f3 = slice_of(&r3, 0, k3);
        let r4 = slice_of(&r3, k3 + 1, r3.len());
        let k4 = find_byte_at(&r4, 9u8);
        proof {
            lemma_find_byte_bounds(r4@, 9u8);
        }
        if k4 == r4.len() {
            return Err(ParseError::new(Section::Cache, slice_of(line, 0, n)));
        }
        let f4 = slice_of(&r4, 0, k4);
        let r5 = slice_of(&r4, k4 + 1, r4.len());
        let k5 = find_byte_at(&r5, 9u8);
        proof {
            lemma_find_byte_bounds(r5@, 9u8);
        }
        let f5 = slice_of(&r5, 0, k5);
        let id = match parser(&f0) {
            Ok(v) => v,
            Err(e) => {
                return Err(e);
            },
        };
        let species = match parser(&f1) {
            Ok(v) => v,
            Err(e) => {
                return Err(e);
            },
        };
        let slave = if bytes_eq(&f5, &mk_true_w()) {
            true
        } else if bytes_eq(&f5, &mk_false_w()) {
            false
        } else {
            return Err(ParseError::new(Section::Cache, slice_of(line, 0, n)));
        };
        let ethic = Ethic::cache_ethic(&f2);
        Ok(Pop { id, species, ethic, job: f3, category: f4, slave })
    }
}

/// Reads pop lines up to their closing line.
pub fn read_pop_list(lines: &Vec<Vec<u8>>, start: usize) -> (r: Result<
    (Vec<Pop>, usize),
    ParseError,
>)
    ensures
        match dec_pop_list(lines.deep_view(), start as int, Seq::empty()) {
            Some((ps, j)) => r is Ok && r->Ok_0.0.deep_view() == ps && r->Ok_0.1 == j,
            None => r is Err,
        },
{
    let ghost lv = lines.deep_view();
    let mut acc: Vec<Pop> = Vec::new();
    let mut i: usize = start;
    let term = {
        let mut t = mk_tabs(5);
        let cb = mk_close_brace();
        append(&mut t, &cb);
        t
    };
    proof {
        assert(acc.deep_view() =~= Seq::<PopV>::empty());
    }
    loop
        invariant
            start <= i,
            i <= lv.len() || i == start,
            lv == lines.deep_view(),
            term@ == tabs(5) + lit_close_brace(),
            dec_pop_list(lv, start as int, Seq::empty()) == dec_pop_list(
                lv,
                i as int,
                acc.deep_view(),
            ),
        decreases lv.len() - i,
    {
        if i >= lines.len() {
            return Err(ParseError::new(Section::Cache, Vec::new()));
        }
        if bytes_eq(&lines[i], &term) {
            proof {
                assert(lv[i as int] == lines@[i as int]@);
            }
            return Ok((acc, i + 1));
        }
        proof {
            assert(lv[i as int] == lines@[i as int]@);
        }
        let p = match Pop::read(&lines[i]) {
            Ok(p) => p,
            Err(e) => {
                return Err(e);
            },
        };
        let ghost pre = acc.deep_view();
        acc.push(p);
        proof {
            assert(acc.deep_view() =~~= pre.push(p@));
        }
        i = i + 1;
    }
}

impl Planet {
    /// Reads one planet entry of the cache format.
    pub fn read(lines: &Vec<Vec<u8>>, start: usize) -> (r: Result<(Planet, usize), ParseError>)
        ensures
            match dec_planet(lines.deep_view(), start as int) {
                Some((p, j)) => r is Ok && r->Ok_0.0@ == p && r->Ok_0.1 == j,
                None => r is Err,
            },
    {
        let ghost lv = lines.deep_view();
        if start > lines.len() || lines.len() - start < 5 {
            return Err(ParseError::new(Section::Cache, Vec::new()));
        }
        proof {
            assert(lv[start as int] == lines@[start as int]@);
            assert(lv[start + 1] == lines@[start + 1]@);
            assert(lv[start + 2] == lines@[start + 2]@);
            assert(lv[start + 3] == lines@[start + 3]@);
        }
        let hdr = &lines[start];
        if hdr.len() < 6 {
            return Err(ParseError::new(Section::Cache, slice_of(hdr, 0, hdr.len())));
        }
        let ids = slice_of(hdr, 4, hdr.len() - 2);
        let id = match parser(&ids) {
            Ok(v) => v,
            Err(e) => {
                return Err(e);
            },
        };
        if lines[start + 1].len() < 5 || lines[start + 2].len() < 5 || lines[start + 3].len() < 5 {
            return Err(ParseError::new(Section::Cache, Vec::new()));
        }
        let name = slice_of(&lines[start + 1], 5, lines[start + 1].len());
        let typ = slice_of(&lines[start + 2], 5, lines[start + 2].len());
        let szs = slice_of(&lines[start + 3], 5, lines[start + 3].len());
        let size = match parser(&szs) {
            Ok(v) => v,
            Err(e) => {
                return Err(e);
            },
        };
        let (population, j) = match read_pop_list(lines, start + 5) {
            Ok(v) => v,
            Err(e) => {
                return Err(e);
            },
        };
        let j2 = if j < lines.len() {
            j + 1
        } else {
            j
        };
        Ok((Planet { id, name, typ, size, population }, j2))
    }
}

/// Reads planet entries up to their closing line.
pub fn read_planet_list(lines: &Vec<Vec<u8>>, start: usize) -> (r: Result<
    (Vec<Planet>, usize),
    ParseError,
>)
    ensures
        match dec_planet_list(lines.deep_view(), start as int, Seq::empty()) {
            Some((ps, j)) => r is Ok && r->Ok_0.0.deep_view() == ps && r->Ok_0.1 == j,
            None => r is Err,
        },
{
    let ghost lv = lines.deep_view();
    let mut acc: Vec<Planet> = Vec::new();
    let mut i: usize = start;
    let term = {
        let mut t = mk_tabs(3);
        let cb = mk_close_brace();
        append(&mut t, &cb);
        t
    };
    proof {
        assert(acc.deep_view() =~= Seq::<PlanetV>::empty());
    }
    loop
        invariant
            start <= i,
            lv == lines.deep_view(),
            term@ == tabs(3) + lit_close_brace(),
            dec_planet_list(lv, start as int, Seq::empty()) == dec_planet_list(
                lv,
                i as int,
                acc.deep_view(),
            ),
        decreases lv.len() + 1 - i,
    {
        if i >= lines.len() {
            return Err(ParseError::new(Section::Cache, Vec::new()));
        }
        if bytes_eq(&lines[i], &term) {
            proof {
                assert(lv[i as int] == lines@[i as int]@);
            }
            return Ok((acc, i + 1));
        }
        proof {
            assert(lv[i as int] == lines@[i as int]@);
        }
        let (p, j) = match Planet::read(lines, i) {
            Ok(v) => v,
            Err(e) => {
                return Err(e);
            },
        };
        if !(j > i && j <= lines.len()) {
            return Err(ParseError::new(Section::Cache, Vec::new()));
        }
        let ghost pre = acc.deep_view();
        acc.push(p);
        proof {
            assert(acc.deep_view() =~~= pre.push(p@));
        }
        i = j;
    }
}

impl Species {
    /// Reads one species entry of the cache format.
    pub fn read(lines: &Vec<Vec<u8>>, start: usize) -> (r: Result<(Species, usize), ParseError>)
        ensures
            match dec_species(lines.deep_view(), start as int) {
                Some((x, j)) => r is Ok && r->Ok_0.0@ == x && r->Ok_0.1 == j,
                None => r is Err,
            },
    {
        let ghost lv = lines.deep_view();
        if start > lines.len() || lines.len() - start < 6 {
            return Err(ParseError::new(Section::Cache, Vec::new()));
        }
        proof {
            assert(lv[start + 1] == lines@[start + 1]@);
            assert(lv[start + 2] == lines@[start + 2]@);
            assert(lv[start + 3] == lines@[start + 3]@);
            assert(lv[start + 4] == lines@[start + 4]@);
        }
        if lines[start + 1].len() < 3 || lines[start + 2].len() < 3 || lines[start + 3].len() < 3
            || lines[start + 4].len() < 3 {
            return Err(ParseError::new(Section::Cache, Vec::new()));
        }
        let name = slice_of(&lines[start + 1], 3, lines[start + 1].len());
        let plural = slice_of(&lines[start + 2], 3, lines[start + 2].len());
        let adjective = slice_of(&lines[start + 3], 3, lines[start + 3].len());
        let portrait = slice_of(&lines[start + 4], 3, lines[start + 4].len());
        let (traits, j) = match read_trait_list(lines, start + 6) {
            Ok(v) => v,
            Err(e) => {
                return Err(e);
            },
        };
        let j2 = if j < lines.len() {
            j + 1
        } else {
            j
        };
        Ok((Species { name, plural, adjective, portrait, traits }, j2))
    }
}

/// Reads trait lines up to their closing line.
pub fn read_trait_list(lines: &Vec<Vec<u8>>, start: usize) -> (r: Result<
    (Vec<Vec<u8>>, usize),
    ParseError,
>)
    ensures
        match dec_trait_list(lines.deep_view(), start as int, Seq::empty()) {
            Some((ts, j)) => r is Ok && r->Ok_0.0.deep_view() == ts && r->Ok_0.1 == j,
            None => r is Err,
        },
{
    let ghost lv = lines.deep_view();
    let mut acc: Vec<Vec<u8>> = Vec::new();
    let mut i: usize = start;
    let term = {
        let mut t = mk_tabs(3);
        let cb = mk_close_brace();
        append(&mut t, &cb);
        t
    };
    proof {
        assert(acc.deep_view() =~= Seq::<Seq<u8>>::empty());
    }
    loop
        invariant
            start <= i,
            lv == lines.deep_view(),
            term@ == tabs(3) + lit_close_brace(),
            dec_trait_list(lv, start as int, Seq::empty()) == dec_trait_list(
                lv,
                i as int,
                acc.deep_view(),
            ),
        decreases lv.len() - i,
    {
        if i >= lines.len() {
            return Err(ParseError::new(Section::Cache, Vec::new()));
        }
        proof {
            assert(lv[i as int] == lines@[i as int]@);
        }
        if bytes_eq(&lines[i], &term) {
            return Ok((acc, i + 1));
        }
        if lines[i].len() < 4 {
            return Err(ParseError::new(Section::Cache, Vec::new()));
        }
        let t = slice_of(&lines[i], 4, lines[i].len());
        let ghost pre = acc.deep_view();
        acc.push(t);
        proof {
            assert(acc.deep_view() =~~= pre.push(t@));
        }
        i = i + 1;
    }
}

/// Reads species entries up to their closing line.
pub fn read_species_list(lines: &Vec<Vec<u8>>, start: usize) -> (r: Result<
    (Vec<Species>, usize),
    ParseError,
>)
    ensures
        match dec_species_list(lines.deep_view(), start as int, Seq::empty()) {
            Some((ss, j)) => r is Ok && r->Ok_0.0.deep_view() == ss && r->Ok_0.1 == j,
            None => r is Err,
        },
{
    let ghost lv = lines.deep_view();
    let mut acc: Vec<Species> = Vec::new();
    let mut i: usize = start;
    let term = {
        let mut t = mk_tabs(1);
        let cb = mk_close_brace();
        append(&mut t, &cb);
        t
    };
    proof {
        assert(acc.deep_view() =~= Seq::<SpeciesV>::empty());
    }
    loop
        invariant
            start <= i,
            lv == lines.deep_view(),
            term@ == tabs(1) + lit_close_brace(),
            dec_species_list(lv, start as int, Seq::empty()) == dec_species_list(
                lv,
                i as int,
                acc.deep_view(),
            ),
        decreases lv.len() - i,
    {
        if i >= lines.len() {
            return Err(ParseError::new(Section::Cache, Vec::new()));
        }
        proof {
            assert(lv[i as int] == lines@[i as int]@);
        }
        if bytes_eq(&lines[i], &term) {
            return Ok((acc, i + 1));
        }
        let (x, j) = match Species::read(lines, i) {
            Ok(v) => v,
            Err(e) => {
                return Err(e);
            },
        };
        if !(j > i && j <= lines.len()) {
            return Err(ParseError::new(Section::Cache, Vec::new()));
        }
        let ghost pre = acc.deep_view();
        acc.push(x);
        proof {
            assert(acc.deep_view() =~~= pre.push(x@));
        }
        i = j;
    }
}


/// Reads the ethic slot block of an empire.
pub fn read_ethics(lines: &Vec<Vec<u8>>, start: usize) -> (r: Result<
    (Option<EthicTriple>, usize),
    ParseError,
>)
    ensures
        match dec_ethics(lines.deep_view(), start as int) {
            Some((e, j)) => r is Ok && r->Ok_0.0.deep_view() == e && r->Ok_0.1 == j,
            None => r is Err,
        },
{
    let ghost lv = lines.deep_view();
    if start >= lines.len() {
        return Err(ParseError::new(Section::Cache, Vec::new()));
    }
    proof {
        assert(lv[start as int] == lines@[start as int]@);
    }
    let none_l = {
        let mut t = mk_tabs(4);
        let nw = mk_none_w();
        append(&mut t, &nw);
        t
    };
    let gest_l = {
        let mut t = mk_tabs(4);
        let gw = mk_disp_gestalt();
        append(&mut t, &gw);
        t
    };
    let l = &lines[start];
    if bytes_eq(l, &none_l) {
        return Ok((None, start + 1));
    }
    if bytes_eq(l, &gest_l) {
        return Ok(
            (
                Some(EthicTriple { e0: Ethic::Gestalt, e1: Ethic::Gestalt, e2: Ethic::Gestalt }),
                start + 1,
            ),
        );
    }
    if l.len() < 4 || lines.len() - start < 3 || lines[start + 1].len() < 4 || lines[start
        + 2].len() < 4 {
        return Err(ParseError::new(Section::Cache, Vec::new()));
    }
    proof {
        assert(lv[start + 1] == lines@[start + 1]@);
        assert(lv[start + 2] == lines@[start + 2]@);
    }
    let t0 = slice_of(l, 4, l.len());
    let t1 = slice_of(&lines[start + 1], 4, lines[start + 1].len());
    let t2 = slice_of(&lines[start + 2], 4, lines[start + 2].len());
    let e0 = Ethic::cache_ethic(&t0);
    let e1 = Ethic::cache_ethic(&t1);
    let e2 = Ethic::cache_ethic(&t2);
    Ok((Some(EthicTriple { e0, e1, e2 }), start + 3))
}

/// Reads one color slot line.
pub fn read_color(line: &Vec<u8>) -> (r: Result<Option<Vec<u8>>, ParseError>)
    ensures
        match dec_color_line(line@) {
            Some(c) => r is Ok && r->Ok_0.deep_view() == c,
            None => r is Err,
        },
{
    if line.len() < 4 {
        return Err(ParseError::new(Section::Cache, slice_of(line, 0, line.len())));
    }
    let v = slice_of(line, 4, line.len());
    if bytes_eq(&v, &mk_none_w()) {
        Ok(None)
    } else {
        Ok(Some(v))
    }
}

impl Empire {
    /// Reads one empire entry of the cache format.
    pub fn read(lines: &Vec<Vec<u8>>, start: usize) -> (r: Result<(Empire, usize), ParseError>)
        ensures
            match dec_empire(lines.deep_view(), start as int) {
                Some((e, j)) => r is Ok && r->Ok_0.0@ == e && r->Ok_0.1 == j,
                None => r is Err,
            },
    {
        let ghost lv = lines.deep_view();
        if start > lines.len() || lines.len() - start < 5 {
            return Err(ParseError::new(Section::Cache, Vec::new()));
        }
        proof {
            assert(lv[start as int] == lines@[start as int]@);
            assert(lv[start + 1] == lines@[start + 1]@);
            assert(lv[start + 2] == lines@[start + 2]@);
        }
        let hdr = &lines[start];
        if hdr.len() < 4 {
            return Err(ParseError::new(Section::Cache, slice_of(hdr, 0, hdr.len())));
        }
        let ids = slice_of(hdr, 2, hdr.len() - 2);
        let id = match parser(&ids) {
            Ok(v) => v,
            Err(e) => {
                return Err(e);
            },
        };
        if lines[start + 1].len() < 3 || lines[start + 2].len() < 3 {
            return Err(ParseError::new(Section::Cache, Vec::new()));
        }
        let name = slice_of(&lines[start + 1], 3, lines[start + 1].len());
        let adjective = slice_of(&lines[start + 2], 3, lines[start + 2].len());
        let (ethics, j) = match read_ethics(lines, start + 4) {
            Ok(v) => v,
            Err(e) => {
                return Err(e);
            },
        };
        if j > lines.len() - 2 {
            proof {
                assert(j + 2 > lv.len());
                assert(dec_planet_list(lv, j + 2, Seq::empty()) is None);
            }
            return Err(ParseError::new(Section::Cache, Vec::new()));
        }
        let (planets, k) = match read_planet_list(lines, j + 2) {
            Ok(v) => v,
            Err(e) => {
                return Err(e);
            },
        };
        if k > lines.len() || lines.len() - k < 5 {
            return Err(ParseError::new(Section::Cache, Vec::new()));
        }
        proof {
            assert(lv[k + 1] == lines@[k + 1]@);
            assert(lv[k + 2] == lines@[k + 2]@);
            assert(lv[k + 3] == lines@[k + 3]@);
            assert(lv[k + 4] == lines@[k + 4]@);
        }
        let c0 = match read_color(&lines[k + 1]) {
            Ok(v) => v,
            Err(e) => {
                return Err(e);
            },
        };
        let c1 = match read_color(&lines[k + 2]) {
            Ok(v) => v,
            Err(e) => {
                return Err(e);
            },
        };
        let c2 = match read_color(&lines[k + 3]) {
            Ok(v) => v,
            Err(e) => {
                return Err(e);
            },
        };
        let c3 = match read_color(&lines[k + 4]) {
            Ok(v) => v,
            Err(e) => {
                return Err(e);
            },
        };
        let j2 = if lines.len() - k >= 7 {
            k + 7
        } else {
            lines.len()
        };
        Ok((Empire { id, name, adjective, planets, ethics, color: Colors { c0, c1, c2, c3 } }, j2))
    }
}

/// Reads empire entries up to their closing line.
pub fn read_empire_list(lines: &Vec<Vec<u8>>, start: usize) -> (r: Result<
    (Vec<Empire>, usize),
    ParseError,
>)
    ensures
        match dec_empire_list(lines.deep_view(), start as int, Seq::empty()) {
            Some((es, j)) => r is Ok && r->Ok_0.0.deep_view() == es && r->Ok_0.1 == j,
            None => r is Err,
        },
{
    let ghost lv = lines.deep_view();
    let mut acc: Vec<Empire> = Vec::new();
    let mut i: usize = start;
    let term = {
        let mut t = mk_tabs(1);
        let cb = mk_close_brace();
        append(&mut t, &cb);
        t
    };
    proof {
        assert(acc.deep_view() =~= Seq::<EmpireV>::empty());
    }
    loop
        invariant
            start <= i,
            lv == lines.deep_view(),
            term@ == tabs(1) + lit_close_brace(),
            dec_empire_list(lv, start as int, Seq::empty()) == dec_empire_list(
                lv,
                i as int,
                acc.deep_view(),
            ),
        decreases lv.len() - i,
    {
        if i >= lines.len() {
            return Err(ParseError::new(Section::Cache, Vec::new()));
        }
        proof {
            assert(lv[i as int] == lines@[i as int]@);
        }
        if bytes_eq(&lines[i], &term) {
            return Ok((acc, i + 1));
        }
        let (x, j) = match Empire::read(lines, i) {
            Ok(v) => v,
            Err(e) => {
                return Err(e);
            },
        };
        if !(j > i && j <= lines.len()) {
            return Err(ParseError::new(Section::Cache, Vec::new()));
        }
        let ghost pre = acc.deep_view();
        acc.push(x);
        proof {
            assert(acc.deep_view() =~~= pre.push(x@));
        }
        i = j;
    }
}

/// Reads the planet id lines of a galactic object up to their closing line.
pub fn read_objpid_list(lines: &Vec<Vec<u8>>, start: usize) -> (r: Result<
    (Vec<usize>, usize),
    ParseError,
>)
    ensures
        match dec_objpid_list(lines.deep_view(), start as int, Seq::empty()) {
            Some((ids, j)) => r is Ok && r->Ok_0.0@ == ids && r->Ok_0.1 == j,
            None => r is Err,
        },
{
    let ghost lv = lines.deep_view();
    let mut acc: Vec<usize> = Vec::new();
    let mut i: usize = start;
    let term = {
        let mut t = mk_tabs(3);
        let cb = mk_close_brace();
        append(&mut t, &cb);
        t
    };
    proof {
        assert(acc@ =~= Seq::<usize>::empty());
    }
    loop
        invariant
            start <= i,
            lv == lines.deep_view(),
            term@ == tabs(3) + lit_close_brace(),
            dec_objpid_list(lv, start as int, Seq::empty()) == dec_objpid_list(lv, i as int, acc@),
        decreases lv.len() - i,
    {
        if i >= lines.len() {
            return Err(ParseError::new(Section::Cache, Vec::new()));
        }
        proof {
            assert(lv[i as int] == lines@[i as int]@);
        }
        if bytes_eq(&lines[i], &term) {
            return Ok((acc, i + 1));
        }
        if lines[i].len() < 4 {
            return Err(ParseError::new(Section::Cache, Vec::new()));
        }
        let ds = slice_of(&lines[i], 4, lines[i].len());
        let pid = match parser(&ds) {
            Ok(v) => v,
            Err(e) => {
                return Err(e);
            },
        };
        acc.push(pid);
        i = i + 1;
    }
}

impl GalObject {
    /// Reads one galactic-object entry of the cache format.
    pub fn read(lines: &Vec<Vec<u8>>, start: usize) -> (r: Result<(GalObject, usize), ParseError>)
        ensures
            match dec_obj(lines.deep_view(), start as int) {
                Some((o, j)) => r is Ok && r->Ok_0.0@ == o && r->Ok_0.1 == j,
                None => r is Err,
            },
    {
        let ghost lv = lines.deep_view();
        if start > lines.len() || lines.len() - start < 5 {
            return Err(ParseError::new(Section::Cache, Vec::new()));
        }
        proof {
            assert(lv[start as int] == lines@[start as int]@);
            assert(lv[start + 1] == lines@[start + 1]@);
            assert(lv[start + 2] == lines@[start + 2]@);
            assert(lv[start + 3] == lines@[start + 3]@);
        }
        let hdr = &lines[start];
        if hdr.len() < 4 {
            return Err(ParseError::new(Section::Cache, slice_of(hdr, 0, hdr.len())));
        }
        let ids = slice_of(hdr, 2, hdr.len() - 2);
        let id = match parser(&ids) {
            Ok(v) => v,
            Err(e) => {
                return Err(e);
            },
        };
        if lines[start + 1].len() < 3 || lines[start + 2].len() < 3 || lines[start + 3].len() < 5 {
            return Err(ParseError::new(Section::Cache, Vec::new()));
        }
        let name = slice_of(&lines[start + 1], 3, lines[start + 1].len());
        let typ = slice_of(&lines[start + 2], 3, lines[start + 2].len());
        let body = slice_of(&lines[start + 3], 4, lines[start + 3].len() - 1);
        let k1 = crate::text::find_sep_at(&body);
        proof {
            crate::text::lemma_find_sep_bounds(body@);
        }
        if k1 > body.len() || body.len() - k1 < 2 {
            return Err(ParseError::new(Section::Cache, slice_of(&body, 0, body.len())));
        }
        let xs = slice_of(&body, 0, k1);
        let rest = slice_of(&body, k1 + 2, body.len());
        let k2 = crate::text::find_sep_at(&rest);
        proof {
            crate::text::lemma_find_sep_bounds(rest@);
        }
        let ys = if k2 <= rest.len() && rest.len() - k2 >= 2 {
            slice_of(&rest, 0, k2)
        } else {
            rest
        };
        proof {
            if !(crate::text::find_sep(rest@) + 2 <= rest@.len()) {
                assert(ys@ =~= rest@);
            }
        }
        let x = match parse_i64(&xs) {
            Ok(v) => v,
            Err(e) => {
                return Err(e);
            },
        };
        let y = match parse_i64(&ys) {
            Ok(v) => v,
            Err(e) => {
                return Err(e);
            },
        };
        let (planets, j) = match read_objpid_list(lines, start + 5) {
            Ok(v) => v,
            Err(e) => {
                return Err(e);
            },
        };
        let j2 = if j < lines.len() {
            j + 1
        } else {
            j
        };
        Ok((GalObject { id, x, y, typ, name, planets }, j2))
    }
}

/// Reads galactic-object entries up to their closing line.
pub fn read_obj_list(lines: &Vec<Vec<u8>>, start: usize) -> (r: Result<
    (Vec<GalObject>, usize),
    ParseError,
>)
    ensures
        match dec_obj_list(lines.deep_view(), start as int, Seq::empty()) {
            Some((os, j)) => r is Ok && r->Ok_0.0.deep_view() == os && r->Ok_0.1 == j,
            None => r is Err,
        },
{
    let ghost lv = lines.deep_view();
    let mut acc: Vec<GalObject> = Vec::new();
    let mut i: usize = start;
    let term = {
        let mut t = mk_tabs(1);
        let cb = mk_close_brace();
        append(&mut t, &cb);
        t
    };
    proof {
        assert(acc.deep_view() =~= Seq::<GalObjectV>::empty());
    }
    loop
        invariant
            start <= i,
            lv == lines.deep_view(),
            term@ == tabs(1) + lit_close_brace(),
            dec_obj_list(lv, start as int, Seq::empty()) == dec_obj_list(
                lv,
                i as int,
                acc.deep_view(),
            ),
        decreases lv.len() - i,
    {
        if i >= lines.len() {
            return Err(ParseError::new(Section::Cache, Vec::new()));
        }
        proof {
            assert(lv[i as int] == lines@[i as int]@);
        }
        if bytes_eq(&lines[i], &term) {
            return Ok((acc, i + 1));
        }
        let (x, j) = match GalObject::read(lines, i) {
            Ok(v) => v,
            Err(e) => {
                return Err(e);
            },
        };
        if !(j > i && j <= lines.len()) {
            return Err(ParseError::new(Section::Cache, Vec::new()));
        }
        let ghost pre = acc.deep_view();
        acc.push(x);
        proof {
            assert(acc.deep_view() =~~= pre.push(x@));
        }
        i = j;
    }
}

impl Galaxy {
    /// Reads one snapshot block of the cache format.
    pub fn read(lines: &Vec<Vec<u8>>, start: usize) -> (r: Result<(Galaxy, usize), ParseError>)
        ensures
            match dec_galaxy(lines.deep_view(), start as int) {
                Some((g, j)) => r is Ok && r->Ok_0.0@ == g && r->Ok_0.1 == j,
                None => r is Err,
            },
    {
        let ghost lv = lines.deep_view();
        if start > lines.len() || lines.len() - start < 2 {
            return Err(ParseError::new(Section::Cache, Vec::new()));
        }
        proof {
            assert(lv[start as int] == lines@[start as int]@);
            assert(lv[start + 1] == lines@[start + 1]@);
        }
        let date = match setdate2(&lines[start]) {
            Ok(v) => v,
            Err(e) => {
                return Err(e);
            },
        };
        let species_open = {
            let mut t = mk_tabs(1);
            let w = mk_species_w();
            append(&mut t, &w);
            t
        };
        if !bytes_eq(&lines[start + 1], &species_open) {
            return Err(ParseError::new(Section::Cache, Vec::new()));
        }
        let (species, j) = match read_species_list(lines, start + 2) {
            Ok(v) => v,
            Err(e) => {
                return Err(e);
            },
        };
        let empires_open = {
            let mut t = mk_tabs(1);
            let w = mk_empires_w();
            append(&mut t, &w);
            t
        };
        if !(j < lines.len() && bytes_eq(&lines[j], &empires_open)) {
            proof {
                if j < lv.len() {
                    assert(lv[j as int] == lines@[j as int]@);
                }
            }
            return Err(ParseError::new(Section::Cache, Vec::new()));
        }
        proof {
            assert(lv[j as int] == lines@[j as int]@);
        }
        let (empires, k) = match read_empire_list(lines, j + 1) {
            Ok(v) => v,
            Err(e) => {
                return Err(e);
            },
        };
        let objects_open = {
            let mut t = mk_tabs(1);
            let w = mk_objects_w();
            append(&mut t, &w);
            t
        };
        if !(k < lines.len() && bytes_eq(&lines[k], &objects_open)) {
            proof {
                if k < lv.len() {
                    assert(lv[k as int] == lines@[k as int]@);
                }
            }
            return Err(ParseError::new(Section::Cache, Vec::new()));
        }
        proof {
            assert(lv[k as int] == lines@[k as int]@);
        }
        let (obj, l) = match read_obj_list(lines, k + 1) {
            Ok(v) => v,
            Err(e) => {
                return Err(e);
            },
        };
        let closer = mk_close_brace();
        if !(l < lines.len() && bytes_eq(&lines[l], &closer)) {
            proof {
                if l < lv.len() {
                    assert(lv[l as int] == lines@[l as int]@);
                }
            }
            return Err(ParseError::new(Section::Cache, Vec::new()));
        }
        proof {
            assert(lv[l as int] == lines@[l as int]@);
        }
        Ok((Galaxy { maxc: Bounds::zero(), date, empires, species, obj }, l + 1))
    }
}

/// The same snapshot with the bounding box zeroed.
pub open spec fn zero_maxc(g: GalaxyV) -> GalaxyV {
    GalaxyV { maxc: zero_bounds(), ..g }
}

/// The cache rendering does not depend on the bounding box.
pub proof fn lemma_galaxy_lines_maxc(g: GalaxyV)
    ensures
        galaxy_lines(zero_maxc(g)) == galaxy_lines(g),
{
    assert(galaxy_lines(zero_maxc(g)) =~= galaxy_lines(g));
}

pub proof fn lemma_galaxies_lines_maxc(gs: Seq<GalaxyV>)
    ensures
        galaxies_lines(gs.map_values(|g: GalaxyV| zero_maxc(g))) == galaxies_lines(gs),
    decreases gs.len(),
{
    let zs = gs.map_values(|g: GalaxyV| zero_maxc(g));
    if gs.len() == 0 {
        assert(zs =~= Seq::<GalaxyV>::empty());
    } else {
        assert(zs.drop_first() =~= gs.drop_first().map_values(|g: GalaxyV| zero_maxc(g)));
        lemma_galaxies_lines_maxc(gs.drop_first());
        lemma_galaxy_lines_maxc(gs[0]);
        assert(zs[0] == zero_maxc(gs[0]));
        assert(galaxies_lines(zs) =~= galaxies_lines(gs));
    }
}

/// Rewriting the cache after loading it reproduces the same bytes: the
/// store a cache file reads to writes back byte-identically.
pub proof fn lemma_save_load_save(gs: Seq<GalaxyV>)
    requires
        forall|k: int| 0 <= k < gs.len() ==> galaxy_ok(#[trigger] gs[k]),
        dates_distinct(gs),
    ensures
        ({
            let bytes = join_lines(galaxies_lines(gs));
            let loaded = dec_everything(split_lines_spec(bytes), 0, Seq::empty());
            loaded is Some && join_lines(galaxies_lines(loaded->Some_0.0)) == bytes
        }),
{
    let zs = gs.map_values(|g: GalaxyV| zero_maxc(g));
    lemma_galaxies_lines_maxc(gs);
    assert(forall|k: int| 0 <= k < zs.len() ==> galaxy_ok(#[trigger] zs[k]) && zs[k].maxc
        == zero_bounds()) by {
        assert(forall|k: int| 0 <= k < zs.len() ==> zs[k] == zero_maxc(gs[k]));
    }
    assert(dates_distinct(zs)) by {
        assert(forall|k: int| 0 <= k < zs.len() ==> (#[trigger] zs[k]).date == gs[k].date);
    }
    lemma_store_round_trip(zs);
}

} // verus!

//! The gamestate parser: a line-oriented, context-sensitive scanner over the
//! decompressed text of one save archive. Each section's grammar is mirrored
//! by a spec function that the executable parser is proved to implement.
use crate::errors::{ParseError, Section};
use crate::model::{Colors, ColorsV, Empire, EmpireV, Ethic, EthicTriple, EthicTripleV, EthicV,
    GalObject, GalObjectV, Galaxy, GalaxyV, Planet, PlanetV, Pop, PopV, Species, SpeciesV};
use crate::num::{all_digits, dec_val, parser};
use crate::text::{bytes_eq, find_byte, lemma_find_byte_bounds, find_byte_at, match_at, mk_no_w,
    mk_null_w, mk_yes_w, slice_of};
use vstd::prelude::*;

verus! {

// ------------------------------------------------------------------
// Value tokens
// ------------------------------------------------------------------

/// The boolean a `yes`/`no` token holds.
pub open spec fn bool_of(s: Seq<u8>) -> Option<bool> {
    if s == crate::text::lit_yes_w() {
        Some(true)
    } else if s == crate::text::lit_no_w() {
        Some(false)
    } else {
        None
    }
}

/// Reads a `yes`/`no` token; any other token is rejected.
pub fn str_to_bool(inp: &Vec<u8>) -> (r: Result<bool, ParseError>)
    ensures
        match bool_of(inp@) {
            Some(b) => r is Ok && r->Ok_0 == b,
            None => r is Err,
        },
{
    if bytes_eq(inp, &mk_yes_w()) {
        Ok(true)
    } else if bytes_eq(inp, &mk_no_w()) {
        Ok(false)
    } else {
        Err(ParseError::new(Section::Flag, slice_of(inp, 0, inp.len())))
    }
}

/// The color a token holds: `null` is absence, anything else is kept
/// verbatim.
pub open spec fn color_of(s: Seq<u8>) -> Option<Seq<u8>> {
    if s == crate::text::lit_null_w() {
        None
    } else {
        Some(s)
    }
}

/// Reads a color token.
pub fn str_to_color(inp: &Vec<u8>) -> (r: Option<Vec<u8>>)
    ensures
        r.deep_view() == color_of(inp@),
{
    if bytes_eq(inp, &mk_null_w()) {
        None
    } else {
        Some(slice_of(inp, 0, inp.len()))
    }
}

/// The value of a fraction part, truncated to three digits and scaled to
/// thousandths.
pub open spec fn frac3_of(fp: Seq<u8>) -> int {
    if fp.len() == 0 {
        0
    } else if fp.len() == 1 {
        dec_val(fp) * 100
    } else if fp.len() == 2 {
        dec_val(fp) * 10
    } else {
        dec_val(fp.subrange(0, 3))
    }
}

/// The micro-coordinate a decimal token holds: an optional sign, an integer
/// part and an optional dotted fraction, scaled by one thousand with the
/// fraction truncated to three digits; rejected when empty, non-numeric, or
/// out of the i64 range.
pub open spec fn coord_val(s: Seq<u8>) -> Option<int> {
    let sign = s.len() >= 1 && s[0] == '-' as u8;
    let ds = if s.len() >= 1 && (s[0] == '-' as u8 || s[0] == '+' as u8) {
        s.drop_first()
    } else {
        s
    };
    let k = find_byte(ds, '.' as u8);
    if !(0 <= k <= ds.len()) {
        None
    } else {
        let ip = ds.subrange(0, k);
        let fp = if k < ds.len() {
            ds.subrange(k + 1, ds.len() as int)
        } else {
            Seq::empty()
        };
        if (ip.len() > 0 || fp.len() > 0) && all_digits(ip) && all_digits(fp) {
            let mag = dec_val(ip) * 1000 + frac3_of(fp);
            if sign {
                if -mag >= i64::MIN {
                    Some(-mag)
                } else {
                    None
                }
            } else {
                if mag <= i64::MAX {
                    Some(mag)
                } else {
                    None
                }
            }
        } else {
            None
        }
    }
}

/// Reads a decimal coordinate token as a micro-coordinate.
#[verifier::rlimit(100)]
#[verifier::spinoff_prover]
pub fn str_to_coord(inp: &Vec<u8>) -> (r: Result<i64, ParseError>)
    ensures
        match coord_val(inp@) {
            Some(v) => r is Ok && r->Ok_0 == v,
            None => r is Err,
        },
{
    let mut start: usize = 0;
    let mut sign: bool = false;
    if inp.len() >= 1 && (inp[0] == '-' as u8 || inp[0] == '+' as u8) {
        sign = inp[0] == '-' as u8;
        start = 1;
    }
    let ds = slice_of(inp, start, inp.len());
    proof {
        if start == 1 {
            assert(ds@ =~= inp@.drop_first());
        } else {
            assert(ds@ =~= inp@);
        }
        lemma_find_byte_bounds(ds@, '.' as u8);
    }
    let k = find_byte_at(&ds, '.' as u8);
    let ip = slice_of(&ds, 0, k);
    let fp = if k < ds.len() {
        slice_of(&ds, k + 1, ds.len())
    } else {
        Vec::new()
    };
    proof {
        if k == ds@.len() {
            assert(fp@ =~= Seq::<u8>::empty());
        }
    }
    if ip.len() == 0 && fp.len() == 0 {
        return Err(ParseError::new(Section::Coordinate, slice_of(inp, 0, inp.len())));
    }
    if !crate::num::all_digits_check(&fp) {
        return Err(ParseError::new(Section::Coordinate, slice_of(inp, 0, inp.len())));
    }
    let f = if fp.len() >= 3 {
        slice_of(&fp, 0, 3)
    } else {
        slice_of(&fp, 0, fp.len())
    };
    proof {
        if fp@.len() < 3 {
            assert(f@ =~= fp@);
        }
        assert(all_digits(f@)) by {
            assert(forall|t: int| 0 <= t < f@.len() ==> f@[t] == fp@[t]);
        }
        crate::dates::lemma_dec_val_small(f@);
        assert(crate::dates::pow10(0) == 1) by {
            reveal_with_fuel(crate::dates::pow10, 1);
        }
        assert(crate::dates::pow10(1) == 10) by {
            reveal_with_fuel(crate::dates::pow10, 2);
        }
        assert(crate::dates::pow10(2) == 100) by {
            reveal_with_fuel(crate::dates::pow10, 3);
        }
        assert(crate::dates::pow10(3) == 1000) by {
            reveal_with_fuel(crate::dates::pow10, 4);
        }
    }
    let frac_base: usize = if f.len() == 0 {
        proof {
            assert(dec_val(f@) == 0);
        }
        0
    } else {
        match parser(&f) {
            Ok(v) => v,
            Err(e) => {
                return Err(e);
            },
        }
    };
    proof {
        if f@.len() == 1 {
            assert(frac_base <= 9);
        } else if f@.len() == 2 {
            assert(frac_base <= 99);
        } else if f@.len() >= 3 {
            assert(frac_base <= 999);
        }
    }
    let frac: usize = if f.len() == 0 {
        0
    } else if f.len() == 1 {
        frac_base * 100
    } else if f.len() == 2 {
        frac_base * 10
    } else {
        frac_base
    };
    proof {
        assert(frac == frac3_of(fp@));
        assert(0 <= frac <= 999);
    }
    let limit: u64 = if sign {
        9223372036854775808u64
    } else {
        9223372036854775807u64
    };
    let mut acc: u64 = 0;
    let mut i: usize = 0;
    while i < ip.len()
        invariant
            0 <= i <= ip@.len(),
            sign == (inp@.len() >= 1 && inp@[0] == '-' as u8),
            ds@ == (if inp@.len() >= 1 && (inp@[0] == '-' as u8 || inp@[0] == '+' as u8) {
                inp@.drop_first()
            } else {
                inp@
            }),
            k == find_byte(ds@, '.' as u8),
            0 <= k <= ds@.len(),
            ip@ == ds@.subrange(0, k as int),
            fp@ == (if (k as int) < ds@.len() {
                ds@.subrange(k + 1, ds@.len() as int)
            } else {
                Seq::<u8>::empty()
            }),
            ip@.len() > 0 || fp@.len() > 0,
            all_digits(fp@),
            frac == frac3_of(fp@),
            0 <= frac <= 999,
            limit == if sign {
                9223372036854775808u64
            } else {
                9223372036854775807u64
            },
            all_digits(ip@.subrange(0, i as int)),
            acc == dec_val(ip@.subrange(0, i as int)),
            acc * 1000 + frac <= limit,
        decreases ip@.len() - i,
    {
        let b = ip[i];
        if b < 48 || b > 57 {
            assert(!all_digits(ip@));
            return Err(ParseError::new(Section::Coordinate, slice_of(inp, 0, inp.len())));
        }
        let d = (b - 48) as u64;
        let next_ok = acc <= (limit - frac as u64 - d * 1000) / 10000;
        proof {
            let t = ip@.subrange(0, i + 1);
            assert(t.drop_last() =~= ip@.subrange(0, i as int));
            assert(t.last() == b);
            assert(dec_val(t) == acc * 10 + d);
        }
        if !next_ok {
            proof {
                let t = ip@.subrange(0, i + 1);
                assert((acc * 10 + d) * 1000 + frac > limit) by (nonlinear_arith)
                    requires
                        acc > (limit - frac - d * 1000) / 10000,
                        0 <= d <= 9,
                        0 <= frac <= 999,
                        limit >= 1000,
                        acc >= 0,
                ;
                if all_digits(ip@) {
                    crate::num::lemma_dec_val_prefix_le(ip@, i + 1);
                    crate::num::lemma_dec_val_nonneg(t);
                    assert(dec_val(ip@) * 1000 + frac > limit) by (nonlinear_arith)
                        requires
                            dec_val(ip@) >= dec_val(t),
                            dec_val(t) * 1000 + frac > limit,
                            dec_val(t) >= 0,
                            frac >= 0,
                    ;
                }
            }
            return Err(ParseError::new(Section::Coordinate, slice_of(inp, 0, inp.len())));
        }
        proof {
            assert((acc * 10 + d) * 1000 + frac <= limit) by (nonlinear_arith)
                requires
                    acc <= (limit - frac - d * 1000) / 10000,
                    0 <= d <= 9,
                    0 <= frac <= 999,
                    limit >= 1000,
                    acc >= 0,
            ;
            assert(acc * 10 + d <= limit) by (nonlinear_arith)
                requires
                    (acc * 10 + d) * 1000 + frac <= limit,
                    acc >= 0,
                    d >= 0,
                    frac >= 0,
            ;
        }
        acc = acc * 10 + d;
        i = i + 1;
        proof {
            let t = ip@.subrange(0, i as int);
            assert(t.drop_last() =~= ip@.subrange(0, i - 1));
            assert(t.last() == b);
        }
    }
    proof {
        assert(ip@.subrange(0, ip@.len() as int) =~= ip@);
    }
    let mag: u64 = acc * 1000 + frac as u64;
    if sign {
        if mag == 9223372036854775808u64 {
            Ok(i64::MIN)
        } else {
            Ok(-(mag as i64))
        }
    } else {
        Ok(mag as i64)
    }
}


// ------------------------------------------------------------------
// Transient ownership pools
// ------------------------------------------------------------------

/// Pops grouped under the id of the planet that will own them.
pub struct PoolEntry {
    pub key: usize,
    pub pops: Vec<Pop>,
}

/// View of `PoolEntry`.
#[verifier::ext_equal]
pub struct PoolEntryV {
    pub key: usize,
    pub pops: Seq<PopV>,
}

impl View for PoolEntry {
    type V = PoolEntryV;

    open spec fn view(&self) -> PoolEntryV {
        PoolEntryV { key: self.key, pops: self.pops.deep_view() }
    }
}

impl DeepView for PoolEntry {
    type V = PoolEntryV;

    open spec fn deep_view(&self) -> PoolEntryV {
        self.view()
    }
}

/// Appends a pop under its owning-planet key, keeping entry order.
pub open spec fn pool_push(pool: Seq<PoolEntryV>, key: usize, p: PopV) -> Seq<PoolEntryV>
    decreases pool.len(),
{
    if pool.len() == 0 {
        seq![PoolEntryV { key, pops: seq![p] }]
    } else if pool[0].key == key {
        seq![PoolEntryV { key, pops: pool[0].pops.push(p) }] + pool.drop_first()
    } else {
        seq![pool[0]] + pool_push(pool.drop_first(), key, p)
    }
}

/// Removes the entry under `key`, handing its pops out.
pub open spec fn pool_remove(pool: Seq<PoolEntryV>, key: usize) -> (Option<Seq<PopV>>, Seq<
    PoolEntryV,
>)
    decreases pool.len(),
{
    if pool.len() == 0 {
        (None, pool)
    } else if pool[0].key == key {
        (Some(pool[0].pops), pool.drop_first())
    } else {
        let r = pool_remove(pool.drop_first(), key);
        (r.0, seq![pool[0]] + r.1)
    }
}

proof fn lemma_pool_push_update(pool: Seq<PoolEntryV>, key: usize, p: PopV, idx: int)
    requires
        0 <= idx < pool.len(),
        pool[idx].key == key,
        forall|k: int| 0 <= k < idx ==> (#[trigger] pool[k]).key != key,
    ensures
        pool_push(pool, key, p) == pool.update(
            idx,
            PoolEntryV { key, pops: pool[idx].pops.push(p) },
        ),
    decreases idx,
{
    if idx == 0 {
        assert(pool_push(pool, key, p) =~= pool.update(
            0,
            PoolEntryV { key, pops: pool[0].pops.push(p) },
        ));
    } else {
        assert(forall|k: int|
            0 <= k < idx - 1 ==> (#[trigger] pool.drop_first()[k]).key != key) by {
            assert(forall|k: int| 0 <= k < idx - 1 ==> pool.drop_first()[k] == pool[k + 1]);
        }
        lemma_pool_push_update(pool.drop_first(), key, p, idx - 1);
        assert(pool_push(pool, key, p) =~= pool.update(
            idx,
            PoolEntryV { key, pops: pool[idx].pops.push(p) },
        )) by {
            assert(pool.drop_first()[idx - 1] == pool[idx]);
            assert(pool.drop_first().update(
                idx - 1,
                PoolEntryV { key, pops: pool[idx].pops.push(p) },
            ) =~= pool.update(idx, PoolEntryV { key, pops: pool[idx].pops.push(p) }).drop_first());
        }
    }
}

proof fn lemma_pool_push_append(pool: Seq<PoolEntryV>, key: usize, p: PopV)
    requires
        forall|k: int| 0 <= k < pool.len() ==> (#[trigger] pool[k]).key != key,
    ensures
        pool_push(pool, key, p) == pool.push(PoolEntryV { key, pops: seq![p] }),
    decreases pool.len(),
{
    if pool.len() == 0 {
        assert(pool_push(pool, key, p) =~= pool.push(PoolEntryV { key, pops: seq![p] }));
    } else {
        assert(forall|k: int|
            0 <= k < pool.drop_first().len() ==> (#[trigger] pool.drop_first()[k]).key != key) by {
            assert(forall|k: int|
                0 <= k < pool.drop_first().len() ==> pool.drop_first()[k] == pool[k + 1]);
        }
        lemma_pool_push_append(pool.drop_first(), key, p);
        assert(pool_push(pool, key, p) =~= pool.push(PoolEntryV { key, pops: seq![p] }));
    }
}

proof fn lemma_pool_remove_at(pool: Seq<PoolEntryV>, key: usize, idx: int)
    requires
        0 <= idx < pool.len(),
        pool[idx].key == key,
        forall|k: int| 0 <= k < idx ==> (#[trigger] pool[k]).key != key,
    ensures
        pool_remove(pool, key) == (Some(pool[idx].pops), pool.remove(idx)),
    decreases idx,
{
    if idx == 0 {
        assert(pool.drop_first() =~= pool.remove(0));
    } else {
        assert(forall|k: int|
            0 <= k < idx - 1 ==> (#[trigger] pool.drop_first()[k]).key != key) by {
            assert(forall|k: int| 0 <= k < idx - 1 ==> pool.drop_first()[k] == pool[k + 1]);
        }
        lemma_pool_remove_at(pool.drop_first(), key, idx - 1);
        assert(pool.drop_first()[idx - 1] == pool[idx]);
        assert(seq![pool[0]] + pool.drop_first().remove(idx - 1) =~= pool.remove(idx));
    }
}

proof fn lemma_pool_remove_none(pool: Seq<PoolEntryV>, key: usize)
    requires
        forall|k: int| 0 <= k < pool.len() ==> (#[trigger] pool[k]).key != key,
    ensures
        pool_remove(pool, key) == (None::<Seq<PopV>>, pool),
    decreases pool.len(),
{
    if pool.len() > 0 {
        assert(forall|k: int|
            0 <= k < pool.drop_first().len() ==> (#[trigger] pool.drop_first()[k]).key != key) by {
            assert(forall|k: int|
                0 <= k < pool.drop_first().len() ==> pool.drop_first()[k] == pool[k + 1]);
        }
        lemma_pool_remove_none(pool.drop_first(), key);
        assert(seq![pool[0]] + pool.drop_first() =~= pool);
    }
}

/// Files a pop in the pool under its owning-planet id.
pub fn pop_pool_push(pool: &mut Vec<PoolEntry>, key: usize, p: Pop)
    ensures
        final(pool).deep_view() == pool_push(old(pool).deep_view(), key, p@),
{
    let ghost pv = pool.deep_view();
    let mut idx: usize = 0;
    while idx < pool.len()
        invariant
            0 <= idx <= pool@.len(),
            pv == pool.deep_view(),
            pv == old(pool).deep_view(),
            pv.len() == pool@.len(),
            forall|k: int| 0 <= k < idx ==> (#[trigger] pv[k]).key != key,
        decreases pool@.len() - idx,
    {
        proof {
            assert(pv[idx as int] == pool@[idx as int]@);
        }
        if pool[idx].key == key {
            let mut e = pool.remove(idx);
            let ghost oldpops = e.pops.deep_view();
            e.pops.push(p);
            proof {
                assert(e.pops.deep_view() =~~= oldpops.push(p@));
            }
            pool.insert(idx, e);
            proof {
                lemma_pool_push_update(pv, key, p@, idx as int);
                assert(pool.deep_view() =~~= pv.update(
                    idx as int,
                    PoolEntryV { key, pops: pv[idx as int].pops.push(p@) },
                ));
            }
            return ;
        }
        idx = idx + 1;
    }
    let mut pops: Vec<Pop> = Vec::new();
    pops.push(p);
    let ghost pnew = p@;
    pool.push(PoolEntry { key, pops });
    proof {
        lemma_pool_push_append(pv, key, pnew);
        assert(pool.deep_view() =~~= pv.push(PoolEntryV { key, pops: seq![pnew] }));
    }
}

/// Takes the pops filed under a planet id out of the pool, if any.
pub fn pop_pool_remove(pool: &mut Vec<PoolEntry>, key: usize) -> (r: Option<Vec<Pop>>)
    ensures
        r.deep_view() == pool_remove(old(pool).deep_view(), key).0,
        final(pool).deep_view() == pool_remove(old(pool).deep_view(), key).1,
{
    let ghost pv = pool.deep_view();
    let mut idx: usize = 0;
    while idx < pool.len()
        invariant
            0 <= idx <= pool@.len(),
            pv == pool.deep_view(),
            pv == old(pool).deep_view(),
            pv.len() == pool@.len(),
            forall|k: int| 0 <= k < idx ==> (#[trigger] pv[k]).key != key,
        decreases pool@.len() - idx,
    {
        proof {
            assert(pv[idx as int] == pool@[idx as int]@);
        }
        if pool[idx].key == key {
            let e = pool.remove(idx);
            proof {
                lemma_pool_remove_at(pv, key, idx as int);
                assert(pool.deep_view() =~~= pv.remove(idx as int));
                assert(e@ == pv[idx as int]);
                assert(e.pops.deep_view() == pv[idx as int].pops);
            }
            return Some(e.pops);
        }
        idx = idx + 1;
    }
    proof {
        lemma_pool_remove_none(pv, key);
    }
    None
}

/// Inserts a planet into the pool by id: replaces a same-id entry, else
/// appends.
pub open spec fn ppool_put(pool: Seq<PlanetV>, p: PlanetV) -> Seq<PlanetV>
    decreases pool.len(),
{
    if pool.len() == 0 {
        seq![p]
    } else if pool[0].id == p.id {
        seq![p] + pool.drop_first()
    } else {
        seq![pool[0]] + ppool_put(pool.drop_first(), p)
    }
}

/// Removes the planet with the given id from the pool, if present.
pub open spec fn ppool_remove(pool: Seq<PlanetV>, id: usize) -> (Option<PlanetV>, Seq<PlanetV>)
    decreases pool.len(),
{
    if pool.len() == 0 {
        (None, pool)
    } else if pool[0].id == id {
        (Some(pool[0]), pool.drop_first())
    } else {
        let r = ppool_remove(pool.drop_first(), id);
        (r.0, seq![pool[0]] + r.1)
    }
}

proof fn lemma_ppool_put_update(pool: Seq<PlanetV>, p: PlanetV, idx: int)
    requires
        0 <= idx < pool.len(),
        pool[idx].id == p.id,
        forall|k: int| 0 <= k < idx ==> (#[trigger] pool[k]).id != p.id,
    ensures
        ppool_put(pool, p) == pool.update(idx, p),
    decreases idx,
{
    if idx == 0 {
        assert(ppool_put(pool, p) =~= pool.update(0, p));
    } else {
        assert(forall|k: int|
            0 <= k < idx - 1 ==> (#[trigger] pool.drop_first()[k]).id != p.id) by {
            assert(forall|k: int| 0 <= k < idx - 1 ==> pool.drop_first()[k] == pool[k + 1]);
        }
        lemma_ppool_put_update(pool.drop_first(), p, idx - 1);
        assert(pool.drop_first()[idx - 1] == pool[idx]);
        assert(ppool_put(pool, p) =~= pool.update(idx, p)) by {
            assert(pool.drop_first().update(idx - 1, p) =~= pool.update(idx, p).drop_first());
        }
    }
}

proof fn lemma_ppool_put_append(pool: Seq<PlanetV>, p: PlanetV)
    requires
        forall|k: int| 0 <= k < pool.len() ==> (#[trigger] pool[k]).id != p.id,
    ensures
        ppool_put(pool, p) == pool.push(p),
    decreases pool.len(),
{
    if pool.len() == 0 {
        assert(ppool_put(pool, p) =~= pool.push(p));
    } else {
        assert(forall|k: int|
            0 <= k < pool.drop_first().len() ==> (#[trigger] pool.drop_first()[k]).id != p.id) by {
            assert(forall|k: int|
                0 <= k < pool.drop_first().len() ==> pool.drop_first()[k] == pool[k + 1]);
        }
        lemma_ppool_put_append(pool.drop_first(), p);
        assert(ppool_put(pool, p) =~= pool.push(p));
    }
}

proof fn lemma_ppool_remove_at(pool: Seq<PlanetV>, id: usize, idx: int)
    requires
        0 <= idx < pool.len(),
        pool[idx].id == id,
        forall|k: int| 0 <= k < idx ==> (#[trigger] pool[k]).id != id,
    ensures
        ppool_remove(pool, id) == (Some(pool[idx]), pool.remove(idx)),
    decreases idx,
{
    if idx == 0 {
        assert(pool.drop_first() =~= pool.remove(0));
    } else {
        assert(forall|k: int|
            0 <= k < idx - 1 ==> (#[trigger] pool.drop_first()[k]).id != id) by {
            assert(forall|k: int| 0 <= k < idx - 1 ==> pool.drop_first()[k] == pool[k + 1]);
        }
        lemma_ppool_remove_at(pool.drop_first(), id, idx - 1);
        assert(pool.drop_first()[idx - 1] == pool[idx]);
        assert(seq![pool[0]] + pool.drop_first().remove(idx - 1) =~= pool.remove(idx));
    }
}

proof fn lemma_ppool_remove_none(pool: Seq<PlanetV>, id: usize)
    requires
        forall|k: int| 0 <= k < pool.len() ==> (#[trigger] pool[k]).id != id,
    ensures
        ppool_remove(pool, id) == (None::<PlanetV>, pool),
    decreases pool.len(),
{
    if pool.len() > 0 {
        assert(forall|k: int|
            0 <= k < pool.drop_first().len() ==> (#[trigger] pool.drop_first()[k]).id != id) by {
            assert(forall|k: int|
                0 <= k < pool.drop_first().len() ==> pool.drop_first()[k] == pool[k + 1]);
        }
        lemma_ppool_remove_none(pool.drop_first(), id);
        assert(seq![pool[0]] + pool.drop_first() =~= pool);
    }
}

/// Inserts a planet into the pool by id.
pub fn planet_pool_put(pool: &mut Vec<Planet>, p: Planet)
    ensures
        final(pool).deep_view() == ppool_put(old(pool).deep_view(), p@),
{
    let ghost pv = pool.deep_view();
    let ghost pp = p@;
    let mut idx: usize = 0;
    while idx < pool.len()
        invariant
            0 <= idx <= pool@.len(),
            pv == pool.deep_view(),
            pv == old(pool).deep_view(),
            pv.len() == pool@.len(),
            pp == p@,
            forall|k: int| 0 <= k < idx ==> (#[trigger] pv[k]).id != pp.id,
        decreases pool@.len() - idx,
    {
        proof {
            assert(pv[idx as int] == pool@[idx as int]@);
        }
        if pool[idx].id == p.id {
            pool.set(idx, p);
            proof {
                lemma_ppool_put_update(pv, pp, idx as int);
                assert(pool.deep_view() =~~= pv.update(idx as int, pp));
            }
            return ;
        }
        idx = idx + 1;
    }
    pool.push(p);
    proof {
        lemma_ppool_put_append(pv, pp);
        assert(pool.deep_view() =~~= pv.push(pp));
    }
}

/// Takes the planet with the given id out of the pool, if present.
pub fn planet_pool_remove(pool: &mut Vec<Planet>, id: usize) -> (r: Option<Planet>)
    ensures
        r.deep_view() == ppool_remove(old(pool).deep_view(), id).0,
        final(pool).deep_view() == ppool_remove(old(pool).deep_view(), id).1,
{
    let ghost pv = pool.deep_view();
    let mut idx: usize = 0;
    while idx < pool.len()
        invariant
            0 <= idx <= pool@.len(),
            pv == pool.deep_view(),
            pv == old(pool).deep_view(),
            pv.len() == pool@.len(),
            forall|k: int| 0 <= k < idx ==> (#[trigger] pv[k]).id != id,
        decreases pool@.len() - idx,
    {
        proof {
            assert(pv[idx as int] == pool@[idx as int]@);
        }
        if pool[idx].id == id {
            let e = pool.remove(idx);
            proof {
                lemma_ppool_remove_at(pv, id, idx as int);
                assert(pool.deep_view() =~~= pv.remove(idx as int));
                assert(e@ == pv[idx as int]);
            }
            return Some(e);
        }
        idx = idx + 1;
    }
    proof {
        lemma_ppool_remove_none(pv, id);
    }
    None
}


// ------------------------------------------------------------------
// Species section
// ------------------------------------------------------------------

/// A species with no fields set yet.
pub open spec fn empty_species() -> SpeciesV {
    SpeciesV {
        name: Seq::empty(),
        plural: Seq::empty(),
        adjective: Seq::empty(),
        portrait: Seq::empty(),
        traits: Seq::empty(),
    }
}

/// Trait lines of a species entry, up to the sub-block's closing line.
pub open spec fn gs_trait_lines(lines: Seq<Seq<u8>>, i: int, acc: Seq<Seq<u8>>) -> Option<
    (Seq<Seq<u8>>, int),
>
    decreases lines.len() - i,
{
    if i < 0 || i >= lines.len() {
        Some((acc, i))
    } else if lines[i] == crate::text::lit_close2() {
        Some((acc, i + 1))
    } else if lines[i].len() >= 11 {
        gs_trait_lines(lines, i + 1, acc.push(lines[i].subrange(10, lines[i].len() - 1)))
    } else {
        None
    }
}

/// The field lines of one species entry, by structural prefix, up to the
/// entry's closing line; unrecognized lines are skipped.
pub open spec fn gs_species_fields(lines: Seq<Seq<u8>>, i: int, cur: SpeciesV) -> Option<
    (SpeciesV, int),
>
    decreases lines.len() - i,
{
    if i < 0 || i >= lines.len() {
        Some((cur, i))
    } else {
        let l = lines[i];
        if l.len() >= 7 {
            let p = l.subrange(2, 7);
            if p == crate::text::lit_p_name5() {
                if l.len() >= 9 {
                    gs_species_fields(
                        lines,
                        i + 1,
                        SpeciesV { name: l.subrange(8, l.len() - 1), ..cur },
                    )
                } else {
                    None
                }
            } else if p == crate::text::lit_p_plura() {
                if l.len() >= 11 {
                    gs_species_fields(
                        lines,
                        i + 1,
                        SpeciesV { plural: l.subrange(10, l.len() - 1), ..cur },
                    )
                } else {
                    None
                }
            } else if p == crate::text::lit_p_adjec() {
                if l.len() >= 14 {
                    gs_species_fields(
                        lines,
                        i + 1,
                        SpeciesV { adjective: l.subrange(13, l.len() - 1), ..cur },
                    )
                } else {
                    None
                }
            } else if p == crate::text::lit_p_portr() {
                if l.len() >= 13 {
                    gs_species_fields(
                        lines,
                        i + 1,
                        SpeciesV { portrait: l.subrange(12, l.len() - 1), ..cur },
                    )
                } else {
                    None
                }
            } else if p == crate::text::lit_p_trait() {
                match gs_trait_lines(lines, i + 1, cur.traits) {
                    None => None,
                    Some((ts, j)) => {
                        if i < j <= lines.len() {
                            gs_species_fields(lines, j, SpeciesV { traits: ts, ..cur })
                        } else {
                            None
                        }
                    },
                }
            } else {
                gs_species_fields(lines, i + 1, cur)
            }
        } else if l == crate::text::lit_close1() {
            Some((cur, i + 1))
        } else {
            gs_species_fields(lines, i + 1, cur)
        }
    }
}

/// The species section: entries opened by `\t{` until the section's
/// closing brace; any other opener is malformed.
pub open spec fn gs_species_list(lines: Seq<Seq<u8>>, i: int, acc: Seq<SpeciesV>) -> Option<
    (Seq<SpeciesV>, int),
>
    decreases lines.len() - i,
{
    if i < 0 || i >= lines.len() {
        Some((acc, i))
    } else if lines[i] == crate::text::lit_close_brace() {
        Some((acc, i + 1))
    } else if lines[i] == crate::text::lit_open_entry() {
        match gs_species_fields(lines, i + 1, empty_species()) {
            None => None,
            Some((sp, j)) => {
                if i < j <= lines.len() {
                    gs_species_list(lines, j, acc.push(sp))
                } else {
                    None
                }
            },
        }
    } else {
        None
    }
}

impl Species {
    /// A species with no fields set yet.
    pub fn new() -> (s: Species)
        ensures
            s@ == empty_species(),
    {
        let s = Species {
            name: Vec::new(),
            plural: Vec::new(),
            adjective: Vec::new(),
            portrait: Vec::new(),
            traits: Vec::new(),
        };
        proof {
            assert(s@ =~~= empty_species());
        }
        s
    }

    /// Takes the species name out of its field line.
    pub fn set_name(&mut self, inp: &Vec<u8>)
        requires
            inp@.len() >= 9,
        ensures
            final(self)@ == (SpeciesV { name: inp@.subrange(8, inp@.len() - 1), ..old(self)@ }),
    {
        self.name = slice_of(inp, 8, inp.len() - 1);
        proof {
            assert(final(self)@ =~~= (SpeciesV {
                name: inp@.subrange(8, inp@.len() - 1),
                ..old(self)@
            }));
        }
    }

    /// Takes the species plural out of its field line.
    pub fn set_plural(&mut self, inp: &Vec<u8>)
        requires
            inp@.len() >= 11,
        ensures
            final(self)@ == (SpeciesV { plural: inp@.subrange(10, inp@.len() - 1), ..old(self)@ }),
    {
        self.plural = slice_of(inp, 10, inp.len() - 1);
        proof {
            assert(final(self)@ =~~= (SpeciesV {
                plural: inp@.subrange(10, inp@.len() - 1),
                ..old(self)@
            }));
        }
    }

    /// Takes the species adjective out of its field line.
    pub fn set_adjective(&mut self, inp: &Vec<u8>)
        requires
            inp@.len() >= 14,
        ensures
            final(self)@ == (SpeciesV {
                adjective: inp@.subrange(13, inp@.len() - 1),
                ..old(self)@
            }),
    {
        self.adjective = slice_of(inp, 13, inp.len() - 1);
        proof {
            assert(final(self)@ =~~= (SpeciesV {
                adjective: inp@.subrange(13, inp@.len() - 1),
                ..old(self)@
            }));
        }
    }

    /// Takes the species portrait out of its field line.
    pub fn set_portrait(&mut self, inp: &Vec<u8>)
        requires
            inp@.len() >= 13,
        ensures
            final(self)@ == (SpeciesV {
                portrait: inp@.subrange(12, inp@.len() - 1),
                ..old(self)@
            }),
    {
        self.portrait = slice_of(inp, 12, inp.len() - 1);
        proof {
            assert(final(self)@ =~~= (SpeciesV {
                portrait: inp@.subrange(12, inp@.len() - 1),
                ..old(self)@
            }));
        }
    }

    /// Appends the traits of a trait sub-block starting at line `start`,
    /// returning the cursor after the block.
    pub fn set_traits(&mut self, lines: &Vec<Vec<u8>>, start: usize) -> (r: Result<
        usize,
        ParseError,
    >)
        ensures
            match gs_trait_lines(lines.deep_view(), start as int, old(self)@.traits) {
                Some((ts, j)) => r is Ok && r->Ok_0 == j && final(self)@ == (SpeciesV {
                    traits: ts,
                    ..old(self)@
                }),
                None => r is Err,
            },
    {
        let ghost lv = lines.deep_view();
        let mut i: usize = start;
        loop
            invariant
                start <= i,
                lv == lines.deep_view(),
                self.name == old(self).name,
                self.plural == old(self).plural,
                self.adjective == old(self).adjective,
                self.portrait == old(self).portrait,
                gs_trait_lines(lv, start as int, old(self)@.traits) == gs_trait_lines(
                    lv,
                    i as int,
                    self@.traits,
                ),
            decreases lv.len() - i,
        {
            if i >= lines.len() {
                proof {
                    assert(final(self)@ =~~= (SpeciesV { traits: self@.traits, ..old(self)@ }));
                }
                return Ok(i);
            }
            proof {
                assert(lv[i as int] == lines@[i as int]@);
            }
            if bytes_eq(&lines[i], &crate::text::mk_close2()) {
                proof {
                    assert(final(self)@ =~~= (SpeciesV { traits: self@.traits, ..old(self)@ }));
                }
                return Ok(i + 1);
            }
            if lines[i].len() < 11 {
                return Err(ParseError::new(Section::Species, slice_of(&lines[i], 0, lines[i].len())));
            }
            let t = slice_of(&lines[i], 10, lines[i].len() - 1);
            let ghost pre = self@.traits;
            self.traits.push(t);
            proof {
                assert(self@.traits =~~= pre.push(t@));
            }
            i = i + 1;
        }
    }
}

/// Reads the field lines of one species entry.
fn species_fields(lines: &Vec<Vec<u8>>, start: usize, cur: Species) -> (r: Result<
    (Species, usize),
    ParseError,
>)
    ensures
        match gs_species_fields(lines.deep_view(), start as int, cur@) {
            Some((sp, j)) => r is Ok && r->Ok_0.0@ == sp && r->Ok_0.1 == j,
            None => r is Err,
        },
    decreases lines@.len() - start,
{
    let ghost lv = lines.deep_view();
    if start >= lines.len() {
        return Ok((cur, start));
    }
    proof {
        assert(lv[start as int] == lines@[start as int]@);
    }
    let l = &lines[start];
    if l.len() >= 7 {
        let p = slice_of(l, 2, 7);
        if bytes_eq(&p, &crate::text::mk_p_name5()) {
            if l.len() < 9 {
                return Err(ParseError::new(Section::Species, slice_of(l, 0, l.len())));
            }
            let mut c = cur;
            c.set_name(l);
            species_fields(lines, start + 1, c)
        } else if bytes_eq(&p, &crate::text::mk_p_plura()) {
            if l.len() < 11 {
                return Err(ParseError::new(Section::Species, slice_of(l, 0, l.len())));
            }
            let mut c = cur;
            c.set_plural(l);
            species_fields(lines, start + 1, c)
        } else if bytes_eq(&p, &crate::text::mk_p_adjec()) {
            if l.len() < 14 {
                return Err(ParseError::new(Section::Species, slice_of(l, 0, l.len())));
            }
            let mut c = cur;
            c.set_adjective(l);
            species_fields(lines, start + 1, c)
        } else if bytes_eq(&p, &crate::text::mk_p_portr()) {
            if l.len() < 13 {
                return Err(ParseError::new(Section::Species, slice_of(l, 0, l.len())));
            }
            let mut c = cur;
            c.set_portrait(l);
            species_fields(lines, start + 1, c)
        } else if bytes_eq(&p, &crate::text::mk_p_trait()) {
            let mut c = cur;
            let j = match c.set_traits(lines, start + 1) {
                Ok(j) => j,
                Err(e) => {
                    return Err(e);
                },
            };
            if !(j > start && j <= lines.len()) {
                return Err(ParseError::new(Section::Species, Vec::new()));
            }
            species_fields(lines, j, c)
        } else {
            species_fields(lines, start + 1, cur)
        }
    } else if bytes_eq(l, &crate::text::mk_close1()) {
        Ok((cur, start + 1))
    } else {
        species_fields(lines, start + 1, cur)
    }
}

impl Galaxy {
    /// Reads the species section of a gamestate, appending each entry to
    /// this snapshot's species list; returns the cursor after the section.
    pub fn get_species(&mut self, lines: &Vec<Vec<u8>>, start: usize) -> (r: Result<
        usize,
        ParseError,
    >)
        ensures
            match gs_species_list(lines.deep_view(), start as int, old(self)@.species) {
                Some((ss, j)) => r is Ok && r->Ok_0 == j && final(self)@ == (GalaxyV {
                    species: ss,
                    ..old(self)@
                }),
                None => r is Err,
            },
    {
        let ghost lv = lines.deep_view();
        let mut i: usize = start;
        loop
            invariant
                start <= i,
                lv == lines.deep_view(),
                self.maxc == old(self).maxc,
                self.date == old(self).date,
                self.empires == old(self).empires,
                self.obj == old(self).obj,
                gs_species_list(lv, start as int, old(self)@.species) == gs_species_list(
                    lv,
                    i as int,
                    self@.species,
                ),
            decreases lv.len() - i,
        {
            if i >= lines.len() {
                proof {
                    assert(final(self)@ =~~= (GalaxyV { species: self@.species, ..old(self)@ }));
                }
                return Ok(i);
            }
            proof {
                assert(lv[i as int] == lines@[i as int]@);
            }
            if bytes_eq(&lines[i], &crate::text::mk_close_brace()) {
                proof {
                    assert(final(self)@ =~~= (GalaxyV { species: self@.species, ..old(self)@ }));
                }
                return Ok(i + 1);
            }
            if !bytes_eq(&lines[i], &crate::text::mk_open_entry()) {
                return Err(ParseError::new(Section::Species, slice_of(&lines[i], 0, lines[i].len())));
            }
            let (sp, j) = match species_fields(lines, i + 1, Species::new()) {
                Ok(v) => v,
                Err(e) => {
                    return Err(e);
                },
            };
            if !(j > i && j <= lines.len()) {
                proof {
                    reveal(gs_top);
                }
                return Err(ParseError::new(Section::Species, Vec::new()));
            }
            let ghost pre = self@.species;
            self.species.push(sp);
            proof {
                assert(self@.species =~~= pre.push(sp@));
            }
            i = j;
        }
    }
}


// ------------------------------------------------------------------
// Pop section
// ------------------------------------------------------------------

/// A pop with only its id set.
pub open spec fn pop_default(id: usize) -> PopV {
    PopV {
        id,
        species: usize::MAX,
        ethic: EthicV::Gestalt,
        job: Seq::empty(),
        category: Seq::empty(),
        slave: false,
    }
}

/// The field lines of one pop entry, by structural prefix, up to the
/// entry's closing line; also collects the owning-planet id.
pub open spec fn gs_pop_fields(lines: Seq<Seq<u8>>, i: int, cur: PopV, planet: usize) -> Option<
    ((PopV, usize), int),
>
    decreases lines.len() - i,
{
    if i < 0 || i >= lines.len() {
        Some(((cur, planet), i))
    } else {
        let l = lines[i];
        if l.len() >= 7 {
            let p = l.subrange(0, 7);
            if p == crate::text::lit_p_speci() {
                if l.len() >= 16 {
                    let ds = l.subrange(16, l.len() as int);
                    if ds.len() > 0 && all_digits(ds) && dec_val(ds) <= usize::MAX {
                        gs_pop_fields(
                            lines,
                            i + 1,
                            PopV { species: dec_val(ds) as usize, ..cur },
                            planet,
                        )
                    } else {
                        None
                    }
                } else {
                    None
                }
            } else if p == crate::text::lit_p_ethi() {
                if l.len() >= 11 {
                    gs_pop_fields(
                        lines,
                        i + 1,
                        PopV {
                            ethic: crate::ethic::str_to_ethic_spec(l.subrange(10, l.len() - 1)),
                            ..cur
                        },
                        planet,
                    )
                } else {
                    None
                }
            } else if p == crate::text::lit_p_job() {
                if l.len() >= 8 {
                    gs_pop_fields(lines, i + 1, PopV { job: l.subrange(7, l.len() - 1), ..cur }, planet)
                } else {
                    None
                }
            } else if p == crate::text::lit_p_categ() {
                if l.len() >= 13 {
                    gs_pop_fields(
                        lines,
                        i + 1,
                        PopV { category: l.subrange(12, l.len() - 1), ..cur },
                        planet,
                    )
                } else {
                    None
                }
            } else if p == crate::text::lit_p_plane() {
                if l.len() >= 9 {
                    let ds = l.subrange(9, l.len() as int);
                    if ds.len() > 0 && all_digits(ds) && dec_val(ds) <= usize::MAX {
                        gs_pop_fields(lines, i + 1, cur, dec_val(ds) as usize)
                    } else {
                        None
                    }
                } else {
                    None
                }
            } else if p == crate::text::lit_p_ensla() {
                if l.len() >= 11 {
                    match bool_of(l.subrange(11, l.len() as int)) {
                        None => None,
                        Some(b) => gs_pop_fields(lines, i + 1, PopV { slave: b, ..cur }, planet),
                    }
                } else {
                    None
                }
            } else {
                gs_pop_fields(lines, i + 1, cur, planet)
            }
        } else if l == crate::text::lit_close1() {
            Some(((cur, planet), i + 1))
        } else {
            gs_pop_fields(lines, i + 1, cur, planet)
        }
    }
}

/// The pop section: numeric-id entries until the section's closing brace;
/// each pop is filed in a pool under its owning-planet id.
pub open spec fn gs_pop_section(lines: Seq<Seq<u8>>, i: int, pool: Seq<PoolEntryV>) -> Option<
    (Seq<PoolEntryV>, int),
>
    decreases lines.len() - i,
{
    if i < 0 || i >= lines.len() {
        Some((pool, i))
    } else if lines[i] == crate::text::lit_close_brace() {
        Some((pool, i + 1))
    } else {
        let l = lines[i];
        if l.len() >= 3 {
            let ds = l.subrange(1, l.len() - 2);
            if ds.len() > 0 && all_digits(ds) && dec_val(ds) <= usize::MAX {
                match gs_pop_fields(lines, i + 1, pop_default(dec_val(ds) as usize), usize::MAX) {
                    None => None,
                    Some(((pv, planet), j)) => {
                        if i < j <= lines.len() {
                            gs_pop_section(lines, j, pool_push(pool, planet, pv))
                        } else {
                            None
                        }
                    },
                }
            } else {
                None
            }
        } else {
            None
        }
    }
}

impl Pop {
    /// A pop with no fields set.
    pub fn newe() -> (p: Pop)
        ensures
            p@ == pop_default(usize::MAX),
    {
        let p = Pop {
            id: usize::MAX,
            species: usize::MAX,
            ethic: Ethic::Gestalt,
            job: Vec::new(),
            category: Vec::new(),
            slave: false,
        };
        proof {
            assert(p@ =~~= pop_default(usize::MAX));
        }
        p
    }

    /// Reads the field lines of one pop entry with the given id, returning
    /// the owning-planet id, the pop, and the cursor after the entry.
    pub fn new(lines: &Vec<Vec<u8>>, start: usize, id: usize) -> (r: Result<
        ((usize, Pop), usize),
        ParseError,
    >)
        ensures
            match gs_pop_fields(lines.deep_view(), start as int, pop_default(id), usize::MAX) {
                Some(((pv, planet), j)) => r is Ok && r->Ok_0.0.0 == planet && r->Ok_0.0.1@ == pv
                    && r->Ok_0.1 == j,
                None => r is Err,
            },
    {
        let ghost lv = lines.deep_view();
        let mut cur = Pop {
            id,
            species: usize::MAX,
            ethic: Ethic::Gestalt,
            job: Vec::new(),
            category: Vec::new(),
            slave: false,
        };
        proof {
            assert(cur@ =~~= pop_default(id));
        }
        let mut planet: usize = usize::MAX;
        let mut i: usize = start;
        loop
            invariant
                start <= i,
                lv == lines.deep_view(),
                gs_pop_fields(lv, start as int, pop_default(id), usize::MAX) == gs_pop_fields(
                    lv,
                    i as int,
                    cur@,
                    planet,
                ),
            decreases lv.len() - i,
        {
            if i >= lines.len() {
                return Ok(((planet, cur), i));
            }
            proof {
                assert(lv[i as int] == lines@[i as int]@);
            }
            let l = &lines[i];
            if l.len() >= 7 {
                let p = slice_of(l, 0, 7);
                if bytes_eq(&p, &crate::text::mk_p_speci()) {
                    if l.len() < 16 {
                        return Err(ParseError::new(Section::Pop, slice_of(l, 0, l.len())));
                    }
                    let ds = slice_of(l, 16, l.len());
                    let v = match parser(&ds) {
                        Ok(v) => v,
                        Err(e) => {
                            return Err(e);
                        },
                    };
                    cur.species = v;
                } else if bytes_eq(&p, &crate::text::mk_p_ethi()) {
                    if l.len() < 11 {
                        return Err(ParseError::new(Section::Pop, slice_of(l, 0, l.len())));
                    }
                    let tok = slice_of(l, 10, l.len() - 1);
                    cur.ethic = Ethic::str_to_ethic(&tok);
                } else if bytes_eq(&p, &crate::text::mk_p_job()) {
                    if l.len() < 8 {
                        return Err(ParseError::new(Section::Pop, slice_of(l, 0, l.len())));
                    }
                    cur.job = slice_of(l, 7, l.len() - 1);
                } else if bytes_eq(&p, &crate::text::mk_p_categ()) {
                    if l.len() < 13 {
                        return Err(ParseError::new(Section::Pop, slice_of(l, 0, l.len())));
                    }
                    cur.category = slice_of(l, 12, l.len() - 1);
                } else if bytes_eq(&p, &crate::text::mk_p_plane()) {
                    if l.len() < 9 {
                        return Err(ParseError::new(Section::Pop, slice_of(l, 0, l.len())));
                    }
                    let ds = slice_of(l, 9, l.len());
                    let v = match parser(&ds) {
                        Ok(v) => v,
                        Err(e) => {
                            return Err(e);
                        },
                    };
                    planet = v;
                } else if bytes_eq(&p, &crate::text::mk_p_ensla()) {
                    if l.len() < 11 {
                        return Err(ParseError::new(Section::Pop, slice_of(l, 0, l.len())));
                    }
                    let tok = slice_of(l, 11, l.len());
                    let b = match str_to_bool(&tok) {
                        Ok(b) => b,
                        Err(e) => {
                            return Err(e);
                        },
                    };
                    cur.slave = b;
                }
                i = i + 1;
            } else if bytes_eq(l, &crate::text::mk_close1()) {
                return Ok(((planet, cur), i + 1));
            } else {
                i = i + 1;
            }
        }
    }
}

/// Reads the pop section, grouping pops under their owning-planet ids.
pub fn pop_analyser(lines: &Vec<Vec<u8>>, start: usize) -> (r: Result<
    (Vec<PoolEntry>, usize),
    ParseError,
>)
    ensures
        match gs_pop_section(lines.deep_view(), start as int, Seq::empty()) {
            Some((pl, j)) => r is Ok && r->Ok_0.0.deep_view() == pl && r->Ok_0.1 == j,
            None => r is Err,
        },
{
    let ghost lv = lines.deep_view();
    let mut pool: Vec<PoolEntry> = Vec::new();
    let mut i: usize = start;
    proof {
        assert(pool.deep_view() =~= Seq::<PoolEntryV>::empty());
    }
    loop
        invariant
            start <= i,
            lv == lines.deep_view(),
            gs_pop_section(lv, start as int, Seq::empty()) == gs_pop_section(
                lv,
                i as int,
                pool.deep_view(),
            ),
        decreases lv.len() - i,
    {
        if i >= lines.len() {
            return Ok((pool, i));
        }
        proof {
            assert(lv[i as int] == lines@[i as int]@);
        }
        if bytes_eq(&lines[i], &crate::text::mk_close_brace()) {
            return Ok((pool, i + 1));
        }
        let l = &lines[i];
        if l.len() < 3 {
            return Err(ParseError::new(Section::Pop, slice_of(l, 0, l.len())));
        }
        let ds = slice_of(l, 1, l.len() - 2);
        let id = match parser(&ds) {
            Ok(v) => v,
            Err(e) => {
                return Err(e);
            },
        };
        let ((planet, pop), j) = match Pop::new(lines, i + 1, id) {
            Ok(v) => v,
            Err(e) => {
                return Err(e);
            },
        };
        if !(j > i && j <= lines.len()) {
            return Err(ParseError::new(Section::Pop, Vec::new()));
        }
        pop_pool_push(&mut pool, planet, pop);
        i = j;
    }
}


// ------------------------------------------------------------------
// Planet section
// ------------------------------------------------------------------

/// A planet with only its id and spliced population set.
pub open spec fn planet_default(id: usize, population: Seq<PopV>) -> PlanetV {
    PlanetV { id, name: Seq::empty(), typ: Seq::empty(), size: 0, population }
}

/// The field lines of one planet entry, by structural prefix, up to the
/// entry's closing line.
pub open spec fn gs_planet_fields(lines: Seq<Seq<u8>>, i: int, cur: PlanetV) -> Option<
    (PlanetV, int),
>
    decreases lines.len() - i,
{
    if i < 0 || i >= lines.len() {
        Some((cur, i))
    } else {
        let l = lines[i];
        if l == crate::text::lit_close2() {
            Some((cur, i + 1))
        } else if l.len() >= 8 {
            let p = l.subrange(3, 8);
            if p == crate::text::lit_p_name5() {
                if l.len() >= 10 {
                    gs_planet_fields(
                        lines,
                        i + 1,
                        PlanetV { name: l.subrange(9, l.len() - 1), ..cur },
                    )
                } else {
                    None
                }
            } else if p == crate::text::lit_p_plane5() {
                if l.len() >= 14 {
                    let q = l.subrange(10, 14);
                    if q == crate::text::lit_p_size() {
                        if l.len() >= 15 {
                            let ds = l.subrange(15, l.len() as int);
                            if ds.len() > 0 && all_digits(ds) && dec_val(ds) <= usize::MAX {
                                gs_planet_fields(
                                    lines,
                                    i + 1,
                                    PlanetV { size: dec_val(ds) as usize, ..cur },
                                )
                            } else {
                                None
                            }
                        } else {
                            None
                        }
                    } else if q == crate::text::lit_p_clas() {
                        if l.len() >= 18 {
                            gs_planet_fields(
                                lines,
                                i + 1,
                                PlanetV { typ: l.subrange(17, l.len() - 1), ..cur },
                            )
                        } else {
                            None
                        }
                    } else {
                        gs_planet_fields(lines, i + 1, cur)
                    }
                } else {
                    gs_planet_fields(lines, i + 1, cur)
                }
            } else {
                gs_planet_fields(lines, i + 1, cur)
            }
        } else {
            gs_planet_fields(lines, i + 1, cur)
        }
    }
}

/// One planet entry or the section's closing line: the numeric-id header,
/// the splice of the pops filed under that id, then the field lines.
pub open spec fn gs_planet_new(lines: Seq<Seq<u8>>, i: int, pops: Seq<PoolEntryV>) -> Option<
    (Option<((PlanetV, bool), Seq<PoolEntryV>)>, int),
> {
    if i < 0 || i >= lines.len() {
        None
    } else if lines[i] == crate::text::lit_close1() {
        Some((None, i + 1))
    } else {
        let l = lines[i];
        if l.len() >= 4 {
            let ds = l.subrange(2, l.len() - 2);
            if ds.len() > 0 && all_digits(ds) && dec_val(ds) <= usize::MAX {
                let id = dec_val(ds) as usize;
                let rm = pool_remove(pops, id);
                let population = match rm.0 {
                    Some(ps) => ps,
                    None => Seq::empty(),
                };
                match gs_planet_fields(lines, i + 1, planet_default(id, population)) {
                    None => None,
                    Some((plan, j)) => Some(
                        (Some(((plan, plan.population.len() > 0), rm.1)), j),
                    ),
                }
            } else {
                None
            }
        } else {
            None
        }
    }
}

/// The planet section: entries until the section's closing line; only
/// planets with population survive into the pool.
pub open spec fn gs_planet_section(
    lines: Seq<Seq<u8>>,
    i: int,
    ppool: Seq<PlanetV>,
    pops: Seq<PoolEntryV>,
) -> Option<((Seq<PlanetV>, Seq<PoolEntryV>), int)>
    decreases lines.len() - i,
{
    if i < 0 || i > lines.len() {
        None
    } else {
        match gs_planet_new(lines, i, pops) {
            None => None,
            Some((opt, j)) => match opt {
                None => Some(((ppool, pops), j)),
                Some(((plan, has), pops2)) => {
                    if i < j <= lines.len() {
                        gs_planet_section(
                            lines,
                            j,
                            if has {
                                ppool_put(ppool, plan)
                            } else {
                                ppool
                            },
                            pops2,
                        )
                    } else {
                        None
                    }
                },
            },
        }
    }
}

impl Planet {
    /// A planet with no fields set.
    pub fn newe() -> (p: Planet)
        ensures
            p@ == planet_default(usize::MAX, Seq::empty()),
    {
        let p = Planet {
            id: usize::MAX,
            name: Vec::new(),
            typ: Vec::new(),
            size: 0,
            population: Vec::new(),
        };
        proof {
            assert(p@ =~~= planet_default(usize::MAX, Seq::empty()));
        }
        p
    }

    /// Reads one planet entry, splicing in the pops filed under its id;
    /// yields the entry, whether it has population, and the next cursor, or
    /// nothing at the section's closing line.
    pub fn new(lines: &Vec<Vec<u8>>, start: usize, pops: &mut Vec<PoolEntry>) -> (r: Result<
        (Option<(Planet, bool)>, usize),
        ParseError,
    >)
        ensures
            match gs_planet_new(lines.deep_view(), start as int, old(pops).deep_view()) {
                None => r is Err,
                Some((opt, j)) => r is Ok && r->Ok_0.1 == j && (match opt {
                    None => r->Ok_0.0 is None
                        && final(pops).deep_view() == old(pops).deep_view(),
                    Some(((pv, has), pool2)) => r->Ok_0.0 is Some && r->Ok_0.0->Some_0.0@ == pv
                        && r->Ok_0.0->Some_0.1 == has && final(pops).deep_view() == pool2,
                }),
            },
    {
        let ghost lv = lines.deep_view();
        if start >= lines.len() {
            return Err(ParseError::new(Section::Planet, Vec::new()));
        }
        proof {
            assert(lv[start as int] == lines@[start as int]@);
        }
        if bytes_eq(&lines[start], &crate::text::mk_close1()) {
            return Ok((None, start + 1));
        }
        let l = &lines[start];
        if l.len() < 4 {
            return Err(ParseError::new(Section::Planet, slice_of(l, 0, l.len())));
        }
        let ds = slice_of(l, 2, l.len() - 2);
        let id = match parser(&ds) {
            Ok(v) => v,
            Err(e) => {
                return Err(e);
            },
        };
        let population = match pop_pool_remove(pops, id) {
            Some(ps) => ps,
            None => Vec::new(),
        };
        let mut cur = Planet { id, name: Vec::new(), typ: Vec::new(), size: 0, population };
        proof {
            assert(cur@ =~~= planet_default(
                id,
                match pool_remove(old(pops).deep_view(), id).0 {
                    Some(ps) => ps,
                    None => Seq::empty(),
                },
            ));
        }
        let mut i: usize = start + 1;
        loop
            invariant
                start + 1 <= i,
                lv == lines.deep_view(),
                (start as int) < lv.len(),
                lv[start as int] != crate::text::lit_close1(),
                lv[start as int].len() >= 4,
                ({
                    let ds = lv[start as int].subrange(2, lv[start as int].len() - 2);
                    ds.len() > 0 && all_digits(ds) && dec_val(ds) <= usize::MAX && dec_val(ds)
                        == id
                }),
                final(pops).deep_view() == pool_remove(old(pops).deep_view(), id).1,
                gs_planet_fields(
                    lv,
                    start + 1,
                    planet_default(
                        id,
                        match pool_remove(old(pops).deep_view(), id).0 {
                            Some(ps) => ps,
                            None => Seq::empty(),
                        },
                    ),
                ) == gs_planet_fields(lv, i as int, cur@),
                cur@.population == planet_default(
                    id,
                    match pool_remove(old(pops).deep_view(), id).0 {
                        Some(ps) => ps,
                        None => Seq::empty(),
                    },
                ).population,
            decreases lv.len() - i,
        {
            if i >= lines.len() {
                let has = cur.population.len() > 0;
                return Ok((Some((cur, has)), i));
            }
            proof {
                assert(lv[i as int] == lines@[i as int]@);
            }
            let l2 = &lines[i];
            if bytes_eq(l2, &crate::text::mk_close2()) {
                let has = cur.population.len() > 0;
                return Ok((Some((cur, has)), i + 1));
            }
            if l2.len() >= 8 {
                let p = slice_of(l2, 3, 8);
                if bytes_eq(&p, &crate::text::mk_p_name5()) {
                    if l2.len() < 10 {
                        return Err(ParseError::new(Section::Planet, slice_of(l2, 0, l2.len())));
                    }
                    cur.name = slice_of(l2, 9, l2.len() - 1);
                } else if bytes_eq(&p, &crate::text::mk_p_plane5()) {
                    if l2.len() >= 14 {
                        let q = slice_of(l2, 10, 14);
                        if bytes_eq(&q, &crate::text::mk_p_size()) {
                            if l2.len() < 15 {
                                return Err(
                                    ParseError::new(Section::Planet, slice_of(l2, 0, l2.len())),
                                );
                            }
                            let sds = slice_of(l2, 15, l2.len());
                            let v = match parser(&sds) {
                                Ok(v) => v,
                                Err(e) => {
                                    return Err(e);
                                },
                            };
                            cur.size = v;
                        } else if bytes_eq(&q, &crate::text::mk_p_clas()) {
                            if l2.len() < 18 {
                                return Err(
                                    ParseError::new(Section::Planet, slice_of(l2, 0, l2.len())),
                                );
                            }
                            cur.typ = slice_of(l2, 17, l2.len() - 1);
                        }
                    }
                }
                i = i + 1;
            } else {
                i = i + 1;
            }
        }
    }
}

/// Reads the planet section; planets with population go into the surviving
/// planet pool, keyed by id.
pub fn planet_analyser(lines: &Vec<Vec<u8>>, start: usize, pops: &mut Vec<PoolEntry>) -> (r:
    Result<(Vec<Planet>, usize), ParseError>)
    ensures
        match gs_planet_section(
            lines.deep_view(),
            start as int,
            Seq::empty(),
            old(pops).deep_view(),
        ) {
            Some(((pl, pp), j)) => r is Ok && r->Ok_0.0.deep_view() == pl
                && final(pops).deep_view() == pp && r->Ok_0.1 == j,
            None => r is Err,
        },
{
    let ghost lv = lines.deep_view();
    let mut ppool: Vec<Planet> = Vec::new();
    let mut i: usize = start;
    proof {
        assert(ppool.deep_view() =~= Seq::<PlanetV>::empty());
    }
    loop
        invariant
            start <= i,
            lv == lines.deep_view(),
            gs_planet_section(lv, start as int, Seq::empty(), old(pops).deep_view())
                == gs_planet_section(lv, i as int, ppool.deep_view(), pops.deep_view()),
        decreases lv.len() + 1 - i,
    {
        if i > lines.len() {
            return Err(ParseError::new(Section::Planet, Vec::new()));
        }
        let (opt, j) = match Planet::new(lines, i, pops) {
            Ok(v) => v,
            Err(e) => {
                return Err(e);
            },
        };
        match opt {
            None => {
                return Ok((ppool, j));
            },
            Some((plan, has)) => {
                if !(j > i && j <= lines.len()) {
                    return Err(ParseError::new(Section::Planet, Vec::new()));
                }
                if has {
                    planet_pool_put(&mut ppool, plan);
                }
                i = j;
            },
        }
    }
}


// ------------------------------------------------------------------
// Galactic-object section
// ------------------------------------------------------------------

/// A galactic object with only its id set; unset coordinates read as the
/// greatest i64 value.
pub open spec fn obj_default(id: usize) -> GalObjectV {
    GalObjectV {
        id,
        x: i64::MAX,
        y: i64::MAX,
        typ: Seq::empty(),
        name: Seq::empty(),
        planets: Seq::empty(),
    }
}

/// The field lines of one galactic-object entry, by structural prefix, up
/// to the entry's closing line.
pub open spec fn gs_obj_fields(lines: Seq<Seq<u8>>, i: int, cur: GalObjectV) -> Option<
    (GalObjectV, int),
>
    decreases lines.len() - i,
{
    if i < 0 || i >= lines.len() {
        Some((cur, i))
    } else {
        let l = lines[i];
        if l == crate::text::lit_close1() {
            Some((cur, i + 1))
        } else if l.len() >= 5 {
            let p = l.subrange(0, 5);
            if p == crate::text::lit_p_x() {
                match coord_val(l.subrange(5, l.len() as int)) {
                    None => None,
                    Some(x) => gs_obj_fields(lines, i + 1, GalObjectV { x: x as i64, ..cur }),
                }
            } else if p == crate::text::lit_p_y() {
                match coord_val(l.subrange(5, l.len() as int)) {
                    None => None,
                    Some(y) => gs_obj_fields(lines, i + 1, GalObjectV { y: y as i64, ..cur }),
                }
            } else if p == crate::text::lit_p_typ() {
                if l.len() >= 7 {
                    gs_obj_fields(lines, i + 1, GalObjectV { typ: l.subrange(7, l.len() as int), ..cur })
                } else {
                    None
                }
            } else if p == crate::text::lit_p_nam() {
                if l.len() >= 9 {
                    gs_obj_fields(
                        lines,
                        i + 1,
                        GalObjectV { name: l.subrange(8, l.len() - 1), ..cur },
                    )
                } else {
                    None
                }
            } else if p == crate::text::lit_p_pla() {
                if l.len() >= 9 {
                    let ds = l.subrange(9, l.len() as int);
                    if ds.len() > 0 && all_digits(ds) && dec_val(ds) <= usize::MAX {
                        gs_obj_fields(
                            lines,
                            i + 1,
                            GalObjectV { planets: cur.planets.push(dec_val(ds) as usize), ..cur },
                        )
                    } else {
                        None
                    }
                } else {
                    None
                }
            } else {
                gs_obj_fields(lines, i + 1, cur)
            }
        } else {
            gs_obj_fields(lines, i + 1, cur)
        }
    }
}

/// One galactic-object entry or the section's closing brace.
pub open spec fn gs_obj_new(lines: Seq<Seq<u8>>, i: int) -> Option<(Option<GalObjectV>, int)> {
    if i < 0 || i >= lines.len() {
        None
    } else if lines[i] == crate::text::lit_close_brace() {
        Some((None, i + 1))
    } else {
        let l = lines[i];
        if l.len() >= 3 {
            let ds = l.subrange(1, l.len() - 2);
            if ds.len() > 0 && all_digits(ds) && dec_val(ds) <= usize::MAX {
                match gs_obj_fields(lines, i + 1, obj_default(dec_val(ds) as usize)) {
                    None => None,
                    Some((o, j)) => Some((Some(o), j)),
                }
            } else {
                None
            }
        } else {
            None
        }
    }
}

/// The galactic-object section: entries until the section's closing brace.
pub open spec fn gs_obj_section(lines: Seq<Seq<u8>>, i: int, acc: Seq<GalObjectV>) -> Option<
    (Seq<GalObjectV>, int),
>
    decreases lines.len() - i,
{
    if i < 0 || i > lines.len() {
        None
    } else {
        match gs_obj_new(lines, i) {
            None => None,
            Some((opt, j)) => match opt {
                None => Some((acc, j)),
                Some(o) => {
                    if i < j <= lines.len() {
                        gs_obj_section(lines, j, acc.push(o))
                    } else {
                        None
                    }
                },
            },
        }
    }
}

impl GalObject {
    /// A galactic object with no fields set.
    pub fn newe() -> (o: GalObject)
        ensures
            o@ == obj_default(usize::MAX),
    {
        let o = GalObject {
            id: usize::MAX,
            x: i64::MAX,
            y: i64::MAX,
            typ: Vec::new(),
            name: Vec::new(),
            planets: Vec::new(),
        };
        proof {
            assert(o@ =~~= obj_default(usize::MAX));
        }
        o
    }

    /// Reads one galactic-object entry, or nothing at the section's closing
    /// brace.
    pub fn new(lines: &Vec<Vec<u8>>, start: usize) -> (r: Result<
        (Option<GalObject>, usize),
        ParseError,
    >)
        ensures
            match gs_obj_new(lines.deep_view(), start as int) {
                None => r is Err,
                Some((opt, j)) => r is Ok && r->Ok_0.1 == j && (match opt {
                    None => r->Ok_0.0 is None,
                    Some(o) => r->Ok_0.0 is Some && r->Ok_0.0->Some_0@ == o,
                }),
            },
    {
        let ghost lv = lines.deep_view();
        if start >= lines.len() {
            return Err(ParseError::new(Section::GalacticObject, Vec::new()));
        }
        proof {
            assert(lv[start as int] == lines@[start as int]@);
        }
        if bytes_eq(&lines[start], &crate::text::mk_close_brace()) {
            return Ok((None, start + 1));
        }
        let l = &lines[start];
        if l.len() < 3 {
            return Err(ParseError::new(Section::GalacticObject, slice_of(l, 0, l.len())));
        }
        let ds = slice_of(l, 1, l.len() - 2);
        let id = match parser(&ds) {
            Ok(v) => v,
            Err(e) => {
                return Err(e);
            },
        };
        let mut cur = GalObject {
            id,
            x: i64::MAX,
            y: i64::MAX,
            typ: Vec::new(),
            name: Vec::new(),
            planets: Vec::new(),
        };
        proof {
            assert(cur@ =~~= obj_default(id));
        }
        let mut i: usize = start + 1;
        loop
            invariant
                start + 1 <= i,
                lv == lines.deep_view(),
                (start as int) < lv.len(),
                lv[start as int] != crate::text::lit_close_brace(),
                lv[start as int].len() >= 3,
                ({
                    let ds2 = lv[start as int].subrange(1, lv[start as int].len() - 2);
                    ds2.len() > 0 && all_digits(ds2) && dec_val(ds2) <= usize::MAX && dec_val(ds2)
                        == id
                }),
                gs_obj_fields(lv, start + 1, obj_default(id)) == gs_obj_fields(lv, i as int, cur@),
            decreases lv.len() - i,
        {
            if i >= lines.len() {
                return Ok((Some(cur), i));
            }
            proof {
                assert(lv[i as int] == lines@[i as int]@);
            }
            let l2 = &lines[i];
            if bytes_eq(l2, &crate::text::mk_close1()) {
                return Ok((Some(cur), i + 1));
            }
            if l2.len() >= 5 {
                let p = slice_of(l2, 0, 5);
                if bytes_eq(&p, &crate::text::mk_p_x()) {
                    let tok = slice_of(l2, 5, l2.len());
                    let v = match str_to_coord(&tok) {
                        Ok(v) => v,
                        Err(e) => {
                            return Err(e);
                        },
                    };
                    cur.x = v;
                } else if bytes_eq(&p, &crate::text::mk_p_y()) {
                    let tok = slice_of(l2, 5, l2.len());
                    let v = match str_to_coord(&tok) {
                        Ok(v) => v,
                        Err(e) => {
                            return Err(e);
                        },
                    };
                    cur.y = v;
                } else if bytes_eq(&p, &crate::text::mk_p_typ()) {
                    if l2.len() < 7 {
                        return Err(
                            ParseError::new(Section::GalacticObject, slice_of(l2, 0, l2.len())),
                        );
                    }
                    cur.typ = slice_of(l2, 7, l2.len());
                } else if bytes_eq(&p, &crate::text::mk_p_nam()) {
                    if l2.len() < 9 {
                        return Err(
                            ParseError::new(Section::GalacticObject, slice_of(l2, 0, l2.len())),
                        );
                    }
                    cur.name = slice_of(l2, 8, l2.len() - 1);
                } else if bytes_eq(&p, &crate::text::mk_p_pla()) {
                    if l2.len() < 9 {
                        return Err(
                            ParseError::new(Section::GalacticObject, slice_of(l2, 0, l2.len())),
                        );
                    }
                    let pds = slice_of(l2, 9, l2.len());
                    let v = match parser(&pds) {
                        Ok(v) => v,
                        Err(e) => {
                            return Err(e);
                        },
                    };
                    let ghost pre = cur@.planets;
                    cur.planets.push(v);
                    proof {
                        assert(cur@.planets =~= pre.push(v));
                    }
                }
                i = i + 1;
            } else {
                i = i + 1;
            }
        }
    }
}

/// Reads the galactic-object section.
pub fn gal_obj_analyser(lines: &Vec<Vec<u8>>, start: usize) -> (r: Result<
    (Vec<GalObject>, usize),
    ParseError,
>)
    ensures
        match gs_obj_section(lines.deep_view(), start as int, Seq::empty()) {
            Some((os, j)) => r is Ok && r->Ok_0.0.deep_view() == os && r->Ok_0.1 == j,
            None => r is Err,
        },
{
    let ghost lv = lines.deep_view();
    let mut acc: Vec<GalObject> = Vec::new();
    let mut i: usize = start;
    proof {
        assert(acc.deep_view() =~= Seq::<GalObjectV>::empty());
    }
    loop
        invariant
            start <= i,
            lv == lines.deep_view(),
            gs_obj_section(lv, start as int, Seq::empty()) == gs_obj_section(
                lv,
                i as int,
                acc.deep_view(),
            ),
        decreases lv.len() + 1 - i,
    {
        if i > lines.len() {
            return Err(ParseError::new(Section::GalacticObject, Vec::new()));
        }
        let (opt, j) = match GalObject::new(lines, i) {
            Ok(v) => v,
            Err(e) => {
                return Err(e);
            },
        };
        match opt {
            None => {
                return Ok((acc, j));
            },
            Some(o) => {
                if !(j > i && j <= lines.len()) {
                    return Err(ParseError::new(Section::GalacticObject, Vec::new()));
                }
                let ghost pre = acc.deep_view();
                acc.push(o);
                proof {
                    assert(acc.deep_view() =~~= pre.push(o@));
                }
                i = j;
            },
        }
    }
}


// ------------------------------------------------------------------
// Country (empire) section
// ------------------------------------------------------------------

/// An empire with only its id set.
pub open spec fn empire_default(id: usize) -> EmpireV {
    EmpireV {
        id,
        name: Seq::empty(),
        adjective: Seq::empty(),
        planets: Seq::empty(),
        ethics: None,
        color: ColorsV { c0: None, c1: None, c2: None, c3: None },
    }
}

/// The all-Gestalt triple the ethic slots start from.
pub open spec fn gestalt_triple() -> EthicTripleV {
    EthicTripleV { e0: EthicV::Gestalt, e1: EthicV::Gestalt, e2: EthicV::Gestalt }
}

/// Writes slot `k` of an ethic triple.
pub open spec fn triple_set(t: EthicTripleV, k: int, e: EthicV) -> EthicTripleV {
    if k == 0 {
        EthicTripleV { e0: e, ..t }
    } else if k == 1 {
        EthicTripleV { e1: e, ..t }
    } else {
        EthicTripleV { e2: e, ..t }
    }
}

/// The ethic sub-block of an empire: up to three slots filled in order. A
/// fanatic token fills two slots with the same ethic; a Gestalt token ends
/// the block at once; the closing line ends it and copies the third slot
/// from the second.
pub open spec fn gs_ethos(lines: Seq<Seq<u8>>, i: int, cnt: int, t: EthicTripleV) -> Option<
    (EthicTripleV, int),
>
    decreases lines.len() - i,
{
    if i < 0 || i >= lines.len() {
        Some((t, i))
    } else {
        let l = lines[i];
        if l == crate::text::lit_close2() {
            Some((EthicTripleV { e2: t.e1, ..t }, i + 1))
        } else if l.len() >= 11 {
            if l.len() >= 23 && l.subrange(16, 23) == crate::text::lit_fanatic_w() {
                if l.len() >= 25 {
                    let e = crate::ethic::str_to_ethic_spec(
                        crate::text::lit_slug_prefix() + l.subrange(24, l.len() - 1),
                    );
                    if cnt == 0 {
                        gs_ethos(lines, i + 1, 2, EthicTripleV { e0: e, e1: e, ..t })
                    } else if cnt == 1 {
                        Some((EthicTripleV { e1: e, e2: e, ..t }, i + 1))
                    } else {
                        None
                    }
                } else {
                    None
                }
            } else {
                let e = crate::ethic::str_to_ethic_spec(l.subrange(10, l.len() - 1));
                if e == EthicV::Gestalt {
                    Some((triple_set(t, cnt, e), i + 1))
                } else if cnt == 2 {
                    Some((triple_set(t, cnt, e), i + 1))
                } else {
                    gs_ethos(lines, i + 1, cnt + 1, triple_set(t, cnt, e))
                }
            }
        } else {
            None
        }
    }
}

/// The space-separated planet ids of an `owned_planets` line.
pub open spec fn owned_list(body: Seq<u8>, acc: Seq<usize>) -> Option<Seq<usize>>
    decreases body.len(),
{
    let k = find_byte(body, ' ' as u8);
    if !(0 <= k <= body.len()) {
        None
    } else {
        let tok = body.subrange(0, k);
        if tok.len() > 0 && all_digits(tok) && dec_val(tok) <= usize::MAX {
            if k == body.len() {
                Some(acc.push(dec_val(tok) as usize))
            } else {
                owned_list(body.subrange(k + 1, body.len() as int), acc.push(dec_val(tok) as usize))
            }
        } else {
            None
        }
    }
}

/// Claims the listed planets out of the pool in order; ids not in the pool
/// are skipped.
pub open spec fn claim_planets(ids: Seq<usize>, pool: Seq<PlanetV>, acc: Seq<PlanetV>) -> (Seq<
    PlanetV,
>, Seq<PlanetV>)
    decreases ids.len(),
{
    if ids.len() == 0 {
        (acc, pool)
    } else {
        let rm = ppool_remove(pool, ids[0]);
        claim_planets(
            ids.drop_first(),
            rm.1,
            match rm.0 {
                Some(p) => acc.push(p),
                None => acc,
            },
        )
    }
}

/// The field lines of one empire entry, by structural prefix, up to the
/// entry's closing line; claimed planets move out of the pool.
pub open spec fn gs_empire_fields(
    lines: Seq<Seq<u8>>,
    i: int,
    cur: EmpireV,
    pool: Seq<PlanetV>,
) -> Option<((EmpireV, Seq<PlanetV>), int)>
    decreases lines.len() - i,
{
    if i < 0 || i >= lines.len() {
        Some(((cur, pool), i))
    } else {
        let l = lines[i];
        if l == crate::text::lit_close1() {
            Some(((cur, pool), i + 1))
        } else if l.len() >= 8 {
            let p = l.subrange(2, 8);
            if p == crate::text::lit_p_color() {
                if i + 5 <= lines.len() && lines[i + 1].len() >= 6 && lines[i + 2].len() >= 6
                    && lines[i + 3].len() >= 6 && lines[i + 4].len() >= 6 {
                    let c0 = color_of(lines[i + 1].subrange(5, lines[i + 1].len() - 1));
                    let c1 = color_of(lines[i + 2].subrange(5, lines[i + 2].len() - 1));
                    let c2 = color_of(lines[i + 3].subrange(5, lines[i + 3].len() - 1));
                    let c3 = color_of(lines[i + 4].subrange(5, lines[i + 4].len() - 1));
                    gs_empire_fields(
                        lines,
                        i + 5,
                        EmpireV { color: ColorsV { c0, c1, c2, c3 }, ..cur },
                        pool,
                    )
                } else {
                    None
                }
            } else if p == crate::text::lit_p_namq() {
                if l.len() >= 9 {
                    gs_empire_fields(
                        lines,
                        i + 1,
                        EmpireV { name: l.subrange(8, l.len() - 1), ..cur },
                        pool,
                    )
                } else {
                    None
                }
            } else if p == crate::text::lit_p_adject() {
                if l.len() >= 14 {
                    gs_empire_fields(
                        lines,
                        i + 1,
                        EmpireV { adjective: l.subrange(13, l.len() - 1), ..cur },
                        pool,
                    )
                } else {
                    None
                }
            } else if p == crate::text::lit_p_ethos() {
                match gs_ethos(lines, i + 1, 0, gestalt_triple()) {
                    None => None,
                    Some((t, j)) => {
                        if i < j <= lines.len() {
                            gs_empire_fields(lines, j, EmpireV { ethics: Some(t), ..cur }, pool)
                        } else {
                            None
                        }
                    },
                }
            } else if p == crate::text::lit_p_owned() {
                if i + 1 < lines.len() && lines[i + 1].len() >= 4 {
                    match owned_list(
                        lines[i + 1].subrange(3, lines[i + 1].len() - 1),
                        Seq::empty(),
                    ) {
                        None => None,
                        Some(ids) => {
                            let cl = claim_planets(ids, pool, cur.planets);
                            gs_empire_fields(
                                lines,
                                i + 2,
                                EmpireV { planets: cl.0, ..cur },
                                cl.1,
                            )
                        },
                    }
                } else {
                    None
                }
            } else {
                gs_empire_fields(lines, i + 1, cur, pool)
            }
        } else {
            gs_empire_fields(lines, i + 1, cur, pool)
        }
    }
}

/// One empire entry or the section's closing brace.
pub open spec fn gs_empire_new(lines: Seq<Seq<u8>>, i: int, pool: Seq<PlanetV>) -> Option<
    (Option<(EmpireV, Seq<PlanetV>)>, int),
> {
    if i < 0 || i >= lines.len() {
        None
    } else if lines[i] == crate::text::lit_close_brace() {
        Some((None, i + 1))
    } else {
        let l = lines[i];
        if l.len() >= 3 {
            let ds = l.subrange(1, l.len() - 2);
            if ds.len() > 0 && all_digits(ds) && dec_val(ds) <= usize::MAX {
                match gs_empire_fields(lines, i + 1, empire_default(dec_val(ds) as usize), pool) {
                    None => None,
                    Some(((emp, pool2), j)) => Some((Some((emp, pool2)), j)),
                }
            } else {
                None
            }
        } else {
            None
        }
    }
}

/// The country section: empire entries until the section's closing brace.
pub open spec fn gs_country_section(
    lines: Seq<Seq<u8>>,
    i: int,
    empires: Seq<EmpireV>,
    pool: Seq<PlanetV>,
) -> Option<((Seq<EmpireV>, Seq<PlanetV>), int)>
    decreases lines.len() - i,
{
    if i < 0 || i > lines.len() {
        None
    } else {
        match gs_empire_new(lines, i, pool) {
            None => None,
            Some((opt, j)) => match opt {
                None => Some(((empires, pool), j)),
                Some((emp, pool2)) => {
                    if i < j <= lines.len() {
                        gs_country_section(lines, j, empires.push(emp), pool2)
                    } else {
                        None
                    }
                },
            },
        }
    }
}

/// Reads the space-separated planet ids of an `owned_planets` body.
fn read_owned_list(body: &Vec<u8>) -> (r: Result<Vec<usize>, ParseError>)
    ensures
        match owned_list(body@, Seq::empty()) {
            Some(ids) => r is Ok && r->Ok_0@ == ids,
            None => r is Err,
        },
{
    let mut acc: Vec<usize> = Vec::new();
    let mut rem = slice_of(body, 0, body.len());
    proof {
        assert(acc@ =~= Seq::<usize>::empty());
        assert(rem@ =~= body@);
    }
    loop
        invariant
            owned_list(body@, Seq::empty()) == owned_list(rem@, acc@),
        decreases rem@.len(),
    {
        proof {
            lemma_find_byte_bounds(rem@, ' ' as u8);
        }
        let k = find_byte_at(&rem, ' ' as u8);
        let tok = slice_of(&rem, 0, k);
        let v = match parser(&tok) {
            Ok(v) => v,
            Err(e) => {
                return Err(e);
            },
        };
        acc.push(v);
        if k == rem.len() {
            return Ok(acc);
        }
        let next = slice_of(&rem, k + 1, rem.len());
        rem = next;
    }
}

impl Empire {
    /// An empire with no fields set.
    pub fn newe() -> (e: Empire)
        ensures
            e@ == empire_default(usize::MAX),
    {
        let e = Empire {
            id: usize::MAX,
            name: Vec::new(),
            adjective: Vec::new(),
            planets: Vec::new(),
            ethics: None,
            color: Colors { c0: None, c1: None, c2: None, c3: None },
        };
        proof {
            assert(e@ =~~= empire_default(usize::MAX));
        }
        e
    }

    /// Reads one empire entry, claiming its owned planets out of the pool;
    /// yields nothing at the section's closing brace.
    #[verifier::rlimit(100)]
    #[verifier::spinoff_prover]
    pub fn new(lines: &Vec<Vec<u8>>, start: usize, plan: &mut Vec<Planet>) -> (r: Result<
        (Option<Empire>, usize),
        ParseError,
    >)
        ensures
            match gs_empire_new(lines.deep_view(), start as int, old(plan).deep_view()) {
                None => r is Err,
                Some((opt, j)) => r is Ok && r->Ok_0.1 == j && (match opt {
                    None => r->Ok_0.0 is None
                        && final(plan).deep_view() == old(plan).deep_view(),
                    Some((emp, pool2)) => r->Ok_0.0 is Some && r->Ok_0.0->Some_0@ == emp
                        && final(plan).deep_view() == pool2,
                }),
            },
    {
        let ghost lv = lines.deep_view();
        if start >= lines.len() {
            return Err(ParseError::new(Section::Country, Vec::new()));
        }
        proof {
            assert(lv[start as int] == lines@[start as int]@);
        }
        if bytes_eq(&lines[start], &crate::text::mk_close_brace()) {
            return Ok((None, start + 1));
        }
        let l = &lines[start];
        if l.len() < 3 {
            return Err(ParseError::new(Section::Country, slice_of(l, 0, l.len())));
        }
        let ds = slice_of(l, 1, l.len() - 2);
        let id = match parser(&ds) {
            Ok(v) => v,
            Err(e) => {
                return Err(e);
            },
        };
        let mut cur = Empire {
            id,
            name: Vec::new(),
            adjective: Vec::new(),
            planets: Vec::new(),
            ethics: None,
            color: Colors { c0: None, c1: None, c2: None, c3: None },
        };
        proof {
            assert(cur@ =~~= empire_default(id));
        }
        let mut i: usize = start + 1;
        loop
            invariant
                start + 1 <= i,
                lv == lines.deep_view(),
                (start as int) < lv.len(),
                lv[start as int] != crate::text::lit_close_brace(),
                lv[start as int].len() >= 3,
                ({
                    let ds2 = lv[start as int].subrange(1, lv[start as int].len() - 2);
                    ds2.len() > 0 && all_digits(ds2) && dec_val(ds2) <= usize::MAX && dec_val(ds2)
                        == id
                }),
                gs_empire_fields(lv, start + 1, empire_default(id), old(plan).deep_view())
                    == gs_empire_fields(lv, i as int, cur@, plan.deep_view()),
            decreases lv.len() - i,
        {
            if i >= lines.len() {
                return Ok((Some(cur), i));
            }
            proof {
                assert(lv[i as int] == lines@[i as int]@);
            }
            let l2 = &lines[i];
            if bytes_eq(l2, &crate::text::mk_close1()) {
                return Ok((Some(cur), i + 1));
            }
            if l2.len() >= 8 {
                let p = slice_of(l2, 2, 8);
                if bytes_eq(&p, &crate::text::mk_p_color()) {
                    if lines.len() < 5 || i > lines.len() - 5 || lines[i + 1].len() < 6 || lines[i
                        + 2].len() < 6 || lines[i + 3].len() < 6 || lines[i + 4].len() < 6 {
                        return Err(ParseError::new(Section::Country, Vec::new()));
                    }
                    proof {
                        assert(lv[i + 1] == lines@[i + 1]@);
                        assert(lv[i + 2] == lines@[i + 2]@);
                        assert(lv[i + 3] == lines@[i + 3]@);
                        assert(lv[i + 4] == lines@[i + 4]@);
                    }
                    let t0 = slice_of(&lines[i + 1], 5, lines[i + 1].len() - 1);
                    let t1 = slice_of(&lines[i + 2], 5, lines[i + 2].len() - 1);
                    let t2 = slice_of(&lines[i + 3], 5, lines[i + 3].len() - 1);
                    let t3 = slice_of(&lines[i + 4], 5, lines[i + 4].len() - 1);
                    cur.color = Colors {
                        c0: str_to_color(&t0),
                        c1: str_to_color(&t1),
                        c2: str_to_color(&t2),
                        c3: str_to_color(&t3),
                    };
                    i = i + 5;
                } else if bytes_eq(&p, &crate::text::mk_p_namq()) {
                    if l2.len() < 9 {
                        return Err(ParseError::new(Section::Country, slice_of(l2, 0, l2.len())));
                    }
                    cur.name = slice_of(l2, 8, l2.len() - 1);
                    i = i + 1;
                } else if bytes_eq(&p, &crate::text::mk_p_adject()) {
                    if l2.len() < 14 {
                        return Err(ParseError::new(Section::Country, slice_of(l2, 0, l2.len())));
                    }
                    cur.adjective = slice_of(l2, 13, l2.len() - 1);
                    i = i + 1;
                } else if bytes_eq(&p, &crate::text::mk_p_ethos()) {
                    let (t, j) = match read_ethos(lines, i + 1) {
                        Ok(v) => v,
                        Err(e) => {
                            return Err(e);
                        },
                    };
                    if !(j > i && j <= lines.len()) {
                        return Err(ParseError::new(Section::Country, Vec::new()));
                    }
                    cur.ethics = Some(t);
                    i = j;
                } else if bytes_eq(&p, &crate::text::mk_p_owned()) {
                    if i + 1 >= lines.len() || lines[i + 1].len() < 4 {
                        proof {
                            if i + 1 < lv.len() {
                                assert(lv[i + 1] == lines@[i + 1]@);
                            }
                        }
                        return Err(ParseError::new(Section::Country, Vec::new()));
                    }
                    proof {
                        assert(lv[i + 1] == lines@[i + 1]@);
                    }
                    let body = slice_of(&lines[i + 1], 3, lines[i + 1].len() - 1);
                    let ids = match read_owned_list(&body) {
                        Ok(v) => v,
                        Err(e) => {
                            return Err(e);
                        },
                    };
                    let ghost idsv = ids@;
                    let ghost pool0 = plan.deep_view();
                    let ghost base = cur@.planets;
                    let ghost cur0 = cur@;
                    proof {
                        assert(idsv.subrange(0, idsv.len() as int) =~= idsv);
                    }
                    let mut k: usize = 0;
                    while k < ids.len()
                        invariant
                            0 <= k <= ids@.len(),
                            idsv == ids@,
                            cur@ == (EmpireV { planets: cur@.planets, ..cur0 }),
                            claim_planets(idsv, pool0, base) == claim_planets(
                                idsv.subrange(k as int, idsv.len() as int),
                                plan.deep_view(),
                                cur@.planets,
                            ),
                        decreases ids@.len() - k,
                    {
                        let ghost rem = idsv.subrange(k as int, idsv.len() as int);
                        proof {
                            assert(rem[0] == idsv[k as int]);
                            assert(rem.drop_first() =~= idsv.subrange(
                                k + 1 as int,
                                idsv.len() as int,
                            ));
                        }
                        match planet_pool_remove(plan, ids[k]) {
                            Some(pl) => {
                                let ghost pre = cur@.planets;
                                cur.planets.push(pl);
                                proof {
                                    assert(cur@.planets =~~= pre.push(pl@));
                                }
                            },
                            None => {},
                        }
                        k = k + 1;
                    }
                    proof {
                        assert(idsv.subrange(idsv.len() as int, idsv.len() as int)
                            =~= Seq::<usize>::empty());
                        assert(cur@ =~~= (EmpireV {
                            planets: claim_planets(idsv, pool0, base).0,
                            ..cur0
                        }));
                        assert(plan.deep_view() == claim_planets(idsv, pool0, base).1);
                    }
                    i = i + 2;
                } else {
                    i = i + 1;
                }
            } else {
                i = i + 1;
            }
        }
    }
}

/// Reads the ethic sub-block of an empire entry.
pub fn read_ethos(lines: &Vec<Vec<u8>>, start: usize) -> (r: Result<
    (EthicTriple, usize),
    ParseError,
>)
    ensures
        match gs_ethos(lines.deep_view(), start as int, 0, gestalt_triple()) {
            Some((t, j)) => r is Ok && r->Ok_0.0@ == t && r->Ok_0.1 == j,
            None => r is Err,
        },
{
    let ghost lv = lines.deep_view();
    let mut t = EthicTriple { e0: Ethic::Gestalt, e1: Ethic::Gestalt, e2: Ethic::Gestalt };
    proof {
        assert(t@ =~~= gestalt_triple());
    }
    let mut cnt: usize = 0;
    let mut i: usize = start;
    loop
        invariant
            start <= i,
            lv == lines.deep_view(),
            0 <= cnt <= 2,
            gs_ethos(lv, start as int, 0, gestalt_triple()) == gs_ethos(lv, i as int, cnt as int, t@),
        decreases lv.len() - i,
    {
        if i >= lines.len() {
            return Ok((t, i));
        }
        proof {
            assert(lv[i as int] == lines@[i as int]@);
        }
        let l = &lines[i];
        if bytes_eq(l, &crate::text::mk_close2()) {
            let e1c = t.e1.duplicate();
            let ghost tv = t@;
            t.e2 = e1c;
            proof {
                assert(t.e1@ == tv.e1);
                assert(t@ =~~= (EthicTripleV { e2: tv.e1, ..tv }));
            }
            return Ok((t, i + 1));
        }
        if l.len() < 11 {
            return Err(ParseError::new(Section::Country, slice_of(l, 0, l.len())));
        }
        let is_fanatic = l.len() >= 23 && {
            let fw = slice_of(l, 16, 23);
            bytes_eq(&fw, &crate::text::mk_fanatic_w())
        };
        if is_fanatic {
            if l.len() < 25 {
                return Err(ParseError::new(Section::Country, slice_of(l, 0, l.len())));
            }
            let mut tok = crate::text::mk_slug_prefix();
            let tail2 = slice_of(l, 24, l.len() - 1);
            crate::text::append(&mut tok, &tail2);
            let e = Ethic::str_to_ethic(&tok);
            if cnt == 0 {
                let e2c = e.duplicate();
                let ghost ev = e@;
                let ghost tv = t@;
                t.e0 = e2c;
                t.e1 = e;
                proof {
                    assert(t@ =~~= (EthicTripleV { e0: ev, e1: ev, ..tv }));
                }
                cnt = 2;
                i = i + 1;
            } else if cnt == 1 {
                let e2c = e.duplicate();
                let ghost ev = e@;
                let ghost tv = t@;
                t.e1 = e2c;
                t.e2 = e;
                proof {
                    assert(t@ =~~= (EthicTripleV { e1: ev, e2: ev, ..tv }));
                }
                return Ok((t, i + 1));
            } else {
                return Err(ParseError::new(Section::Country, slice_of(l, 0, l.len())));
            }
        } else {
            let tok = slice_of(l, 10, l.len() - 1);
            let e = Ethic::str_to_ethic(&tok);
            let gestalt = matches!(e, Ethic::Gestalt);
            let ghost ev = e@;
            let ghost tv = t@;
            if cnt == 0 {
                t.e0 = e;
            } else if cnt == 1 {
                t.e1 = e;
            } else {
                t.e2 = e;
            }
            proof {
                assert(t@ =~~= triple_set(tv, cnt as int, ev));
            }
            if gestalt {
                return Ok((t, i + 1));
            }
            if cnt == 2 {
                return Ok((t, i + 1));
            }
            cnt = cnt + 1;
            i = i + 1;
        }
    }
}

/// Reads the country section, appending each empire to the snapshot.
pub fn empire_analyser(
    lines: &Vec<Vec<u8>>,
    start: usize,
    inp: &mut Galaxy,
    plan: &mut Vec<Planet>,
) -> (r: Result<usize, ParseError>)
    ensures
        match gs_country_section(
            lines.deep_view(),
            start as int,
            old(inp)@.empires,
            old(plan).deep_view(),
        ) {
            Some(((es, pl), j)) => r is Ok && r->Ok_0 == j && final(inp)@ == (GalaxyV {
                empires: es,
                ..old(inp)@
            }) && final(plan).deep_view() == pl,
            None => r is Err,
        },
{
    let ghost lv = lines.deep_view();
    let mut i: usize = start;
    loop
        invariant
            start <= i,
            lv == lines.deep_view(),
            inp.maxc == old(inp).maxc,
            inp.date == old(inp).date,
            inp.species == old(inp).species,
            inp.obj == old(inp).obj,
            gs_country_section(lv, start as int, old(inp)@.empires, old(plan).deep_view())
                == gs_country_section(lv, i as int, inp@.empires, plan.deep_view()),
        decreases lv.len() + 1 - i,
    {
        if i > lines.len() {
            return Err(ParseError::new(Section::Country, Vec::new()));
        }
        let (opt, j) = match Empire::new(lines, i, plan) {
            Ok(v) => v,
            Err(e) => {
                return Err(e);
            },
        };
        match opt {
            None => {
                proof {
                    assert(final(inp)@ =~~= (GalaxyV { empires: inp@.empires, ..old(inp)@ }));
                }
                return Ok(j);
            },
            Some(emp) => {
                if !(j > i && j <= lines.len()) {
                    return Err(ParseError::new(Section::Country, Vec::new()));
                }
                let ghost pre = inp@.empires;
                inp.empires.push(emp);
                proof {
                    assert(inp@.empires =~~= pre.push(emp@));
                }
                i = j;
            },
        }
    }
}


// ------------------------------------------------------------------
// Whole-gamestate parse
// ------------------------------------------------------------------

/// The state the top-level section dispatch threads through: the entity
/// lists collected so far and the two transient pools.
#[verifier::ext_equal]
pub struct GsStateV {
    pub species: Seq<SpeciesV>,
    pub empires: Seq<EmpireV>,
    pub pops: Seq<PoolEntryV>,
    pub planets: Seq<PlanetV>,
    pub objs: Seq<GalObjectV>,
}

/// The state before any section has been read.
pub open spec fn gs_state_empty() -> GsStateV {
    GsStateV {
        species: Seq::empty(),
        empires: Seq::empty(),
        pops: Seq::empty(),
        planets: Seq::empty(),
        objs: Seq::empty(),
    }
}

/// The top-level line dispatch: each recognized section opener hands the
/// cursor to its section parser; unrecognized top-level lines are skipped.
#[verifier::opaque]
pub open spec fn gs_top(lines: Seq<Seq<u8>>, i: int, st: GsStateV) -> Option<GsStateV>
    decreases lines.len() - i,
{
    if i < 0 || i >= lines.len() {
        Some(st)
    } else {
        let l = lines[i];
        if l == crate::text::lit_gs_species() {
            match gs_species_list(lines, i + 1, st.species) {
                None => None,
                Some((ss, j)) => {
                    if i < j <= lines.len() {
                        gs_top(lines, j, GsStateV { species: ss, ..st })
                    } else {
                        None
                    }
                },
            }
        } else if l == crate::text::lit_gs_pop() {
            match gs_pop_section(lines, i + 1, Seq::empty()) {
                None => None,
                Some((pl, j)) => {
                    if i < j <= lines.len() {
                        gs_top(lines, j, GsStateV { pops: pl, ..st })
                    } else {
                        None
                    }
                },
            }
        } else if l == crate::text::lit_gs_galobj() {
            match gs_obj_section(lines, i + 1, Seq::empty()) {
                None => None,
                Some((os, j)) => {
                    if i < j <= lines.len() {
                        gs_top(lines, j, GsStateV { objs: os, ..st })
                    } else {
                        None
                    }
                },
            }
        } else if l == crate::text::lit_gs_planet() {
            match gs_planet_section(lines, i + 1, Seq::empty(), st.pops) {
                None => None,
                Some(((pl, pp), j)) => {
                    if i < j <= lines.len() {
                        gs_top(lines, j, GsStateV { planets: pl, pops: pp, ..st })
                    } else {
                        None
                    }
                },
            }
        } else if l == crate::text::lit_gs_country() {
            match gs_country_section(lines, i + 1, st.empires, st.planets) {
                None => None,
                Some(((es, pl), j)) => {
                    if i < j <= lines.len() {
                        gs_top(lines, j, GsStateV { empires: es, planets: pl, ..st })
                    } else {
                        None
                    }
                },
            }
        } else {
            gs_top(lines, i + 1, st)
        }
    }
}

/// True when some empire owns a planet with the given id.
pub open spec fn owns(es: Seq<EmpireV>, pid: usize) -> bool {
    exists|e: int, k: int|
        0 <= e < es.len() && 0 <= k < es[e].planets.len() && (#[trigger] es[e].planets[k]).id
            == pid
}

/// The planet ids that survived into some empire, kept in order.
pub open spec fn keep_owned(pids: Seq<usize>, es: Seq<EmpireV>) -> Seq<usize>
    decreases pids.len(),
{
    if pids.len() == 0 {
        Seq::empty()
    } else {
        keep_owned(pids.drop_last(), es) + (if owns(es, pids.last()) {
            seq![pids.last()]
        } else {
            Seq::empty()
        })
    }
}

/// Prunes every object's planet list to the ids owned by some empire.
pub open spec fn prune_objs(objs: Seq<GalObjectV>, es: Seq<EmpireV>) -> Seq<GalObjectV> {
    objs.map_values(|o: GalObjectV| GalObjectV { planets: keep_owned(o.planets, es), ..o })
}

/// The snapshot one whole gamestate text parses to: the dated header, then
/// the sections in file order, then the orphan pruning of object planet
/// lists against empire-owned planets.
pub open spec fn gs_parse(lines: Seq<Seq<u8>>) -> Option<GalaxyV> {
    if lines.len() < 4 {
        None
    } else {
        match crate::dates::header_date_of(lines[3]) {
            None => None,
            Some(d) => {
                if !(0 <= d <= usize::MAX) {
                    None
                } else {
                    match gs_top(lines, 4, gs_state_empty()) {
                        None => None,
                        Some(st) => Some(
                            GalaxyV {
                                maxc: crate::cache::zero_bounds(),
                                date: d as usize,
                                empires: st.empires,
                                species: st.species,
                                obj: prune_objs(st.objs, st.empires),
                            },
                        ),
                    }
                }
            },
        }
    }
}

/// Checks whether some empire owns a planet with the given id.
fn owns_check(empires: &Vec<Empire>, pid: usize) -> (r: bool)
    ensures
        r == owns(empires.deep_view(), pid),
{
    let ghost ev = empires.deep_view();
    let mut e: usize = 0;
    while e < empires.len()
        invariant
            0 <= e <= empires@.len(),
            ev == empires.deep_view(),
            ev.len() == empires@.len(),
            forall|e2: int, k2: int|
                0 <= e2 < e && 0 <= k2 < ev[e2].planets.len() ==> (
                #[trigger] ev[e2].planets[k2]).id != pid,
        decreases empires@.len() - e,
    {
        let emp = &empires[e];
        proof {
            assert(emp@ == ev[e as int]);
        }
        let mut k: usize = 0;
        while k < emp.planets.len()
            invariant
                0 <= k <= emp.planets@.len(),
                ev == empires.deep_view(),
                emp@ == ev[e as int],
                (e as int) < ev.len(),
                emp.planets.deep_view() == ev[e as int].planets,
                emp.planets.deep_view().len() == emp.planets@.len(),
                forall|k2: int|
                    0 <= k2 < k ==> (#[trigger] ev[e as int].planets[k2]).id != pid,
            decreases emp.planets@.len() - k,
        {
            proof {
                assert(emp.planets@[k as int]@ == ev[e as int].planets[k as int]);
            }
            if emp.planets[k].id == pid {
                proof {
                    assert(emp.planets@[k as int]@ == ev[e as int].planets[k as int]);
                    assert(ev[e as int].planets[k as int].id == pid);
                    assert(owns(ev, pid));
                }
                return true;
            }
            k = k + 1;
        }
        e = e + 1;
    }
    false
}

/// Prunes one object's planet list against the parsed empires.
fn prune_one(pids: &Vec<usize>, empires: &Vec<Empire>) -> (r: Vec<usize>)
    ensures
        r@ == keep_owned(pids@, empires.deep_view()),
{
    let mut acc: Vec<usize> = Vec::new();
    let mut k: usize = 0;
    proof {
        assert(pids@.subrange(0, 0) =~= Seq::<usize>::empty());
        assert(acc@ =~= keep_owned(pids@.subrange(0, 0), empires.deep_view()));
    }
    while k < pids.len()
        invariant
            0 <= k <= pids@.len(),
            acc@ == keep_owned(pids@.subrange(0, k as int), empires.deep_view()),
        decreases pids@.len() - k,
    {
        let ghost pre = pids@.subrange(0, k as int);
        if owns_check(empires, pids[k]) {
            acc.push(pids[k]);
        }
        proof {
            let t = pids@.subrange(0, k + 1);
            assert(t.drop_last() =~= pre);
            assert(t.last() == pids@[k as int]);
        }
        k = k + 1;
    }
    proof {
        assert(pids@.subrange(0, pids@.len() as int) =~= pids@);
    }
    acc
}


/// Handles one top-level gamestate line: dispatches a recognized section
/// opener to its section parser, skips anything else.
#[verifier::rlimit(100)]
#[verifier::spinoff_prover]
fn step_dispatch(
    lines: &Vec<Vec<u8>>,
    i: usize,
    ret: &mut Galaxy,
    pops: &mut Vec<PoolEntry>,
    planets: &mut Vec<Planet>,
    temp: &mut Vec<GalObject>,
) -> (r: Result<usize, ParseError>)
    requires
        (i as int) < lines.deep_view().len(),
    ensures
        ({
            let lv = lines.deep_view();
            let st0 = GsStateV {
                species: old(ret)@.species,
                empires: old(ret)@.empires,
                pops: old(pops).deep_view(),
                planets: old(planets).deep_view(),
                objs: old(temp).deep_view(),
            };
            let st1 = GsStateV {
                species: final(ret)@.species,
                empires: final(ret)@.empires,
                pops: final(pops).deep_view(),
                planets: final(planets).deep_view(),
                objs: final(temp).deep_view(),
            };
            match r {
                Ok(j) => i < j <= lv.len() && gs_top(lv, i as int, st0) == gs_top(
                    lv,
                    j as int,
                    st1,
                ) && final(ret)@ == (GalaxyV {
                    species: final(ret)@.species,
                    empires: final(ret)@.empires,
                    ..old(ret)@
                }),
                Err(_) => gs_top(lv, i as int, st0) is None,
            }
        }),
{
    let ghost lv = lines.deep_view();
    let ghost st_pre = GsStateV {
        species: ret@.species,
        empires: ret@.empires,
        pops: pops.deep_view(),
        planets: planets.deep_view(),
        objs: temp.deep_view(),
    };
    let n = lines.len();
    proof {
        assert(lv.len() == lines@.len());
        assert((i as int) < n);
        assert(lv[i as int] == lines@[i as int]@);
    }
    let l = &lines[i];
    if bytes_eq(l, &crate::text::mk_gs_species()) {
        let j = match ret.get_species(lines, i + 1) {
            Ok(v) => v,
            Err(e) => {
                proof {
                    reveal(gs_top);
                }
                return Err(e);
            },
        };
        if !(j > i && j <= lines.len()) {
            proof {
                reveal(gs_top);
            }
            return Err(ParseError::new(Section::Species, Vec::new()));
        }
        proof {
            reveal(gs_top);
            assert(gs_top(lv, i as int, st_pre) == gs_top(
                lv,
                j as int,
                GsStateV { species: ret@.species, ..st_pre },
            ));
            assert(GsStateV { species: ret@.species, ..st_pre } =~~= GsStateV {
                species: ret@.species,
                empires: ret@.empires,
                pops: pops.deep_view(),
                planets: planets.deep_view(),
                objs: temp.deep_view(),
            });
        }
        Ok(j)
    } else if bytes_eq(l, &crate::text::mk_gs_pop()) {
        let (pl, j) = match pop_analyser(lines, i + 1) {
            Ok(v) => v,
            Err(e) => {
                proof {
                    reveal(gs_top);
                }
                return Err(e);
            },
        };
        if !(j > i && j <= lines.len()) {
            proof {
                reveal(gs_top);
            }
            return Err(ParseError::new(Section::Pop, Vec::new()));
        }
        *pops = pl;
        proof {
            reveal(gs_top);
            assert(gs_top(lv, i as int, st_pre) == gs_top(
                lv,
                j as int,
                GsStateV { pops: pops.deep_view(), ..st_pre },
            ));
            assert(GsStateV { pops: pops.deep_view(), ..st_pre } =~~= GsStateV {
                species: ret@.species,
                empires: ret@.empires,
                pops: pops.deep_view(),
                planets: planets.deep_view(),
                objs: temp.deep_view(),
            });
        }
        Ok(j)
    } else if bytes_eq(l, &crate::text::mk_gs_galobj()) {
        let (os, j) = match gal_obj_analyser(lines, i + 1) {
            Ok(v) => v,
            Err(e) => {
                proof {
                    reveal(gs_top);
                }
                return Err(e);
            },
        };
        if !(j > i && j <= lines.len()) {
            proof {
                reveal(gs_top);
            }
            return Err(ParseError::new(Section::GalacticObject, Vec::new()));
        }
        *temp = os;
        proof {
            reveal(gs_top);
            assert(gs_top(lv, i as int, st_pre) == gs_top(
                lv,
                j as int,
                GsStateV { objs: temp.deep_view(), ..st_pre },
            ));
            assert(GsStateV { objs: temp.deep_view(), ..st_pre } =~~= GsStateV {
                species: ret@.species,
                empires: ret@.empires,
                pops: pops.deep_view(),
                planets: planets.deep_view(),
                objs: temp.deep_view(),
            });
        }
        Ok(j)
    } else if bytes_eq(l, &crate::text::mk_gs_planet()) {
        let (pl, j) = match planet_analyser(lines, i + 1, pops) {
            Ok(v) => v,
            Err(e) => {
                proof {
                    reveal(gs_top);
                }
                return Err(e);
            },
        };
        if !(j > i && j <= lines.len()) {
            proof {
                reveal(gs_top);
            }
            return Err(ParseError::new(Section::Planet, Vec::new()));
        }
        *planets = pl;
        proof {
            reveal(gs_top);
            assert(gs_top(lv, i as int, st_pre) == gs_top(
                lv,
                j as int,
                GsStateV { planets: planets.deep_view(), pops: pops.deep_view(), ..st_pre },
            ));
            assert(GsStateV {
                planets: planets.deep_view(),
                pops: pops.deep_view(),
                ..st_pre
            } =~~= GsStateV {
                species: ret@.species,
                empires: ret@.empires,
                pops: pops.deep_view(),
                planets: planets.deep_view(),
                objs: temp.deep_view(),
            });
        }
        Ok(j)
    } else if bytes_eq(l, &crate::text::mk_gs_country()) {
        let j = match empire_analyser(lines, i + 1, ret, planets) {
            Ok(v) => v,
            Err(e) => {
                proof {
                    reveal(gs_top);
                }
                return Err(e);
            },
        };
        if !(j > i && j <= lines.len()) {
            proof {
                reveal(gs_top);
            }
            return Err(ParseError::new(Section::Country, Vec::new()));
        }
        proof {
            reveal(gs_top);
            assert(gs_top(lv, i as int, st_pre) == gs_top(
                lv,
                j as int,
                GsStateV { empires: ret@.empires, planets: planets.deep_view(), ..st_pre },
            ));
            assert(GsStateV {
                empires: ret@.empires,
                planets: planets.deep_view(),
                ..st_pre
            } =~~= GsStateV {
                species: ret@.species,
                empires: ret@.empires,
                pops: pops.deep_view(),
                planets: planets.deep_view(),
                objs: temp.deep_view(),
            });
        }
        Ok(j)
    } else {
        proof {
            reveal(gs_top);
            assert(gs_top(lv, i as int, st_pre) == gs_top(lv, i + 1, st_pre));
        }
        Ok(i + 1)
    }
}

/// Parses one whole gamestate text against the store: a snapshot whose
/// header date is already stored is discarded without further parsing;
/// otherwise the parsed snapshot is returned for insertion.
#[verifier::rlimit(100)]
#[verifier::spinoff_prover]
pub fn save_analyser(file: &Vec<u8>, cmp: &crate::store::Everything) -> (r: Result<
    Option<Galaxy>,
    ParseError,
>)
    ensures
        ({
            let lines = crate::cache::split_lines_spec(file@);
            if lines.len() < 4 {
                r is Err
            } else {
                match crate::dates::header_date_of(lines[3]) {
                    None => r is Err,
                    Some(d) => {
                        if 0 <= d <= usize::MAX && crate::store::has_date(cmp@, d as usize) {
                            r is Ok && r->Ok_0 is None
                        } else {
                            match gs_parse(lines) {
                                Some(g) => r is Ok && r->Ok_0 is Some && r->Ok_0->Some_0@ == g,
                                None => r is Err,
                            }
                        }
                    },
                }
            }
        }),
{
    let lines = crate::cache::split_lines(file);
    let ghost lv = lines.deep_view();
    if lines.len() < 4 {
        return Err(ParseError::new(Section::Header, Vec::new()));
    }
    proof {
        assert(lv[3] == lines@[3]@);
    }
    let date = match crate::dates::setdate(&lines[3]) {
        Ok(v) => v,
        Err(e) => {
            return Err(e);
        },
    };
    if cmp.contains_date(date) {
        return Ok(None);
    }
    let mut ret = Galaxy::new();
    ret.date = date;
    let mut pops: Vec<PoolEntry> = Vec::new();
    let mut planets: Vec<Planet> = Vec::new();
    let mut temp: Vec<GalObject> = Vec::new();
    let mut i: usize = 4;
    proof {
        assert(GsStateV {
            species: ret@.species,
            empires: ret@.empires,
            pops: pops.deep_view(),
            planets: planets.deep_view(),
            objs: temp.deep_view(),
        } =~~= gs_state_empty());
    }
    loop
        invariant
            4 <= i,
            lv == lines.deep_view(),
            lv == crate::cache::split_lines_spec(file@),
            lv.len() >= 4,
            crate::dates::header_date_of(lv[3]) == Some(date as int),
            !crate::store::has_date(cmp@, date),
            ret.maxc == (crate::model::Bounds { min_x: 0i64, max_x: 0i64, min_y: 0i64, max_y: 0i64 }),
            ret.date == date,
            ret@.obj =~= Seq::<GalObjectV>::empty(),
            gs_top(lv, 4, gs_state_empty()) == gs_top(
                lv,
                i as int,
                GsStateV {
                    species: ret@.species,
                    empires: ret@.empires,
                    pops: pops.deep_view(),
                    planets: planets.deep_view(),
                    objs: temp.deep_view(),
                },
            ),
        ensures
            i >= lv.len(),
            lv == lines.deep_view(),
            lv == crate::cache::split_lines_spec(file@),
            lv.len() >= 4,
            crate::dates::header_date_of(lv[3]) == Some(date as int),
            !crate::store::has_date(cmp@, date),
            ret.maxc == (crate::model::Bounds { min_x: 0i64, max_x: 0i64, min_y: 0i64, max_y: 0i64 }),
            ret.date == date,
            ret@.obj =~= Seq::<GalObjectV>::empty(),
            gs_top(lv, 4, gs_state_empty()) == gs_top(
                lv,
                i as int,
                GsStateV {
                    species: ret@.species,
                    empires: ret@.empires,
                    pops: pops.deep_view(),
                    planets: planets.deep_view(),
                    objs: temp.deep_view(),
                },
            ),
        decreases lv.len() - i,
    {
        if i >= lines.len() {
            break ;
        }
        let j = match step_dispatch(&lines, i, &mut ret, &mut pops, &mut planets, &mut temp) {
            Ok(v) => v,
            Err(e) => {
                return Err(e);
            },
        };
        i = j;
    }
    let ghost st = GsStateV {
        species: ret@.species,
        empires: ret@.empires,
        pops: pops.deep_view(),
        planets: planets.deep_view(),
        objs: temp.deep_view(),
    };
    let mut pruned: Vec<GalObject> = Vec::new();
    let mut k: usize = 0;
    proof {
        assert(pruned.deep_view() =~= prune_objs(temp.deep_view().subrange(0, 0), st.empires));
    }
    while k < temp.len()
        invariant
            0 <= k <= temp@.len(),
            st.objs == temp.deep_view(),
            st.empires == ret@.empires,
            temp.deep_view().len() == temp@.len(),
            ret.empires@.len() >= 0,
            pruned.deep_view() == prune_objs(
                temp.deep_view().subrange(0, k as int),
                ret.empires.deep_view(),
            ),
        decreases temp@.len() - k,
    {
        let o = &temp[k];
        proof {
            assert(o@ == temp.deep_view()[k as int]);
        }
        let np = prune_one(&o.planets, &ret.empires);
        let no = GalObject {
            id: o.id,
            x: o.x,
            y: o.y,
            typ: crate::text::slice_of(&o.typ, 0, o.typ.len()),
            name: crate::text::slice_of(&o.name, 0, o.name.len()),
            planets: np,
        };
        let ghost pre = pruned.deep_view();
        pruned.push(no);
        proof {
            assert(no@ =~~= (GalObjectV {
                planets: keep_owned(temp.deep_view()[k as int].planets, ret.empires.deep_view()),
                ..temp.deep_view()[k as int]
            }));
            assert(pruned.deep_view() =~~= pre.push(no@));
            assert(prune_objs(temp.deep_view().subrange(0, k + 1), ret.empires.deep_view())
                =~~= pre.push(no@)) by {
                assert(temp.deep_view().subrange(0, k + 1) =~= temp.deep_view().subrange(
                    0,
                    k as int,
                ).push(temp.deep_view()[k as int]));
            }
        }
        k = k + 1;
    }
    proof {
        assert(temp.deep_view().subrange(0, temp.deep_view().len() as int) =~= temp.deep_view());
    }
    proof {
        reveal(gs_top);
        assert(gs_top(lv, i as int, st) == Some(st));
        assert(gs_top(lv, 4, gs_state_empty()) == Some(st));
        assert(crate::dates::header_date_of(lv[3]) == Some(date as int));
    }
    ret.push_g(pruned);
    proof {
        reveal(gs_top);
        assert(ret@.obj == prune_objs(st.objs, st.empires));
        assert(gs_parse(lv) is Some);
        assert(ret@ =~~= gs_parse(lv)->Some_0);
    }
    Ok(Some(ret))
}

// ------------------------------------------------------------------
// Laws of the parser
// ------------------------------------------------------------------

/// Fanatic-ethic expansion: a single fanatic token for ethic `E`, closed by
/// the block's closing line, yields the triple `[E, E, E]` — two slots from
/// the expansion and the third copied from the second.
pub proof fn lemma_fanatic_expansion(lines: Seq<Seq<u8>>, i: int, l: Seq<u8>)
    requires
        0 <= i,
        i + 2 <= lines.len(),
        lines[i] == l,
        l.len() >= 25,
        l.subrange(16, 23) == crate::text::lit_fanatic_w(),
        l != crate::text::lit_close2(),
        lines[i + 1] == crate::text::lit_close2(),
    ensures
        ({
            let e = crate::ethic::str_to_ethic_spec(
                crate::text::lit_slug_prefix() + l.subrange(24, l.len() - 1),
            );
            gs_ethos(lines, i, 0, gestalt_triple()) == Some(
                (EthicTripleV { e0: e, e1: e, e2: e }, i + 2),
            )
        }),
{
    let e = crate::ethic::str_to_ethic_spec(
        crate::text::lit_slug_prefix() + l.subrange(24, l.len() - 1),
    );
    let t1 = EthicTripleV { e0: e, e1: e, e2: EthicV::Gestalt };
    assert(gs_ethos(lines, i, 0, gestalt_triple()) == gs_ethos(lines, i + 1, 2, t1));
    assert(gs_ethos(lines, i + 1, 2, t1) == Some((EthicTripleV { e2: t1.e1, ..t1 }, i + 2)));
    assert(EthicTripleV { e2: t1.e1, ..t1 } =~= EthicTripleV { e0: e, e1: e, e2: e });
}

/// Orphan pruning: an id survives an object's pruned planet list exactly
/// when it stood in the list and some empire owns a planet with that id,
/// and the surviving ids keep their order as a subsequence.
pub proof fn lemma_keep_owned_membership(pids: Seq<usize>, es: Seq<EmpireV>)
    ensures
        forall|pid: usize|
            keep_owned(pids, es).contains(pid) <==> (pids.contains(pid) && owns(es, pid)),
    decreases pids.len(),
{
    if pids.len() > 0 {
        lemma_keep_owned_membership(pids.drop_last(), es);
        assert forall|pid: usize|
            keep_owned(pids, es).contains(pid) <==> (pids.contains(pid) && owns(
                es,
                pid,
            )) by {
            let kept = keep_owned(pids, es);
            let kd = keep_owned(pids.drop_last(), es);
            if kept.contains(pid) {
                let m = choose|m: int| 0 <= m < kept.len() && kept[m] == pid;
                if m < kd.len() {
                    assert(kd.contains(pid));
                    assert(pids.drop_last().contains(pid));
                    let w = choose|w: int|
                        0 <= w < pids.drop_last().len() && pids.drop_last()[w] == pid;
                    assert(pids[w] == pid);
                } else {
                    assert(owns(es, pids.last()));
                    assert(pids[pids.len() - 1] == pid);
                }
            }
            if pids.contains(pid) && owns(es, pid) {
                let w = choose|w: int| 0 <= w < pids.len() && pids[w] == pid;
                if w < pids.len() - 1 {
                    assert(pids.drop_last()[w] == pid);
                    assert(pids.drop_last().contains(pid));
                    assert(kd.contains(pid));
                    let m = choose|m: int| 0 <= m < kd.len() && kd[m] == pid;
                    assert(kept[m] == pid);
                    assert(kept.contains(pid));
                } else {
                    assert(pids.last() == pid);
                    assert(kept[kept.len() - 1] == pid);
                    assert(kept.contains(pid));
                }
            }
        }
    }
}

/// Unowned planet discard: a pool planet whose id the owned-planets list
/// never references is not claimed — it stays in the leftover pool, and the
/// claimed lists gain no planet with its id.
pub proof fn lemma_unclaimed_planet_stays(
    ids: Seq<usize>,
    pool: Seq<PlanetV>,
    acc: Seq<PlanetV>,
    q: PlanetV,
)
    requires
        pool.contains(q),
        !ids.contains(q.id),
    ensures
        claim_planets(ids, pool, acc).1.contains(q),
        forall|m: int|
            0 <= m < claim_planets(ids, pool, acc).0.len() && (#[trigger] claim_planets(
                ids,
                pool,
                acc,
            ).0[m]).id == q.id ==> acc.contains(claim_planets(ids, pool, acc).0[m]),
    decreases ids.len(),
{
    if ids.len() == 0 {
    } else {
        let rm = ppool_remove(pool, ids[0]);
        lemma_ppool_remove_keeps(pool, ids[0], q);
        let acc2 = match rm.0 {
            Some(p) => acc.push(p),
            None => acc,
        };
        assert(!ids.drop_first().contains(q.id)) by {
            if ids.drop_first().contains(q.id) {
                let w = choose|w: int|
                    0 <= w < ids.drop_first().len() && ids.drop_first()[w] == q.id;
                assert(ids[w + 1] == q.id);
            }
        }
        lemma_unclaimed_planet_stays(ids.drop_first(), rm.1, acc2, q);
        assert forall|m: int|
            0 <= m < claim_planets(ids, pool, acc).0.len() && (#[trigger] claim_planets(
                ids,
                pool,
                acc,
            ).0[m]).id == q.id implies acc.contains(claim_planets(ids, pool, acc).0[m]) by {
            let got = claim_planets(ids, pool, acc).0[m];
            assert(acc2.contains(got));
            match rm.0 {
                Some(p) => {
                    if got == p {
                        lemma_ppool_remove_id(pool, ids[0]);
                        assert(p.id == ids[0]);
                        assert(ids[0] != q.id);
                        assert(false);
                    } else {
                        let w = choose|w: int| 0 <= w < acc2.len() && acc2[w] == got;
                        assert(acc2[w] == acc[w] || w == acc.len());
                        assert(acc.contains(got));
                    }
                },
                None => {},
            }
        }
    }
}

/// Removing one id keeps every other planet in the pool, and the removed
/// planet carries the removed id.
proof fn lemma_ppool_remove_keeps(pool: Seq<PlanetV>, id: usize, q: PlanetV)
    requires
        pool.contains(q),
        q.id != id,
    ensures
        ppool_remove(pool, id).1.contains(q),
    decreases pool.len(),
{
    if pool.len() > 0 {
        if pool[0].id == id {
            let w = choose|w: int| 0 <= w < pool.len() && pool[w] == q;
            assert(w != 0);
            assert(pool.drop_first()[w - 1] == q);
        } else {
            if pool[0] == q {
                assert(ppool_remove(pool, id).1[0] == q);
            } else {
                let w = choose|w: int| 0 <= w < pool.len() && pool[w] == q;
                assert(w != 0);
                assert(pool.drop_first()[w - 1] == q);
                lemma_ppool_remove_keeps(pool.drop_first(), id, q);
                let r1 = ppool_remove(pool.drop_first(), id).1;
                let m = choose|m: int| 0 <= m < r1.len() && r1[m] == q;
                assert(ppool_remove(pool, id).1[m + 1] == q);
            }
        }
    }
}

proof fn lemma_ppool_remove_id(pool: Seq<PlanetV>, id: usize)
    ensures
        ppool_remove(pool, id).0 matches Some(p) ==> p.id == id,
    decreases pool.len(),
{
    if pool.len() > 0 && pool[0].id != id {
        lemma_ppool_remove_id(pool.drop_first(), id);
    }
}

} // verus!
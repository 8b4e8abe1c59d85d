//! The snapshot store: a date-keyed collection of Galaxy snapshots that is
//! rebuilt each run from the cache plus freshly parsed archives, and written
//! back in full.
use crate::cache::{dates_distinct, dec_everything, galaxies_lines, join_lines,
    lemma_galaxies_lines_snoc, lemma_join_concat, split_lines, split_lines_spec, store_put,
    zero_bounds};
use crate::errors::ParseError;
use crate::model::{Bounds, GalObjectV, Galaxy, GalaxyV};
use vstd::prelude::*;

verus! {

/// True when some snapshot in the store carries date `d`.
pub open spec fn has_date(s: Seq<GalaxyV>, d: usize) -> bool {
    exists|k: int| 0 <= k < s.len() && (#[trigger] s[k]).date == d
}

/// Every date a put store holds was there before or is the new one.
proof fn lemma_store_put_dates(s: Seq<GalaxyV>, g: GalaxyV)
    ensures
        forall|k: int|
            0 <= k < store_put(s, g).len() ==> (#[trigger] store_put(s, g)[k]).date == g.date
                || has_date(s, store_put(s, g)[k].date),
        store_put(s, g).len() <= s.len() + 1,
    decreases s.len(),
{
    if s.len() == 0 {
    } else if s[0].date == g.date {
        assert forall|k: int| 0 <= k < store_put(s, g).len() implies (#[trigger] store_put(
            s,
            g,
        )[k]).date == g.date || has_date(s, store_put(s, g)[k].date) by {
            if k > 0 {
                assert(store_put(s, g)[k] == s.drop_first()[k - 1]);
                assert(s.drop_first()[k - 1] == s[k]);
            }
        }
    } else {
        lemma_store_put_dates(s.drop_first(), g);
        assert forall|k: int| 0 <= k < store_put(s, g).len() implies (#[trigger] store_put(
            s,
            g,
        )[k]).date == g.date || has_date(s, store_put(s, g)[k].date) by {
            if k > 0 {
                assert(store_put(s, g)[k] == store_put(s.drop_first(), g)[k - 1]);
                if store_put(s.drop_first(), g)[k - 1].date != g.date {
                    let d = store_put(s.drop_first(), g)[k - 1].date;
                    let j = choose|j: int|
                        0 <= j < s.drop_first().len() && (#[trigger] s.drop_first()[j]).date == d;
                    assert(s[j + 1].date == d);
                }
            }
        }
    }
}

/// Putting a snapshot preserves date uniqueness.
pub proof fn lemma_store_put_distinct(s: Seq<GalaxyV>, g: GalaxyV)
    requires
        dates_distinct(s),
    ensures
        dates_distinct(store_put(s, g)),
    decreases s.len(),
{
    if s.len() == 0 {
    } else if s[0].date == g.date {
        let t = store_put(s, g);
        assert forall|j: int, k: int| 0 <= j < k < t.len() implies (#[trigger] t[j]).date != (
        #[trigger] t[k]).date by {
            if j > 0 {
                assert(t[j] == s[j]);
            }
            assert(t[k] == s[k]);
            if j == 0 {
                assert(s[0].date != s[k].date);
            }
        }
    } else {
        assert(dates_distinct(s.drop_first())) by {
            assert(forall|j: int, k: int|
                0 <= j < k < s.drop_first().len() ==> (#[trigger] s.drop_first()[j]).date != (
                #[trigger] s.drop_first()[k]).date);
        }
        lemma_store_put_distinct(s.drop_first(), g);
        lemma_store_put_dates(s.drop_first(), g);
        let t = store_put(s, g);
        let u = store_put(s.drop_first(), g);
        assert forall|j: int, k: int| 0 <= j < k < t.len() implies (#[trigger] t[j]).date != (
        #[trigger] t[k]).date by {
            if j == 0 {
                assert(t[0] == s[0]);
                assert(t[k] == u[k - 1]);
                if u[k - 1].date == s[0].date {
                    assert(u[k - 1].date != g.date);
                    assert(has_date(s.drop_first(), u[k - 1].date));
                    let m = choose|m: int|
                        0 <= m < s.drop_first().len() && (#[trigger] s.drop_first()[m]).date == u[k
                            - 1].date;
                    assert(s[m + 1].date == s[0].date);
                }
            } else {
                assert(t[j] == u[j - 1]);
                assert(t[k] == u[k - 1]);
            }
        }
    }
}

/// First-match replacement is what `store_put` does.
pub proof fn lemma_store_put_update(s: Seq<GalaxyV>, g: GalaxyV, idx: int)
    requires
        0 <= idx < s.len(),
        s[idx].date == g.date,
        forall|k: int| 0 <= k < idx ==> (#[trigger] s[k]).date != g.date,
    ensures
        store_put(s, g) == s.update(idx, g),
    decreases idx,
{
    if idx == 0 {
        assert(store_put(s, g) =~= s.update(0, g));
    } else {
        assert(s.drop_first()[idx - 1] == s[idx]);
        assert(forall|k: int|
            0 <= k < idx - 1 ==> (#[trigger] s.drop_first()[k]).date != g.date) by {
            assert(forall|k: int| 0 <= k < idx - 1 ==> s.drop_first()[k] == s[k + 1]);
        }
        lemma_store_put_update(s.drop_first(), g, idx - 1);
        assert(store_put(s, g) =~= s.update(idx, g)) by {
            assert(s.drop_first().update(idx - 1, g) =~= s.update(idx, g).drop_first());
        }
    }
}

/// One ingestion step at the store level: a snapshot whose date is already
/// present is discarded whole; otherwise it is appended.
pub open spec fn ingest_step(s: Seq<GalaxyV>, g: GalaxyV) -> Seq<GalaxyV> {
    if has_date(s, g.date) {
        s
    } else {
        s.push(g)
    }
}

/// Idempotent ingestion: after a snapshot is taken in, taking in any
/// snapshot of the same date changes nothing, and the store keeps exactly
/// one entry with that date.
pub proof fn lemma_ingest_idempotent(s: Seq<GalaxyV>, g: GalaxyV, g2: GalaxyV)
    requires
        dates_distinct(s),
        g2.date == g.date,
    ensures
        ingest_step(ingest_step(s, g), g2) == ingest_step(s, g),
        dates_distinct(ingest_step(s, g)),
        has_date(ingest_step(s, g), g.date),
        forall|j: int, k: int|
            0 <= j < k < ingest_step(s, g).len() ==> !((#[trigger] ingest_step(s, g)[j]).date
                == g.date && (#[trigger] ingest_step(s, g)[k]).date == g.date),
{
    let t = ingest_step(s, g);
    if has_date(s, g.date) {
        assert(t == s);
    } else {
        assert(t == s.push(g));
        assert(t[t.len() - 1].date == g.date);
        assert(dates_distinct(t)) by {
            assert forall|j: int, k: int| 0 <= j < k < t.len() implies (#[trigger] t[j]).date != (
            #[trigger] t[k]).date by {
                if k < t.len() - 1 {
                    assert(t[j] == s[j]);
                    assert(t[k] == s[k]);
                } else {
                    assert(t[j] == s[j]);
                    assert(!has_date(s, g.date));
                }
            }
        }
    }
}

/// Extends a bounding box to cover one more object.
pub open spec fn bounds_step(b: Bounds, o: GalObjectV) -> Bounds {
    Bounds {
        min_x: if o.x < b.min_x {
            o.x
        } else {
            b.min_x
        },
        max_x: if o.x > b.max_x {
            o.x
        } else {
            b.max_x
        },
        min_y: if o.y < b.min_y {
            o.y
        } else {
            b.min_y
        },
        max_y: if o.y > b.max_y {
            o.y
        } else {
            b.max_y
        },
    }
}

/// The bounding box of the first `n` objects, grown from the zero box.
pub open spec fn bounds_upto(objs: Seq<GalObjectV>, n: int) -> Bounds
    decreases n,
{
    if n <= 0 {
        zero_bounds()
    } else {
        bounds_step(bounds_upto(objs, n - 1), objs[n - 1])
    }
}

/// The bounding box of a designated snapshot's objects.
pub open spec fn bounds_of(objs: Seq<GalObjectV>) -> Bounds {
    bounds_upto(objs, objs.len() as int)
}

/// The store: at most one snapshot per date, in the order the cache and the
/// ingested archives supplied them.
pub struct Everything {
    pub times: Vec<Galaxy>,
}

impl View for Everything {
    type V = Seq<GalaxyV>;

    open spec fn view(&self) -> Seq<GalaxyV> {
        self.times.deep_view()
    }
}

impl Everything {
    /// The store invariant: no two snapshots share a date.
    pub open spec fn wf(&self) -> bool {
        dates_distinct(self@)
    }

    /// An empty store.
    pub fn new() -> (r: Everything)
        ensures
            r@ =~= Seq::<GalaxyV>::empty(),
            r.wf(),
    {
        Everything { times: Vec::new() }
    }

    /// Inserts a snapshot by date: replaces the entry with the same date,
    /// else appends.
    pub fn push(&mut self, inp: Galaxy)
        requires
            old(self).wf(),
        ensures
            final(self)@ == store_put(old(self)@, inp@),
            final(self).wf(),
    {
        let ghost s0 = self@;
        let mut idx: usize = 0;
        while idx < self.times.len()
            invariant
                0 <= idx <= self.times@.len(),
                self@ == s0,
                s0 == old(self)@,
                dates_distinct(s0),
                s0.len() == self.times@.len(),
                forall|k: int| 0 <= k < idx ==> (#[trigger] s0[k]).date != inp@.date,
            decreases self.times@.len() - idx,
        {
            if self.times[idx].date == inp.date {
                proof {
                    assert(s0[idx as int] == self.times@[idx as int]@);
                }
                let ghost gv = inp@;
                self.times.set(idx, inp);
                proof {
                    assert(self@ =~~= s0.update(idx as int, gv));
                    lemma_store_put_update(s0, gv, idx as int);
                    lemma_store_put_distinct(s0, gv);
                }
                return ;
            }
            proof {
                assert(s0[idx as int] == self.times@[idx as int]@);
            }
            idx = idx + 1;
        }
        let ghost gv = inp@;
        self.times.push(inp);
        proof {
            assert(self@ =~~= s0.push(gv));
            crate::cache::lemma_store_put_append(s0, gv);
            lemma_store_put_distinct(s0, gv);
        }
    }

    /// True when a snapshot with the given date is already stored.
    pub fn contains_date(&self, d: usize) -> (r: bool)
        ensures
            r == has_date(self@, d),
    {
        let mut idx: usize = 0;
        while idx < self.times.len()
            invariant
                0 <= idx <= self.times@.len(),
                forall|k: int| 0 <= k < idx ==> (#[trigger] self@[k]).date != d,
            decreases self.times@.len() - idx,
        {
            if self.times[idx].date == d {
                proof {
                    assert(self@[idx as int] == self.times@[idx as int]@);
                }
                return true;
            }
            proof {
                assert(self@[idx as int] == self.times@[idx as int]@);
            }
            idx = idx + 1;
        }
        false
    }

    /// The stored snapshots, for iteration by a consumer.
    pub fn get_obj_iter(&self) -> (r: &Vec<Galaxy>)
        ensures
            r.deep_view() == self@,
    {
        &self.times
    }

    /// Renders the whole store in the cache format.
    pub fn save(&self) -> (out: Vec<u8>)
        ensures
            out@ == join_lines(galaxies_lines(self@)),
    {
        let mut out: Vec<u8> = Vec::new();
        let ghost sv = self@;
        let mut i: usize = 0;
        proof {
            assert(galaxies_lines(sv.subrange(0, 0)) =~= Seq::<Seq<u8>>::empty());
            assert(out@ =~= join_lines(galaxies_lines(sv.subrange(0, 0))));
        }
        while i < self.times.len()
            invariant
                0 <= i <= self.times@.len(),
                sv == self@,
                sv.len() == self.times@.len(),
                out@ == join_lines(galaxies_lines(sv.subrange(0, i as int))),
            decreases self.times@.len() - i,
        {
            let ghost pre = sv.subrange(0, i as int);
            self.times[i].save(&mut out);
            proof {
                assert(self.times@[i as int]@ == sv[i as int]);
                lemma_galaxies_lines_snoc(pre, sv[i as int]);
                lemma_join_concat(
                    galaxies_lines(pre),
                    crate::cache::galaxy_lines(sv[i as int]),
                );
                assert(sv.subrange(0, i + 1) =~= pre.push(sv[i as int]));
            }
            i = i + 1;
        }
        proof {
            assert(sv.subrange(0, sv.len() as int) =~= sv);
        }
        out
    }

    /// Reads a whole store from cache bytes; any malformed line is a fatal
    /// decode error.
    pub fn read(bytes: &Vec<u8>) -> (r: Result<Everything, ParseError>)
        ensures
            match dec_everything(split_lines_spec(bytes@), 0, Seq::empty()) {
                Some((gs, _)) => r is Ok && r->Ok_0@ == gs && r->Ok_0.wf(),
                None => r is Err,
            },
    {
        let lines = split_lines(bytes);
        let ret = Everything::new();
        proof {
            assert(ret@ =~= Seq::<GalaxyV>::empty());
        }
        read_from(&lines, 0, ret)
    }

    /// Recomputes the bounding box from the first stored snapshot's objects
    /// and applies it uniformly to every snapshot. An empty store is left
    /// unchanged.
    pub fn update_bounds(&mut self)
        ensures
            old(self)@.len() == 0 ==> final(self)@ == old(self)@,
            old(self)@.len() > 0 ==> final(self)@ == old(self)@.map_values(
                |g: GalaxyV| GalaxyV { maxc: bounds_of(old(self)@[0].obj), ..g },
            ),
            old(self).wf() ==> final(self).wf(),
    {
        let ghost s0 = self@;
        if self.times.len() == 0 {
            proof {
                assert(final(self)@ == old(self)@);
            }
            return ;
        }
        proof {
            assert(s0[0] == self.times@[0]@);
        }
        let ghost objs = s0[0].obj;
        let mut b = Bounds::zero();
        let first = &self.times[0];
        let mut k: usize = 0;
        proof {
            assert(b == bounds_upto(objs, 0));
        }
        while k < first.obj.len()
            invariant
                0 <= k <= first.obj@.len(),
                first.obj.deep_view() == objs,
                objs.len() == first.obj@.len(),
                b == bounds_upto(objs, k as int),
            decreases first.obj@.len() - k,
        {
            let o = &first.obj[k];
            proof {
                assert(o@ == objs[k as int]);
            }
            let mut nb = b;
            if o.x < nb.min_x {
                nb.min_x = o.x;
            }
            if o.x > nb.max_x {
                nb.max_x = o.x;
            }
            if o.y < nb.min_y {
                nb.min_y = o.y;
            }
            if o.y > nb.max_y {
                nb.max_y = o.y;
            }
            proof {
                assert(nb == bounds_step(bounds_upto(objs, k as int), objs[k as int]));
            }
            b = nb;
            k = k + 1;
        }
        proof {
            assert(b == bounds_of(objs));
        }
        let ghost bfinal = b;
        let mut idx: usize = 0;
        while idx < self.times.len()
            invariant
                0 <= idx <= self.times@.len(),
                self.times@.len() == s0.len(),
                s0.len() > 0,
                bfinal == b,
                forall|k2: int|
                    0 <= k2 < idx ==> (#[trigger] self@[k2]) == (GalaxyV { maxc: b, ..s0[k2] }),
                forall|k2: int| idx <= k2 < s0.len() ==> (#[trigger] self@[k2]) == s0[k2],
            decreases self.times@.len() - idx,
        {
            let ghost before = self@;
            let mut tmp = self.times.remove(idx);
            tmp.update_max(b);
            self.times.insert(idx, tmp);
            proof {
                assert(self@ =~~= before.update(
                    idx as int,
                    GalaxyV { maxc: b, ..before[idx as int] },
                ));
            }
            idx = idx + 1;
        }
        proof {
            assert(self@ =~~= s0.map_values(|g: GalaxyV| GalaxyV { maxc: bfinal, ..g }));
        }
    }
}

/// Reads snapshot blocks from line `i` on, folding them into `acc`.
fn read_from(lines: &Vec<Vec<u8>>, i: usize, acc: Everything) -> (r: Result<
    Everything,
    ParseError,
>)
    requires
        acc.wf(),
        i <= lines@.len(),
    ensures
        match dec_everything(lines.deep_view(), i as int, acc@) {
            Some((gs, _)) => r is Ok && r->Ok_0@ == gs && r->Ok_0.wf(),
            None => r is Err,
        },
    decreases lines@.len() - i,
{
    if i >= lines.len() {
        return Ok(acc);
    }
    proof {
        assert(lines.deep_view().len() == lines@.len());
    }
    let (g, j) = match Galaxy::read(lines, i) {
        Ok(v) => v,
        Err(e) => {
            return Err(e);
        },
    };
    if !(j > i && j <= lines.len()) {
        return Err(ParseError::new(crate::errors::Section::Cache, Vec::new()));
    }
    let mut acc2 = acc;
    acc2.push(g);
    read_from(lines, j, acc2)
}

/// The effect of ingesting one archive's gamestate text on the store: a
/// text that fails to parse, or whose date is already stored, leaves the
/// store unchanged; otherwise its snapshot is appended.
pub open spec fn ingest_file(s: Seq<GalaxyV>, file: Seq<u8>) -> Seq<GalaxyV> {
    match crate::gamestate::gs_parse(split_lines_spec(file)) {
        None => s,
        Some(g) => {
            if has_date(s, g.date) {
                s
            } else {
                s.push(g)
            }
        },
    }
}

/// The effect of ingesting the archives in order.
pub open spec fn ingest_files(s: Seq<GalaxyV>, files: Seq<Seq<u8>>) -> Seq<GalaxyV>
    decreases files.len(),
{
    if files.len() == 0 {
        s
    } else {
        ingest_files(ingest_file(s, files[0]), files.drop_first())
    }
}

/// One run: loads the cached store (an absent cache is an empty store, a
/// malformed one a fatal error), ingests each gamestate text in order —
/// an archive that fails to parse is skipped and reported, the rest of the
/// run goes on — and recomputes the shared bounding box. Returns the store,
/// the count of newly ingested snapshots, and the per-archive failures.
#[verifier::rlimit(100)]
#[verifier::spinoff_prover]
pub fn reader(cache: &Option<Vec<u8>>, gamestates: &Vec<Vec<u8>>) -> (r: Result<
    (Everything, usize, Vec<ParseError>),
    ParseError,
>)
    ensures
        ({
            let start: Seq<GalaxyV> = match cache {
                Some(b) => match dec_everything(split_lines_spec(b@), 0, Seq::empty()) {
                    Some((gs, _)) => gs,
                    None => Seq::empty(),
                },
                None => Seq::empty(),
            };
            let loaded_ok = match cache {
                Some(b) => dec_everything(split_lines_spec(b@), 0, Seq::empty()) is Some,
                None => true,
            };
            if !loaded_ok {
                r is Err
            } else {
                let s1 = ingest_files(start, gamestates.deep_view());
                r is Ok && r->Ok_0.0.wf() && r->Ok_0.1 == s1.len() - start.len()
                    && r->Ok_0.0@ == (if s1.len() == 0 {
                    s1
                } else {
                    s1.map_values(
                        |g: GalaxyV| GalaxyV { maxc: bounds_of(s1[0].obj), ..g },
                    )
                })
            }
        }),
{
    let mut world = match cache {
        Some(b) => {
            match Everything::read(b) {
                Ok(w) => w,
                Err(e) => {
                    return Err(e);
                },
            }
        },
        None => Everything::new(),
    };
    let ghost start = world@;
    let start_len = world.get_obj_iter().len();
    let mut errs: Vec<ParseError> = Vec::new();
    let ghost filesv = gamestates.deep_view();
    let mut k: usize = 0;
    proof {
        assert(filesv.subrange(0, filesv.len() as int) =~= filesv);
    }
    while k < gamestates.len()
        invariant
            0 <= k <= gamestates@.len(),
            filesv == gamestates.deep_view(),
            filesv.len() == gamestates@.len(),
            world.wf(),
            start_len == start.len(),
            world@.len() >= start.len(),
            ingest_files(start, filesv) == ingest_files(
                world@,
                filesv.subrange(k as int, filesv.len() as int),
            ),
        decreases gamestates@.len() - k,
    {
        let ghost rem = filesv.subrange(k as int, filesv.len() as int);
        proof {
            assert(rem[0] == filesv[k as int]);
            assert(rem.drop_first() =~= filesv.subrange(k + 1 as int, filesv.len() as int));
            assert(gamestates@[k as int]@ == filesv[k as int]);
        }
        match crate::gamestate::save_analyser(&gamestates[k], &world) {
            Ok(Some(g)) => {
                proof {
                    assert(!has_date(world@, g@.date));
                    assert(forall|m: int|
                        0 <= m < world@.len() ==> (#[trigger] world@[m]).date != g@.date);
                    crate::cache::lemma_store_put_append(world@, g@);
                }
                world.push(g);
            },
            Ok(None) => {
                proof {
                    assert(ingest_file(world@, filesv[k as int]) == world@) by {
                        let lines = split_lines_spec(filesv[k as int]);
                        match crate::gamestate::gs_parse(lines) {
                            None => {},
                            Some(g2) => {
                                assert(has_date(world@, g2.date));
                            },
                        }
                    }
                }
            },
            Err(e) => {
                errs.push(e);
                proof {
                    assert(ingest_file(world@, filesv[k as int]) == world@);
                }
            },
        }
        k = k + 1;
    }
    proof {
        assert(filesv.subrange(filesv.len() as int, filesv.len() as int)
            =~= Seq::<Seq<u8>>::empty());
    }
    let count = world.get_obj_iter().len() - start_len;
    world.update_bounds();
    Ok((world, count, errs))
}

} // verus!
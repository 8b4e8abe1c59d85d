//! The byte constants of the two text grammars, each as a spec sequence and
//! an executable builder, together with small helpers on byte strings and
//! lines.
use vstd::prelude::*;

verus! {

/// `n` tab bytes.
pub open spec fn tabs(n: nat) -> Seq<u8>
    decreases n,
{
    if n == 0 {
        Seq::empty()
    } else {
        tabs((n - 1) as nat).push(9u8)
    }
}

/// Renders `n` tab bytes.
pub fn mk_tabs(n: usize) -> (v: Vec<u8>)
    ensures
        v@ == tabs(n as nat),
    decreases n,
{
    if n == 0 {
        let v: Vec<u8> = Vec::new();
        assert(v@ =~= tabs(0));
        v
    } else {
        let mut v = mk_tabs(n - 1);
        v.push(9u8);
        v
    }
}

/// Byte-string equality.
pub fn bytes_eq(a: &Vec<u8>, b: &Vec<u8>) -> (r: bool)
    ensures
        r == (a@ == b@),
{
    if a.len() != b.len() {
        return false;
    }
    let mut i: usize = 0;
    while i < a.len()
        invariant
            i <= a@.len(),
            a@.len() == b@.len(),
            forall|k: int| 0 <= k < i ==> a@[k] == b@[k],
        decreases a@.len() - i,
    {
        if a[i] != b[i] {
            return false;
        }
        i = i + 1;
    }
    proof {
        assert(a@ =~= b@);
    }
    true
}

/// The bytes of `v` from `a` up to `b`.
pub fn slice_of(v: &Vec<u8>, a: usize, b: usize) -> (r: Vec<u8>)
    requires
        a <= b <= v@.len(),
    ensures
        r@ == v@.subrange(a as int, b as int),
{
    let mut r: Vec<u8> = Vec::new();
    let mut i: usize = a;
    while i < b
        invariant
            a <= i <= b <= v@.len(),
            r@ == v@.subrange(a as int, i as int),
        decreases b - i,
    {
        r.push(v[i]);
        proof {
            assert(v@.subrange(a as int, i + 1 as int) =~= v@.subrange(a as int, i as int).push(
                v@[i as int],
            ));
        }
        i = i + 1;
    }
    r
}

/// True when `v[a..]` begins with `p`; mirrors a by-position prefix match.
pub fn match_at(v: &Vec<u8>, a: usize, p: &Vec<u8>) -> (r: bool)
    ensures
        r == slice_is(v@, a as int, p@),
{
    if a > v.len() || v.len() - a < p.len() {
        return false;
    }
    let s = slice_of(v, a, a + p.len());
    bytes_eq(&s, p)
}

/// True when `s[a..]` begins with `p`.
pub open spec fn slice_is(s: Seq<u8>, a: int, p: Seq<u8>) -> bool {
    &&& 0 <= a
    &&& a + p.len() <= s.len()
    &&& s.subrange(a, a + p.len()) == p
}

/// Appends `s` to `out`.
pub fn append(out: &mut Vec<u8>, s: &Vec<u8>)
    ensures
        final(out)@ == old(out)@ + s@,
{
    let mut i: usize = 0;
    while i < s.len()
        invariant
            i <= s@.len(),
            out@ == old(out)@ + s@.subrange(0, i as int),
        decreases s@.len() - i,
    {
        out.push(s[i]);
        proof {
            assert(old(out)@ + s@.subrange(0, i + 1 as int) =~= (old(out)@ + s@.subrange(
                0,
                i as int,
            )).push(s@[i as int]));
        }
        i = i + 1;
    }
    proof {
        assert(s@.subrange(0, s@.len() as int) =~= s@);
    }
}

/// `"Gestalt"`
pub open spec fn lit_disp_gestalt() -> Seq<u8> {
    seq!['G' as u8, 'e' as u8, 's' as u8, 't' as u8, 'a' as u8, 'l' as u8, 't' as u8]
}

/// Renders `"Gestalt"`.
pub fn mk_disp_gestalt() -> (v: Vec<u8>)
    ensures
        v@ == lit_disp_gestalt(),
{
    let mut v: Vec<u8> = Vec::new();
    v.push('G' as u8);
    v.push('e' as u8);
    v.push('s' as u8);
    v.push('t' as u8);
    v.push('a' as u8);
    v.push('l' as u8);
    v.push('t' as u8);
    proof {
        assert(v@ =~= lit_disp_gestalt());
    }
    v
}

/// `"Spiritualist"`
pub open spec fn lit_disp_spiritualist() -> Seq<u8> {
    seq!['S' as u8, 'p' as u8, 'i' as u8, 'r' as u8, 'i' as u8, 't' as u8, 'u' as u8, 'a' as u8, 'l' as u8, 'i' as u8, 's' as u8, 't' as u8]
}

/// Renders `"Spiritualist"`.
pub fn mk_disp_spiritualist() -> (v: Vec<u8>)
    ensures
        v@ == lit_disp_spiritualist(),
{
    let mut v: Vec<u8> = Vec::new();
    v.push('S' as u8);
    v.push('p' as u8);
    v.push('i' as u8);
    v.push('r' as u8);
    v.push('i' as u8);
    v.push('t' as u8);
    v.push('u' as u8);
    v.push('a' as u8);
    v.push('l' as u8);
    v.push('i' as u8);
    v.push('s' as u8);
    v.push('t' as u8);
    proof {
        assert(v@ =~= lit_disp_spiritualist());
    }
    v
}

/// `"Materialist"`
pub open spec fn lit_disp_materialist() -> Seq<u8> {
    seq!['M' as u8, 'a' as u8, 't' as u8, 'e' as u8, 'r' as u8, 'i' as u8, 'a' as u8, 'l' as u8, 'i' as u8, 's' as u8, 't' as u8]
}

/// Renders `"Materialist"`.
pub fn mk_disp_materialist() -> (v: Vec<u8>)
    ensures
        v@ == lit_disp_materialist(),
{
    let mut v: Vec<u8> = Vec::new();
    v.push('M' as u8);
    v.push('a' as u8);
    v.push('t' as u8);
    v.push('e' as u8);
    v.push('r' as u8);
    v.push('i' as u8);
    v.push('a' as u8);
    v.push('l' as u8);
    v.push('i' as u8);
    v.push('s' as u8);
    v.push('t' as u8);
    proof {
        assert(v@ =~= lit_disp_materialist());
    }
    v
}

/// `"Egalitarian"`
pub open spec fn lit_disp_egalitarian() -> Seq<u8> {
    seq!['E' as u8, 'g' as u8, 'a' as u8, 'l' as u8, 'i' as u8, 't' as u8, 'a' as u8, 'r' as u8, 'i' as u8, 'a' as u8, 'n' as u8]
}

/// Renders `"Egalitarian"`.
pub fn mk_disp_egalitarian() -> (v: Vec<u8>)
    ensures
        v@ == lit_disp_egalitarian(),
{
    let mut v: Vec<u8> = Vec::new();
    v.push('E' as u8);
    v.push('g' as u8);
    v.push('a' as u8);
    v.push('l' as u8);
    v.push('i' as u8);
    v.push('t' as u8);
    v.push('a' as u8);
    v.push('r' as u8);
    v.push('i' as u8);
    v.push('a' as u8);
    v.push('n' as u8);
    proof {
        assert(v@ =~= lit_disp_egalitarian());
    }
    v
}

/// `"Authoritarian"`
pub open spec fn lit_disp_authoritarian() -> Seq<u8> {
    seq!['A' as u8, 'u' as u8, 't' as u8, 'h' as u8, 'o' as u8, 'r' as u8, 'i' as u8, 't' as u8, 'a' as u8, 'r' as u8, 'i' as u8, 'a' as u8, 'n' as u8]
}

/// Renders `"Authoritarian"`.
pub fn mk_disp_authoritarian() -> (v: Vec<u8>)
    ensures
        v@ == lit_disp_authoritarian(),
{
    let mut v: Vec<u8> = Vec::new();
    v.push('A' as u8);
    v.push('u' as u8);
    v.push('t' as u8);
    v.push('h' as u8);
    v.push('o' as u8);
    v.push('r' as u8);
    v.push('i' as u8);
    v.push('t' as u8);
    v.push('a' as u8);
    v.push('r' as u8);
    v.push('i' as u8);
    v.push('a' as u8);
    v.push('n' as u8);
    proof {
        assert(v@ =~= lit_disp_authoritarian());
    }
    v
}

/// `"Pacifist"`
pub open spec fn lit_disp_pacifist() -> Seq<u8> {
    seq!['P' as u8, 'a' as u8, 'c' as u8, 'i' as u8, 'f' as u8, 'i' as u8, 's' as u8, 't' as u8]
}

/// Renders `"Pacifist"`.
pub fn mk_disp_pacifist() -> (v: Vec<u8>)
    ensures
        v@ == lit_disp_pacifist(),
{
    let mut v: Vec<u8> = Vec::new();
    v.push('P' as u8);
    v.push('a' as u8);
    v.push('c' as u8);
    v.push('i' as u8);
    v.push('f' as u8);
    v.push('i' as u8);
    v.push('s' as u8);
    v.push('t' as u8);
    proof {
        assert(v@ =~= lit_disp_pacifist());
    }
    v
}

/// `"Militarist"`
pub open spec fn lit_disp_militarist() -> Seq<u8> {
    seq!['M' as u8, 'i' as u8, 'l' as u8, 'i' as u8, 't' as u8, 'a' as u8, 'r' as u8, 'i' as u8, 's' as u8, 't' as u8]
}

/// Renders `"Militarist"`.
pub fn mk_disp_militarist() -> (v: Vec<u8>)
    ensures
        v@ == lit_disp_militarist(),
{
    let mut v: Vec<u8> = Vec::new();
    v.push('M' as u8);
    v.push('i' as u8);
    v.push('l' as u8);
    v.push('i' as u8);
    v.push('t' as u8);
    v.push('a' as u8);
    v.push('r' as u8);
    v.push('i' as u8);
    v.push('s' as u8);
    v.push('t' as u8);
    proof {
        assert(v@ =~= lit_disp_militarist());
    }
    v
}

/// `"Xenophile"`
pub open spec fn lit_disp_xenophile() -> Seq<u8> {
    seq!['X' as u8, 'e' as u8, 'n' as u8, 'o' as u8, 'p' as u8, 'h' as u8, 'i' as u8, 'l' as u8, 'e' as u8]
}

/// Renders `"Xenophile"`.
pub fn mk_disp_xenophile() -> (v: Vec<u8>)
    ensures
        v@ == lit_disp_xenophile(),
{
    let mut v: Vec<u8> = Vec::new();
    v.push('X' as u8);
    v.push('e' as u8);
    v.push('n' as u8);
    v.push('o' as u8);
    v.push('p' as u8);
    v.push('h' as u8);
    v.push('i' as u8);
    v.push('l' as u8);
    v.push('e' as u8);
    proof {
        assert(v@ =~= lit_disp_xenophile());
    }
    v
}

/// `"Xenophobe"`
pub open spec fn lit_disp_xenophobe() -> Seq<u8> {
    seq!['X' as u8, 'e' as u8, 'n' as u8, 'o' as u8, 'p' as u8, 'h' as u8, 'o' as u8, 'b' as u8, 'e' as u8]
}

/// Renders `"Xenophobe"`.
pub fn mk_disp_xenophobe() -> (v: Vec<u8>)
    ensures
        v@ == lit_disp_xenophobe(),
{
    let mut v: Vec<u8> = Vec::new();
    v.push('X' as u8);
    v.push('e' as u8);
    v.push('n' as u8);
    v.push('o' as u8);
    v.push('p' as u8);
    v.push('h' as u8);
    v.push('o' as u8);
    v.push('b' as u8);
    v.push('e' as u8);
    proof {
        assert(v@ =~= lit_disp_xenophobe());
    }
    v
}

/// `"other: "`
pub open spec fn lit_disp_other() -> Seq<u8> {
    seq!['o' as u8, 't' as u8, 'h' as u8, 'e' as u8, 'r' as u8, ':' as u8, ' ' as u8]
}

/// Renders `"other: "`.
pub fn mk_disp_other() -> (v: Vec<u8>)
    ensures
        v@ == lit_disp_other(),
{
    let mut v: Vec<u8> = Vec::new();
    v.push('o' as u8);
    v.push('t' as u8);
    v.push('h' as u8);
    v.push('e' as u8);
    v.push('r' as u8);
    v.push(':' as u8);
    v.push(' ' as u8);
    proof {
        assert(v@ =~= lit_disp_other());
    }
    v
}

/// `"ethic_gestalt_consciousness"`
pub open spec fn lit_slug_gestalt() -> Seq<u8> {
    seq!['e' as u8, 't' as u8, 'h' as u8, 'i' as u8, 'c' as u8, '_' as u8, 'g' as u8, 'e' as u8, 's' as u8, 't' as u8, 'a' as u8, 'l' as u8, 't' as u8, '_' as u8, 'c' as u8, 'o' as u8, 'n' as u8, 's' as u8, 'c' as u8, 'i' as u8, 'o' as u8, 'u' as u8, 's' as u8, 'n' as u8, 'e' as u8, 's' as u8, 's' as u8]
}

/// Renders `"ethic_gestalt_consciousness"`.
pub fn mk_slug_gestalt() -> (v: Vec<u8>)
    ensures
        v@ == lit_slug_gestalt(),
{
    let mut v: Vec<u8> = Vec::new();
    v.push('e' as u8);
    v.push('t' as u8);
    v.push('h' as u8);
    v.push('i' as u8);
    v.push('c' as u8);
    v.push('_' as u8);
    v.push('g' as u8);
    v.push('e' as u8);
    v.push('s' as u8);
    v.push('t' as u8);
    v.push('a' as u8);
    v.push('l' as u8);
    v.push('t' as u8);
    v.push('_' as u8);
    v.push('c' as u8);
    v.push('o' as u8);
    v.push('n' as u8);
    v.push('s' as u8);
    v.push('c' as u8);
    v.push('i' as u8);
    v.push('o' as u8);
    v.push('u' as u8);
    v.push('s' as u8);
    v.push('n' as u8);
    v.push('e' as u8);
    v.push('s' as u8);
    v.push('s' as u8);
    proof {
        assert(v@ =~= lit_slug_gestalt());
    }
    v
}

/// `"ethic_spiritualist"`
pub open spec fn lit_slug_spiritualist() -> Seq<u8> {
    seq!['e' as u8, 't' as u8, 'h' as u8, 'i' as u8, 'c' as u8, '_' as u8, 's' as u8, 'p' as u8, 'i' as u8, 'r' as u8, 'i' as u8, 't' as u8, 'u' as u8, 'a' as u8, 'l' as u8, 'i' as u8, 's' as u8, 't' as u8]
}

/// Renders `"ethic_spiritualist"`.
pub fn mk_slug_spiritualist() -> (v: Vec<u8>)
    ensures
        v@ == lit_slug_spiritualist(),
{
    let mut v: Vec<u8> = Vec::new();
    v.push('e' as u8);
    v.push('t' as u8);
    v.push('h' as u8);
    v.push('i' as u8);
    v.push('c' as u8);
    v.push('_' as u8);
    v.push('s' as u8);
    v.push('p' as u8);
    v.push('i' as u8);
    v.push('r' as u8);
    v.push('i' as u8);
    v.push('t' as u8);
    v.push('u' as u8);
    v.push('a' as u8);
    v.push('l' as u8);
    v.push('i' as u8);
    v.push('s' as u8);
    v.push('t' as u8);
    proof {
        assert(v@ =~= lit_slug_spiritualist());
    }
    v
}

/// `"ethic_materialist"`
pub open spec fn lit_slug_materialist() -> Seq<u8> {
    seq!['e' as u8, 't' as u8, 'h' as u8, 'i' as u8, 'c' as u8, '_' as u8, 'm' as u8, 'a' as u8, 't' as u8, 'e' as u8, 'r' as u8, 'i' as u8, 'a' as u8, 'l' as u8, 'i' as u8, 's' as u8, 't' as u8]
}

/// Renders `"ethic_materialist"`.
pub fn mk_slug_materialist() -> (v: Vec<u8>)
    ensures
        v@ == lit_slug_materialist(),
{
    let mut v: Vec<u8> = Vec::new();
    v.push('e' as u8);
    v.push('t' as u8);
    v.push('h' as u8);
    v.push('i' as u8);
    v.push('c' as u8);
    v.push('_' as u8);
    v.push('m' as u8);
    v.push('a' as u8);
    v.push('t' as u8);
    v.push('e' as u8);
    v.push('r' as u8);
    v.push('i' as u8);
    v.push('a' as u8);
    v.push('l' as u8);
    v.push('i' as u8);
    v.push('s' as u8);
    v.push('t' as u8);
    proof {
        assert(v@ =~= lit_slug_materialist());
    }
    v
}

/// `"ethic_egalitarian"`
pub open spec fn lit_slug_egalitarian() -> Seq<u8> {
    seq!['e' as u8, 't' as u8, 'h' as u8, 'i' as u8, 'c' as u8, '_' as u8, 'e' as u8, 'g' as u8, 'a' as u8, 'l' as u8, 'i' as u8, 't' as u8, 'a' as u8, 'r' as u8, 'i' as u8, 'a' as u8, 'n' as u8]
}

/// Renders `"ethic_egalitarian"`.
pub fn mk_slug_egalitarian() -> (v: Vec<u8>)
    ensures
        v@ == lit_slug_egalitarian(),
{
    let mut v: Vec<u8> = Vec::new();
    v.push('e' as u8);
    v.push('t' as u8);
    v.push('h' as u8);
    v.push('i' as u8);
    v.push('c' as u8);
    v.push('_' as u8);
    v.push('e' as u8);
    v.push('g' as u8);
    v.push('a' as u8);
    v.push('l' as u8);
    v.push('i' as u8);
    v.push('t' as u8);
    v.push('a' as u8);
    v.push('r' as u8);
    v.push('i' as u8);
    v.push('a' as u8);
    v.push('n' as u8);
    proof {
        assert(v@ =~= lit_slug_egalitarian());
    }
    v
}

/// `"ethic_authoritarian"`
pub open spec fn lit_slug_authoritarian() -> Seq<u8> {
    seq!['e' as u8, 't' as u8, 'h' as u8, 'i' as u8, 'c' as u8, '_' as u8, 'a' as u8, 'u' as u8, 't' as u8, 'h' as u8, 'o' as u8, 'r' as u8, 'i' as u8, 't' as u8, 'a' as u8, 'r' as u8, 'i' as u8, 'a' as u8, 'n' as u8]
}

/// Renders `"ethic_authoritarian"`.
pub fn mk_slug_authoritarian() -> (v: Vec<u8>)
    ensures
        v@ == lit_slug_authoritarian(),
{
    let mut v: Vec<u8> = Vec::new();
    v.push('e' as u8);
    v.push('t' as u8);
    v.push('h' as u8);
    v.push('i' as u8);
    v.push('c' as u8);
    v.push('_' as u8);
    v.push('a' as u8);
    v.push('u' as u8);
    v.push('t' as u8);
    v.push('h' as u8);
    v.push('o' as u8);
    v.push('r' as u8);
    v.push('i' as u8);
    v.push('t' as u8);
    v.push('a' as u8);
    v.push('r' as u8);
    v.push('i' as u8);
    v.push('a' as u8);
    v.push('n' as u8);
    proof {
        assert(v@ =~= lit_slug_authoritarian());
    }
    v
}

/// `"ethic_pacifist"`
pub open spec fn lit_slug_pacifist() -> Seq<u8> {
    seq!['e' as u8, 't' as u8, 'h' as u8, 'i' as u8, 'c' as u8, '_' as u8, 'p' as u8, 'a' as u8, 'c' as u8, 'i' as u8, 'f' as u8, 'i' as u8, 's' as u8, 't' as u8]
}

/// Renders `"ethic_pacifist"`.
pub fn mk_slug_pacifist() -> (v: Vec<u8>)
    ensures
        v@ == lit_slug_pacifist(),
{
    let mut v: Vec<u8> = Vec::new();
    v.push('e' as u8);
    v.push('t' as u8);
    v.push('h' as u8);
    v.push('i' as u8);
    v.push('c' as u8);
    v.push('_' as u8);
    v.push('p' as u8);
    v.push('a' as u8);
    v.push('c' as u8);
    v.push('i' as u8);
    v.push('f' as u8);
    v.push('i' as u8);
    v.push('s' as u8);
    v.push('t' as u8);
    proof {
        assert(v@ =~= lit_slug_pacifist());
    }
    v
}

/// `"ethic_militarist"`
pub open spec fn lit_slug_militarist() -> Seq<u8> {
    seq!['e' as u8, 't' as u8, 'h' as u8, 'i' as u8, 'c' as u8, '_' as u8, 'm' as u8, 'i' as u8, 'l' as u8, 'i' as u8, 't' as u8, 'a' as u8, 'r' as u8, 'i' as u8, 's' as u8, 't' as u8]
}

/// Renders `"ethic_militarist"`.
pub fn mk_slug_militarist() -> (v: Vec<u8>)
    ensures
        v@ == lit_slug_militarist(),
{
    let mut v: Vec<u8> = Vec::new();
    v.push('e' as u8);
    v.push('t' as u8);
    v.push('h' as u8);
    v.push('i' as u8);
    v.push('c' as u8);
    v.push('_' as u8);
    v.push('m' as u8);
    v.push('i' as u8);
    v.push('l' as u8);
    v.push('i' as u8);
    v.push('t' as u8);
    v.push('a' as u8);
    v.push('r' as u8);
    v.push('i' as u8);
    v.push('s' as u8);
    v.push('t' as u8);
    proof {
        assert(v@ =~= lit_slug_militarist());
    }
    v
}

/// `"ethic_xenophile"`
pub open spec fn lit_slug_xenophile() -> Seq<u8> {
    seq!['e' as u8, 't' as u8, 'h' as u8, 'i' as u8, 'c' as u8, '_' as u8, 'x' as u8, 'e' as u8, 'n' as u8, 'o' as u8, 'p' as u8, 'h' as u8, 'i' as u8, 'l' as u8, 'e' as u8]
}

/// Renders `"ethic_xenophile"`.
pub fn mk_slug_xenophile() -> (v: Vec<u8>)
    ensures
        v@ == lit_slug_xenophile(),
{
    let mut v: Vec<u8> = Vec::new();
    v.push('e' as u8);
    v.push('t' as u8);
    v.push('h' as u8);
    v.push('i' as u8);
    v.push('c' as u8);
    v.push('_' as u8);
    v.push('x' as u8);
    v.push('e' as u8);
    v.push('n' as u8);
    v.push('o' as u8);
    v.push('p' as u8);
    v.push('h' as u8);
    v.push('i' as u8);
    v.push('l' as u8);
    v.push('e' as u8);
    proof {
        assert(v@ =~= lit_slug_xenophile());
    }
    v
}

/// `"ethic_xenophobe"`
pub open spec fn lit_slug_xenophobe() -> Seq<u8> {
    seq!['e' as u8, 't' as u8, 'h' as u8, 'i' as u8, 'c' as u8, '_' as u8, 'x' as u8, 'e' as u8, 'n' as u8, 'o' as u8, 'p' as u8, 'h' as u8, 'o' as u8, 'b' as u8, 'e' as u8]
}

/// Renders `"ethic_xenophobe"`.
pub fn mk_slug_xenophobe() -> (v: Vec<u8>)
    ensures
        v@ == lit_slug_xenophobe(),
{
    let mut v: Vec<u8> = Vec::new();
    v.push('e' as u8);
    v.push('t' as u8);
    v.push('h' as u8);
    v.push('i' as u8);
    v.push('c' as u8);
    v.push('_' as u8);
    v.push('x' as u8);
    v.push('e' as u8);
    v.push('n' as u8);
    v.push('o' as u8);
    v.push('p' as u8);
    v.push('h' as u8);
    v.push('o' as u8);
    v.push('b' as u8);
    v.push('e' as u8);
    proof {
        assert(v@ =~= lit_slug_xenophobe());
    }
    v
}

/// `"ethic_"`
pub open spec fn lit_slug_prefix() -> Seq<u8> {
    seq!['e' as u8, 't' as u8, 'h' as u8, 'i' as u8, 'c' as u8, '_' as u8]
}

/// Renders `"ethic_"`.
pub fn mk_slug_prefix() -> (v: Vec<u8>)
    ensures
        v@ == lit_slug_prefix(),
{
    let mut v: Vec<u8> = Vec::new();
    v.push('e' as u8);
    v.push('t' as u8);
    v.push('h' as u8);
    v.push('i' as u8);
    v.push('c' as u8);
    v.push('_' as u8);
    proof {
        assert(v@ =~= lit_slug_prefix());
    }
    v
}

/// `"fanatic"`
pub open spec fn lit_fanatic_w() -> Seq<u8> {
    seq!['f' as u8, 'a' as u8, 'n' as u8, 'a' as u8, 't' as u8, 'i' as u8, 'c' as u8]
}

/// Renders `"fanatic"`.
pub fn mk_fanatic_w() -> (v: Vec<u8>)
    ensures
        v@ == lit_fanatic_w(),
{
    let mut v: Vec<u8> = Vec::new();
    v.push('f' as u8);
    v.push('a' as u8);
    v.push('n' as u8);
    v.push('a' as u8);
    v.push('t' as u8);
    v.push('i' as u8);
    v.push('c' as u8);
    proof {
        assert(v@ =~= lit_fanatic_w());
    }
    v
}

/// `"None"`
pub open spec fn lit_none_w() -> Seq<u8> {
    seq!['N' as u8, 'o' as u8, 'n' as u8, 'e' as u8]
}

/// Renders `"None"`.
pub fn mk_none_w() -> (v: Vec<u8>)
    ensures
        v@ == lit_none_w(),
{
    let mut v: Vec<u8> = Vec::new();
    v.push('N' as u8);
    v.push('o' as u8);
    v.push('n' as u8);
    v.push('e' as u8);
    proof {
        assert(v@ =~= lit_none_w());
    }
    v
}

/// `"true"`
pub open spec fn lit_true_w() -> Seq<u8> {
    seq!['t' as u8, 'r' as u8, 'u' as u8, 'e' as u8]
}

/// Renders `"true"`.
pub fn mk_true_w() -> (v: Vec<u8>)
    ensures
        v@ == lit_true_w(),
{
    let mut v: Vec<u8> = Vec::new();
    v.push('t' as u8);
    v.push('r' as u8);
    v.push('u' as u8);
    v.push('e' as u8);
    proof {
        assert(v@ =~= lit_true_w());
    }
    v
}

/// `"false"`
pub open spec fn lit_false_w() -> Seq<u8> {
    seq!['f' as u8, 'a' as u8, 'l' as u8, 's' as u8, 'e' as u8]
}

/// Renders `"false"`.
pub fn mk_false_w() -> (v: Vec<u8>)
    ensures
        v@ == lit_false_w(),
{
    let mut v: Vec<u8> = Vec::new();
    v.push('f' as u8);
    v.push('a' as u8);
    v.push('l' as u8);
    v.push('s' as u8);
    v.push('e' as u8);
    proof {
        assert(v@ =~= lit_false_w());
    }
    v
}

/// `" {"`
pub open spec fn lit_brace_suffix() -> Seq<u8> {
    seq![' ' as u8, '{' as u8]
}

/// Renders `" {"`.
pub fn mk_brace_suffix() -> (v: Vec<u8>)
    ensures
        v@ == lit_brace_suffix(),
{
    let mut v: Vec<u8> = Vec::new();
    v.push(' ' as u8);
    v.push('{' as u8);
    proof {
        assert(v@ =~= lit_brace_suffix());
    }
    v
}

/// `"}"`
pub open spec fn lit_close_brace() -> Seq<u8> {
    seq!['}' as u8]
}

/// Renders `"}"`.
pub fn mk_close_brace() -> (v: Vec<u8>)
    ensures
        v@ == lit_close_brace(),
{
    let mut v: Vec<u8> = Vec::new();
    v.push('}' as u8);
    proof {
        assert(v@ =~= lit_close_brace());
    }
    v
}

/// `"species {"`
pub open spec fn lit_species_w() -> Seq<u8> {
    seq!['s' as u8, 'p' as u8, 'e' as u8, 'c' as u8, 'i' as u8, 'e' as u8, 's' as u8, ' ' as u8, '{' as u8]
}

/// Renders `"species {"`.
pub fn mk_species_w() -> (v: Vec<u8>)
    ensures
        v@ == lit_species_w(),
{
    let mut v: Vec<u8> = Vec::new();
    v.push('s' as u8);
    v.push('p' as u8);
    v.push('e' as u8);
    v.push('c' as u8);
    v.push('i' as u8);
    v.push('e' as u8);
    v.push('s' as u8);
    v.push(' ' as u8);
    v.push('{' as u8);
    proof {
        assert(v@ =~= lit_species_w());
    }
    v
}

/// `"empires {"`
pub open spec fn lit_empires_w() -> Seq<u8> {
    seq!['e' as u8, 'm' as u8, 'p' as u8, 'i' as u8, 'r' as u8, 'e' as u8, 's' as u8, ' ' as u8, '{' as u8]
}

/// Renders `"empires {"`.
pub fn mk_empires_w() -> (v: Vec<u8>)
    ensures
        v@ == lit_empires_w(),
{
    let mut v: Vec<u8> = Vec::new();
    v.push('e' as u8);
    v.push('m' as u8);
    v.push('p' as u8);
    v.push('i' as u8);
    v.push('r' as u8);
    v.push('e' as u8);
    v.push('s' as u8);
    v.push(' ' as u8);
    v.push('{' as u8);
    proof {
        assert(v@ =~= lit_empires_w());
    }
    v
}

/// `"objects {"`
pub open spec fn lit_objects_w() -> Seq<u8> {
    seq!['o' as u8, 'b' as u8, 'j' as u8, 'e' as u8, 'c' as u8, 't' as u8, 's' as u8, ' ' as u8, '{' as u8]
}

/// Renders `"objects {"`.
pub fn mk_objects_w() -> (v: Vec<u8>)
    ensures
        v@ == lit_objects_w(),
{
    let mut v: Vec<u8> = Vec::new();
    v.push('o' as u8);
    v.push('b' as u8);
    v.push('j' as u8);
    v.push('e' as u8);
    v.push('c' as u8);
    v.push('t' as u8);
    v.push('s' as u8);
    v.push(' ' as u8);
    v.push('{' as u8);
    proof {
        assert(v@ =~= lit_objects_w());
    }
    v
}

/// `"traits {"`
pub open spec fn lit_traits_w() -> Seq<u8> {
    seq!['t' as u8, 'r' as u8, 'a' as u8, 'i' as u8, 't' as u8, 's' as u8, ' ' as u8, '{' as u8]
}

/// Renders `"traits {"`.
pub fn mk_traits_w() -> (v: Vec<u8>)
    ensures
        v@ == lit_traits_w(),
{
    let mut v: Vec<u8> = Vec::new();
    v.push('t' as u8);
    v.push('r' as u8);
    v.push('a' as u8);
    v.push('i' as u8);
    v.push('t' as u8);
    v.push('s' as u8);
    v.push(' ' as u8);
    v.push('{' as u8);
    proof {
        assert(v@ =~= lit_traits_w());
    }
    v
}

/// `"ethics {"`
pub open spec fn lit_ethics_w() -> Seq<u8> {
    seq!['e' as u8, 't' as u8, 'h' as u8, 'i' as u8, 'c' as u8, 's' as u8, ' ' as u8, '{' as u8]
}

/// Renders `"ethics {"`.
pub fn mk_ethics_w() -> (v: Vec<u8>)
    ensures
        v@ == lit_ethics_w(),
{
    let mut v: Vec<u8> = Vec::new();
    v.push('e' as u8);
    v.push('t' as u8);
    v.push('h' as u8);
    v.push('i' as u8);
    v.push('c' as u8);
    v.push('s' as u8);
    v.push(' ' as u8);
    v.push('{' as u8);
    proof {
        assert(v@ =~= lit_ethics_w());
    }
    v
}

/// `"planets {"`
pub open spec fn lit_planets_w() -> Seq<u8> {
    seq!['p' as u8, 'l' as u8, 'a' as u8, 'n' as u8, 'e' as u8, 't' as u8, 's' as u8, ' ' as u8, '{' as u8]
}

/// Renders `"planets {"`.
pub fn mk_planets_w() -> (v: Vec<u8>)
    ensures
        v@ == lit_planets_w(),
{
    let mut v: Vec<u8> = Vec::new();
    v.push('p' as u8);
    v.push('l' as u8);
    v.push('a' as u8);
    v.push('n' as u8);
    v.push('e' as u8);
    v.push('t' as u8);
    v.push('s' as u8);
    v.push(' ' as u8);
    v.push('{' as u8);
    proof {
        assert(v@ =~= lit_planets_w());
    }
    v
}

/// `"colors {"`
pub open spec fn lit_colors_w() -> Seq<u8> {
    seq!['c' as u8, 'o' as u8, 'l' as u8, 'o' as u8, 'r' as u8, 's' as u8, ' ' as u8, '{' as u8]
}

/// Renders `"colors {"`.
pub fn mk_colors_w() -> (v: Vec<u8>)
    ensures
        v@ == lit_colors_w(),
{
    let mut v: Vec<u8> = Vec::new();
    v.push('c' as u8);
    v.push('o' as u8);
    v.push('l' as u8);
    v.push('o' as u8);
    v.push('r' as u8);
    v.push('s' as u8);
    v.push(' ' as u8);
    v.push('{' as u8);
    proof {
        assert(v@ =~= lit_colors_w());
    }
    v
}

/// `"pops {"`
pub open spec fn lit_pops_w() -> Seq<u8> {
    seq!['p' as u8, 'o' as u8, 'p' as u8, 's' as u8, ' ' as u8, '{' as u8]
}

/// Renders `"pops {"`.
pub fn mk_pops_w() -> (v: Vec<u8>)
    ensures
        v@ == lit_pops_w(),
{
    let mut v: Vec<u8> = Vec::new();
    v.push('p' as u8);
    v.push('o' as u8);
    v.push('p' as u8);
    v.push('s' as u8);
    v.push(' ' as u8);
    v.push('{' as u8);
    proof {
        assert(v@ =~= lit_pops_w());
    }
    v
}

/// `"("`
pub open spec fn lit_lparen() -> Seq<u8> {
    seq!['(' as u8]
}

/// Renders `"("`.
pub fn mk_lparen() -> (v: Vec<u8>)
    ensures
        v@ == lit_lparen(),
{
    let mut v: Vec<u8> = Vec::new();
    v.push('(' as u8);
    proof {
        assert(v@ =~= lit_lparen());
    }
    v
}

/// `", "`
pub open spec fn lit_comma_sp() -> Seq<u8> {
    seq![',' as u8, ' ' as u8]
}

/// Renders `", "`.
pub fn mk_comma_sp() -> (v: Vec<u8>)
    ensures
        v@ == lit_comma_sp(),
{
    let mut v: Vec<u8> = Vec::new();
    v.push(',' as u8);
    v.push(' ' as u8);
    proof {
        assert(v@ =~= lit_comma_sp());
    }
    v
}

/// `")"`
pub open spec fn lit_rparen() -> Seq<u8> {
    seq![')' as u8]
}

/// Renders `")"`.
pub fn mk_rparen() -> (v: Vec<u8>)
    ensures
        v@ == lit_rparen(),
{
    let mut v: Vec<u8> = Vec::new();
    v.push(')' as u8);
    proof {
        assert(v@ =~= lit_rparen());
    }
    v
}

/// `"species={"`
pub open spec fn lit_gs_species() -> Seq<u8> {
    seq!['s' as u8, 'p' as u8, 'e' as u8, 'c' as u8, 'i' as u8, 'e' as u8, 's' as u8, '=' as u8, '{' as u8]
}

/// Renders `"species={"`.
pub fn mk_gs_species() -> (v: Vec<u8>)
    ensures
        v@ == lit_gs_species(),
{
    let mut v: Vec<u8> = Vec::new();
    v.push('s' as u8);
    v.push('p' as u8);
    v.push('e' as u8);
    v.push('c' as u8);
    v.push('i' as u8);
    v.push('e' as u8);
    v.push('s' as u8);
    v.push('=' as u8);
    v.push('{' as u8);
    proof {
        assert(v@ =~= lit_gs_species());
    }
    v
}

/// `"pop={"`
pub open spec fn lit_gs_pop() -> Seq<u8> {
    seq!['p' as u8, 'o' as u8, 'p' as u8, '=' as u8, '{' as u8]
}

/// Renders `"pop={"`.
pub fn mk_gs_pop() -> (v: Vec<u8>)
    ensures
        v@ == lit_gs_pop(),
{
    let mut v: Vec<u8> = Vec::new();
    v.push('p' as u8);
    v.push('o' as u8);
    v.push('p' as u8);
    v.push('=' as u8);
    v.push('{' as u8);
    proof {
        assert(v@ =~= lit_gs_pop());
    }
    v
}

/// `"galactic_object={"`
pub open spec fn lit_gs_galobj() -> Seq<u8> {
    seq!['g' as u8, 'a' as u8, 'l' as u8, 'a' as u8, 'c' as u8, 't' as u8, 'i' as u8, 'c' as u8, '_' as u8, 'o' as u8, 'b' as u8, 'j' as u8, 'e' as u8, 'c' as u8, 't' as u8, '=' as u8, '{' as u8]
}

/// Renders `"galactic_object={"`.
pub fn mk_gs_galobj() -> (v: Vec<u8>)
    ensures
        v@ == lit_gs_galobj(),
{
    let mut v: Vec<u8> = Vec::new();
    v.push('g' as u8);
    v.push('a' as u8);
    v.push('l' as u8);
    v.push('a' as u8);
    v.push('c' as u8);
    v.push('t' as u8);
    v.push('i' as u8);
    v.push('c' as u8);
    v.push('_' as u8);
    v.push('o' as u8);
    v.push('b' as u8);
    v.push('j' as u8);
    v.push('e' as u8);
    v.push('c' as u8);
    v.push('t' as u8);
    v.push('=' as u8);
    v.push('{' as u8);
    proof {
        assert(v@ =~= lit_gs_galobj());
    }
    v
}

/// `"\tplanet={"`
pub open spec fn lit_gs_planet() -> Seq<u8> {
    seq![9u8, 'p' as u8, 'l' as u8, 'a' as u8, 'n' as u8, 'e' as u8, 't' as u8, '=' as u8, '{' as u8]
}

/// Renders `"\tplanet={"`.
pub fn mk_gs_planet() -> (v: Vec<u8>)
    ensures
        v@ == lit_gs_planet(),
{
    let mut v: Vec<u8> = Vec::new();
    v.push(9u8);
    v.push('p' as u8);
    v.push('l' as u8);
    v.push('a' as u8);
    v.push('n' as u8);
    v.push('e' as u8);
    v.push('t' as u8);
    v.push('=' as u8);
    v.push('{' as u8);
    proof {
        assert(v@ =~= lit_gs_planet());
    }
    v
}

/// `"country={"`
pub open spec fn lit_gs_country() -> Seq<u8> {
    seq!['c' as u8, 'o' as u8, 'u' as u8, 'n' as u8, 't' as u8, 'r' as u8, 'y' as u8, '=' as u8, '{' as u8]
}

/// Renders `"country={"`.
pub fn mk_gs_country() -> (v: Vec<u8>)
    ensures
        v@ == lit_gs_country(),
{
    let mut v: Vec<u8> = Vec::new();
    v.push('c' as u8);
    v.push('o' as u8);
    v.push('u' as u8);
    v.push('n' as u8);
    v.push('t' as u8);
    v.push('r' as u8);
    v.push('y' as u8);
    v.push('=' as u8);
    v.push('{' as u8);
    proof {
        assert(v@ =~= lit_gs_country());
    }
    v
}

/// `"\t{"`
pub open spec fn lit_open_entry() -> Seq<u8> {
    seq![9u8, '{' as u8]
}

/// Renders `"\t{"`.
pub fn mk_open_entry() -> (v: Vec<u8>)
    ensures
        v@ == lit_open_entry(),
{
    let mut v: Vec<u8> = Vec::new();
    v.push(9u8);
    v.push('{' as u8);
    proof {
        assert(v@ =~= lit_open_entry());
    }
    v
}

/// `"\t}"`
pub open spec fn lit_close1() -> Seq<u8> {
    seq![9u8, '}' as u8]
}

/// Renders `"\t}"`.
pub fn mk_close1() -> (v: Vec<u8>)
    ensures
        v@ == lit_close1(),
{
    let mut v: Vec<u8> = Vec::new();
    v.push(9u8);
    v.push('}' as u8);
    proof {
        assert(v@ =~= lit_close1());
    }
    v
}

/// `"\t\t}"`
pub open spec fn lit_close2() -> Seq<u8> {
    seq![9u8, 9u8, '}' as u8]
}

/// Renders `"\t\t}"`.
pub fn mk_close2() -> (v: Vec<u8>)
    ensures
        v@ == lit_close2(),
{
    let mut v: Vec<u8> = Vec::new();
    v.push(9u8);
    v.push(9u8);
    v.push('}' as u8);
    proof {
        assert(v@ =~= lit_close2());
    }
    v
}

/// `"\t\t\t}"`
pub open spec fn lit_close3() -> Seq<u8> {
    seq![9u8, 9u8, 9u8, '}' as u8]
}

/// Renders `"\t\t\t}"`.
pub fn mk_close3() -> (v: Vec<u8>)
    ensures
        v@ == lit_close3(),
{
    let mut v: Vec<u8> = Vec::new();
    v.push(9u8);
    v.push(9u8);
    v.push(9u8);
    v.push('}' as u8);
    proof {
        assert(v@ =~= lit_close3());
    }
    v
}

/// `"name="`
pub open spec fn lit_p_name5() -> Seq<u8> {
    seq!['n' as u8, 'a' as u8, 'm' as u8, 'e' as u8, '=' as u8]
}

/// Renders `"name="`.
pub fn mk_p_name5() -> (v: Vec<u8>)
    ensures
        v@ == lit_p_name5(),
{
    let mut v: Vec<u8> = Vec::new();
    v.push('n' as u8);
    v.push('a' as u8);
    v.push('m' as u8);
    v.push('e' as u8);
    v.push('=' as u8);
    proof {
        assert(v@ =~= lit_p_name5());
    }
    v
}

/// `"plura"`
pub open spec fn lit_p_plura() -> Seq<u8> {
    seq!['p' as u8, 'l' as u8, 'u' as u8, 'r' as u8, 'a' as u8]
}

/// Renders `"plura"`.
pub fn mk_p_plura() -> (v: Vec<u8>)
    ensures
        v@ == lit_p_plura(),
{
    let mut v: Vec<u8> = Vec::new();
    v.push('p' as u8);
    v.push('l' as u8);
    v.push('u' as u8);
    v.push('r' as u8);
    v.push('a' as u8);
    proof {
        assert(v@ =~= lit_p_plura());
    }
    v
}

/// `"adjec"`
pub open spec fn lit_p_adjec() -> Seq<u8> {
    seq!['a' as u8, 'd' as u8, 'j' as u8, 'e' as u8, 'c' as u8]
}

/// Renders `"adjec"`.
pub fn mk_p_adjec() -> (v: Vec<u8>)
    ensures
        v@ == lit_p_adjec(),
{
    let mut v: Vec<u8> = Vec::new();
    v.push('a' as u8);
    v.push('d' as u8);
    v.push('j' as u8);
    v.push('e' as u8);
    v.push('c' as u8);
    proof {
        assert(v@ =~= lit_p_adjec());
    }
    v
}

/// `"portr"`
pub open spec fn lit_p_portr() -> Seq<u8> {
    seq!['p' as u8, 'o' as u8, 'r' as u8, 't' as u8, 'r' as u8]
}

/// Renders `"portr"`.
pub fn mk_p_portr() -> (v: Vec<u8>)
    ensures
        v@ == lit_p_portr(),
{
    let mut v: Vec<u8> = Vec::new();
    v.push('p' as u8);
    v.push('o' as u8);
    v.push('r' as u8);
    v.push('t' as u8);
    v.push('r' as u8);
    proof {
        assert(v@ =~= lit_p_portr());
    }
    v
}

/// `"trait"`
pub open spec fn lit_p_trait() -> Seq<u8> {
    seq!['t' as u8, 'r' as u8, 'a' as u8, 'i' as u8, 't' as u8]
}

/// Renders `"trait"`.
pub fn mk_p_trait() -> (v: Vec<u8>)
    ensures
        v@ == lit_p_trait(),
{
    let mut v: Vec<u8> = Vec::new();
    v.push('t' as u8);
    v.push('r' as u8);
    v.push('a' as u8);
    v.push('i' as u8);
    v.push('t' as u8);
    proof {
        assert(v@ =~= lit_p_trait());
    }
    v
}

/// `"\t\tspeci"`
pub open spec fn lit_p_speci() -> Seq<u8> {
    seq![9u8, 9u8, 's' as u8, 'p' as u8, 'e' as u8, 'c' as u8, 'i' as u8]
}

/// Renders `"\t\tspeci"`.
pub fn mk_p_speci() -> (v: Vec<u8>)
    ensures
        v@ == lit_p_speci(),
{
    let mut v: Vec<u8> = Vec::new();
    v.push(9u8);
    v.push(9u8);
    v.push('s' as u8);
    v.push('p' as u8);
    v.push('e' as u8);
    v.push('c' as u8);
    v.push('i' as u8);
    proof {
        assert(v@ =~= lit_p_speci());
    }
    v
}

/// `"\t\t\tethi"`
pub open spec fn lit_p_ethi() -> Seq<u8> {
    seq![9u8, 9u8, 9u8, 'e' as u8, 't' as u8, 'h' as u8, 'i' as u8]
}

/// Renders `"\t\t\tethi"`.
pub fn mk_p_ethi() -> (v: Vec<u8>)
    ensures
        v@ == lit_p_ethi(),
{
    let mut v: Vec<u8> = Vec::new();
    v.push(9u8);
    v.push(9u8);
    v.push(9u8);
    v.push('e' as u8);
    v.push('t' as u8);
    v.push('h' as u8);
    v.push('i' as u8);
    proof {
        assert(v@ =~= lit_p_ethi());
    }
    v
}

/// `"\t\tjob=\""`
pub open spec fn lit_p_job() -> Seq<u8> {
    seq![9u8, 9u8, 'j' as u8, 'o' as u8, 'b' as u8, '=' as u8, 34u8]
}

/// Renders `"\t\tjob=\""`.
pub fn mk_p_job() -> (v: Vec<u8>)
    ensures
        v@ == lit_p_job(),
{
    let mut v: Vec<u8> = Vec::new();
    v.push(9u8);
    v.push(9u8);
    v.push('j' as u8);
    v.push('o' as u8);
    v.push('b' as u8);
    v.push('=' as u8);
    v.push(34u8);
    proof {
        assert(v@ =~= lit_p_job());
    }
    v
}

/// `"\t\tcateg"`
pub open spec fn lit_p_categ() -> Seq<u8> {
    seq![9u8, 9u8, 'c' as u8, 'a' as u8, 't' as u8, 'e' as u8, 'g' as u8]
}

/// Renders `"\t\tcateg"`.
pub fn mk_p_categ() -> (v: Vec<u8>)
    ensures
        v@ == lit_p_categ(),
{
    let mut v: Vec<u8> = Vec::new();
    v.push(9u8);
    v.push(9u8);
    v.push('c' as u8);
    v.push('a' as u8);
    v.push('t' as u8);
    v.push('e' as u8);
    v.push('g' as u8);
    proof {
        assert(v@ =~= lit_p_categ());
    }
    v
}

/// `"\t\tplane"`
pub open spec fn lit_p_plane() -> Seq<u8> {
    seq![9u8, 9u8, 'p' as u8, 'l' as u8, 'a' as u8, 'n' as u8, 'e' as u8]
}

/// Renders `"\t\tplane"`.
pub fn mk_p_plane() -> (v: Vec<u8>)
    ensures
        v@ == lit_p_plane(),
{
    let mut v: Vec<u8> = Vec::new();
    v.push(9u8);
    v.push(9u8);
    v.push('p' as u8);
    v.push('l' as u8);
    v.push('a' as u8);
    v.push('n' as u8);
    v.push('e' as u8);
    proof {
        assert(v@ =~= lit_p_plane());
    }
    v
}

/// `"\t\tensla"`
pub open spec fn lit_p_ensla() -> Seq<u8> {
    seq![9u8, 9u8, 'e' as u8, 'n' as u8, 's' as u8, 'l' as u8, 'a' as u8]
}

/// Renders `"\t\tensla"`.
pub fn mk_p_ensla() -> (v: Vec<u8>)
    ensures
        v@ == lit_p_ensla(),
{
    let mut v: Vec<u8> = Vec::new();
    v.push(9u8);
    v.push(9u8);
    v.push('e' as u8);
    v.push('n' as u8);
    v.push('s' as u8);
    v.push('l' as u8);
    v.push('a' as u8);
    proof {
        assert(v@ =~= lit_p_ensla());
    }
    v
}

/// `"\t\t\tx="`
pub open spec fn lit_p_x() -> Seq<u8> {
    seq![9u8, 9u8, 9u8, 'x' as u8, '=' as u8]
}

/// Renders `"\t\t\tx="`.
pub fn mk_p_x() -> (v: Vec<u8>)
    ensures
        v@ == lit_p_x(),
{
    let mut v: Vec<u8> = Vec::new();
    v.push(9u8);
    v.push(9u8);
    v.push(9u8);
    v.push('x' as u8);
    v.push('=' as u8);
    proof {
        assert(v@ =~= lit_p_x());
    }
    v
}

/// `"\t\t\ty="`
pub open spec fn lit_p_y() -> Seq<u8> {
    seq![9u8, 9u8, 9u8, 'y' as u8, '=' as u8]
}

/// Renders `"\t\t\ty="`.
pub fn mk_p_y() -> (v: Vec<u8>)
    ensures
        v@ == lit_p_y(),
{
    let mut v: Vec<u8> = Vec::new();
    v.push(9u8);
    v.push(9u8);
    v.push(9u8);
    v.push('y' as u8);
    v.push('=' as u8);
    proof {
        assert(v@ =~= lit_p_y());
    }
    v
}

/// `"\t\ttyp"`
pub open spec fn lit_p_typ() -> Seq<u8> {
    seq![9u8, 9u8, 't' as u8, 'y' as u8, 'p' as u8]
}

/// Renders `"\t\ttyp"`.
pub fn mk_p_typ() -> (v: Vec<u8>)
    ensures
        v@ == lit_p_typ(),
{
    let mut v: Vec<u8> = Vec::new();
    v.push(9u8);
    v.push(9u8);
    v.push('t' as u8);
    v.push('y' as u8);
    v.push('p' as u8);
    proof {
        assert(v@ =~= lit_p_typ());
    }
    v
}

/// `"\t\tnam"`
pub open spec fn lit_p_nam() -> Seq<u8> {
    seq![9u8, 9u8, 'n' as u8, 'a' as u8, 'm' as u8]
}

/// Renders `"\t\tnam"`.
pub fn mk_p_nam() -> (v: Vec<u8>)
    ensures
        v@ == lit_p_nam(),
{
    let mut v: Vec<u8> = Vec::new();
    v.push(9u8);
    v.push(9u8);
    v.push('n' as u8);
    v.push('a' as u8);
    v.push('m' as u8);
    proof {
        assert(v@ =~= lit_p_nam());
    }
    v
}

/// `"\t\tpla"`
pub open spec fn lit_p_pla() -> Seq<u8> {
    seq![9u8, 9u8, 'p' as u8, 'l' as u8, 'a' as u8]
}

/// Renders `"\t\tpla"`.
pub fn mk_p_pla() -> (v: Vec<u8>)
    ensures
        v@ == lit_p_pla(),
{
    let mut v: Vec<u8> = Vec::new();
    v.push(9u8);
    v.push(9u8);
    v.push('p' as u8);
    v.push('l' as u8);
    v.push('a' as u8);
    proof {
        assert(v@ =~= lit_p_pla());
    }
    v
}

/// `"\tcolor"`
pub open spec fn lit_p_color() -> Seq<u8> {
    seq![9u8, 'c' as u8, 'o' as u8, 'l' as u8, 'o' as u8, 'r' as u8]
}

/// Renders `"\tcolor"`.
pub fn mk_p_color() -> (v: Vec<u8>)
    ensures
        v@ == lit_p_color(),
{
    let mut v: Vec<u8> = Vec::new();
    v.push(9u8);
    v.push('c' as u8);
    v.push('o' as u8);
    v.push('l' as u8);
    v.push('o' as u8);
    v.push('r' as u8);
    proof {
        assert(v@ =~= lit_p_color());
    }
    v
}

/// `"name=\""`
pub open spec fn lit_p_namq() -> Seq<u8> {
    seq!['n' as u8, 'a' as u8, 'm' as u8, 'e' as u8, '=' as u8, 34u8]
}

/// Renders `"name=\""`.
pub fn mk_p_namq() -> (v: Vec<u8>)
    ensures
        v@ == lit_p_namq(),
{
    let mut v: Vec<u8> = Vec::new();
    v.push('n' as u8);
    v.push('a' as u8);
    v.push('m' as u8);
    v.push('e' as u8);
    v.push('=' as u8);
    v.push(34u8);
    proof {
        assert(v@ =~= lit_p_namq());
    }
    v
}

/// `"adject"`
pub open spec fn lit_p_adject() -> Seq<u8> {
    seq!['a' as u8, 'd' as u8, 'j' as u8, 'e' as u8, 'c' as u8, 't' as u8]
}

/// Renders `"adject"`.
pub fn mk_p_adject() -> (v: Vec<u8>)
    ensures
        v@ == lit_p_adject(),
{
    let mut v: Vec<u8> = Vec::new();
    v.push('a' as u8);
    v.push('d' as u8);
    v.push('j' as u8);
    v.push('e' as u8);
    v.push('c' as u8);
    v.push('t' as u8);
    proof {
        assert(v@ =~= lit_p_adject());
    }
    v
}

/// `"ethos="`
pub open spec fn lit_p_ethos() -> Seq<u8> {
    seq!['e' as u8, 't' as u8, 'h' as u8, 'o' as u8, 's' as u8, '=' as u8]
}

/// Renders `"ethos="`.
pub fn mk_p_ethos() -> (v: Vec<u8>)
    ensures
        v@ == lit_p_ethos(),
{
    let mut v: Vec<u8> = Vec::new();
    v.push('e' as u8);
    v.push('t' as u8);
    v.push('h' as u8);
    v.push('o' as u8);
    v.push('s' as u8);
    v.push('=' as u8);
    proof {
        assert(v@ =~= lit_p_ethos());
    }
    v
}

/// `"owned_"`
pub open spec fn lit_p_owned() -> Seq<u8> {
    seq!['o' as u8, 'w' as u8, 'n' as u8, 'e' as u8, 'd' as u8, '_' as u8]
}

/// Renders `"owned_"`.
pub fn mk_p_owned() -> (v: Vec<u8>)
    ensures
        v@ == lit_p_owned(),
{
    let mut v: Vec<u8> = Vec::new();
    v.push('o' as u8);
    v.push('w' as u8);
    v.push('n' as u8);
    v.push('e' as u8);
    v.push('d' as u8);
    v.push('_' as u8);
    proof {
        assert(v@ =~= lit_p_owned());
    }
    v
}

/// `"yes"`
pub open spec fn lit_yes_w() -> Seq<u8> {
    seq!['y' as u8, 'e' as u8, 's' as u8]
}

/// Renders `"yes"`.
pub fn mk_yes_w() -> (v: Vec<u8>)
    ensures
        v@ == lit_yes_w(),
{
    let mut v: Vec<u8> = Vec::new();
    v.push('y' as u8);
    v.push('e' as u8);
    v.push('s' as u8);
    proof {
        assert(v@ =~= lit_yes_w());
    }
    v
}

/// `"no"`
pub open spec fn lit_no_w() -> Seq<u8> {
    seq!['n' as u8, 'o' as u8]
}

/// Renders `"no"`.
pub fn mk_no_w() -> (v: Vec<u8>)
    ensures
        v@ == lit_no_w(),
{
    let mut v: Vec<u8> = Vec::new();
    v.push('n' as u8);
    v.push('o' as u8);
    proof {
        assert(v@ =~= lit_no_w());
    }
    v
}

/// `"null"`
pub open spec fn lit_null_w() -> Seq<u8> {
    seq!['n' as u8, 'u' as u8, 'l' as u8, 'l' as u8]
}

/// Renders `"null"`.
pub fn mk_null_w() -> (v: Vec<u8>)
    ensures
        v@ == lit_null_w(),
{
    let mut v: Vec<u8> = Vec::new();
    v.push('n' as u8);
    v.push('u' as u8);
    v.push('l' as u8);
    v.push('l' as u8);
    proof {
        assert(v@ =~= lit_null_w());
    }
    v
}


/// Index of the first occurrence of `b` in `s`, or `s.len()` if absent.
pub open spec fn find_byte(s: Seq<u8>, b: u8) -> int
    decreases s.len(),
{
    if s.len() == 0 {
        0
    } else if s[0] == b {
        0
    } else {
        1 + find_byte(s.drop_first(), b)
    }
}

pub proof fn lemma_find_byte_bounds(s: Seq<u8>, b: u8)
    ensures
        0 <= find_byte(s, b) <= s.len(),
        forall|k: int| 0 <= k < find_byte(s, b) ==> s[k] != b,
        find_byte(s, b) < s.len() ==> s[find_byte(s, b)] == b,
    decreases s.len(),
{
    if s.len() > 0 && s[0] != b {
        let t = s.drop_first();
        lemma_find_byte_bounds(t, b);
        assert forall|k: int| 0 <= k < find_byte(s, b) implies s[k] != b by {
            if k > 0 {
                assert(s[k] == t[k - 1]);
            }
        }
    }
}

/// A position whose earlier bytes all differ from `b` and that holds `b`
/// (or is the end) is where `find_byte` points.
pub proof fn lemma_find_byte_at(s: Seq<u8>, b: u8, j: int)
    requires
        0 <= j <= s.len(),
        forall|k: int| 0 <= k < j ==> s[k] != b,
        j < s.len() ==> s[j] == b,
        j == s.len() ==> forall|k: int| 0 <= k < s.len() ==> s[k] != b,
    ensures
        find_byte(s, b) == j,
    decreases s.len(),
{
    if s.len() > 0 && s[0] != b {
        let t = s.drop_first();
        assert(forall|k: int| 0 <= k < j - 1 ==> t[k] != b);
        if j == s.len() {
            assert(forall|k: int| 0 <= k < t.len() ==> t[k] != b);
        }
        lemma_find_byte_at(t, b, j - 1);
    }
}

/// Finds the first occurrence of `b` in `v`.
pub fn find_byte_at(v: &Vec<u8>, b: u8) -> (r: usize)
    ensures
        r == find_byte(v@, b),
{
    proof {
        lemma_find_byte_bounds(v@, b);
    }
    let mut i: usize = 0;
    while i < v.len()
        invariant
            0 <= i <= v@.len(),
            forall|k: int| 0 <= k < i ==> v@[k] != b,
        decreases v@.len() - i,
    {
        if v[i] == b {
            proof {
                lemma_find_byte_at(v@, b, i as int);
            }
            return i;
        }
        i = i + 1;
    }
    proof {
        lemma_find_byte_at(v@, b, v@.len() as int);
    }
    i
}


/// Index of the first `", "` separator in `s`, or `s.len()` if absent.
pub open spec fn find_sep(s: Seq<u8>) -> int
    decreases s.len(),
{
    if s.len() == 0 {
        0
    } else if s.len() >= 2 && s[0] == ',' as u8 && s[1] == ' ' as u8 {
        0
    } else {
        1 + find_sep(s.drop_first())
    }
}

pub proof fn lemma_find_sep_bounds(s: Seq<u8>)
    ensures
        0 <= find_sep(s) <= s.len(),
        find_sep(s) + 2 <= s.len() ==> s[find_sep(s)] == ',' as u8 && s[find_sep(s) + 1]
            == ' ' as u8,
        forall|k: int|
            0 <= k < find_sep(s) && k + 2 <= s.len() ==> !(#[trigger] s[k] == ',' as u8 && s[k + 1]
                == ' ' as u8),
    decreases s.len(),
{
    if s.len() > 0 && !(s.len() >= 2 && s[0] == ',' as u8 && s[1] == ' ' as u8) {
        let t = s.drop_first();
        lemma_find_sep_bounds(t);
        assert forall|k: int|
            0 <= k < find_sep(s) && k + 2 <= s.len() implies !(#[trigger] s[k] == ',' as u8 && s[k + 1]
            == ' ' as u8) by {
            if k > 0 {
                assert(s[k] == t[k - 1]);
                assert(s[k + 1] == t[k]);
            }
        }
        if find_sep(s) + 2 <= s.len() {
            assert(s[find_sep(s)] == t[find_sep(s) - 1]);
            assert(s[find_sep(s) + 1] == t[find_sep(s)]);
        }
    }
}

/// A position whose earlier positions hold no separator, and that holds one
/// unless it is the end, is where `find_sep` points.
pub proof fn lemma_find_sep_at(s: Seq<u8>, j: int)
    requires
        0 <= j <= s.len(),
        forall|k: int| 0 <= k < j ==> !(k + 2 <= s.len() && #[trigger] s[k] == ',' as u8 && s[k + 1] == ' ' as u8),
        j < s.len() ==> j + 2 <= s.len() && s[j] == ',' as u8 && s[j + 1] == ' ' as u8,
        j == s.len() ==> forall|k: int| 0 <= k < s.len() ==> !(k + 2 <= s.len() && #[trigger] s[k] == ',' as u8 && s[k + 1] == ' ' as u8),
    ensures
        find_sep(s) == j,
    decreases s.len(),
{
    if s.len() == 0 {
    } else if s.len() >= 2 && s[0] == ',' as u8 && s[1] == ' ' as u8 {
        assert(j == 0);
    } else {
        let t = s.drop_first();
        assert forall|k: int|
            0 <= k < j - 1 implies !(k + 2 <= t.len() && #[trigger] t[k] == ',' as u8 && t[k + 1]
            == ' ' as u8) by {
            assert(t[k] == s[k + 1]);
            if k + 3 <= s.len() {
                assert(t[k + 1] == s[k + 2]);
            }
        }
        if j == s.len() {
            assert forall|k: int|
                0 <= k < t.len() implies !(k + 2 <= t.len() && #[trigger] t[k] == ',' as u8 && t[k
                + 1] == ' ' as u8) by {
                assert(t[k] == s[k + 1]);
                if k + 3 <= s.len() {
                    assert(t[k + 1] == s[k + 2]);
                }
            }
        }
        if j < s.len() {
            assert(t[j - 1] == s[j]);
            assert(t[j] == s[j + 1]);
        }
        lemma_find_sep_at(t, j - 1);
    }
}

/// Finds the first `", "` separator in `v`.
pub fn find_sep_at(v: &Vec<u8>) -> (r: usize)
    ensures
        r == find_sep(v@),
{
    proof {
        lemma_find_sep_bounds(v@);
    }
    let mut i: usize = 0;
    while i < v.len()
        invariant
            0 <= i <= v@.len(),
            forall|k: int|
                0 <= k < i ==> !(k + 2 <= v@.len() && #[trigger] v@[k] == ',' as u8 && v@[k + 1] == ' ' as u8),
        decreases v@.len() - i,
    {
        if v[i] == ',' as u8 && i + 1 < v.len() {
            if v[i + 1] == ' ' as u8 {
                proof {
                    lemma_find_sep_at(v@, i as int);
                }
                return i;
            }
        }
        i = i + 1;
    }
    proof {
        lemma_find_sep_at(v@, v@.len() as int);
    }
    i
}

/// `"size"`
pub open spec fn lit_p_size() -> Seq<u8> {
    seq!['s' as u8, 'i' as u8, 'z' as u8, 'e' as u8]
}

/// Renders `"size"`.
pub fn mk_p_size() -> (v: Vec<u8>)
    ensures
        v@ == lit_p_size(),
{
    let mut v: Vec<u8> = Vec::new();
    v.push('s' as u8);
    v.push('i' as u8);
    v.push('z' as u8);
    v.push('e' as u8);
    proof {
        assert(v@ =~= lit_p_size());
    }
    v
}

/// `"clas"`
pub open spec fn lit_p_clas() -> Seq<u8> {
    seq!['c' as u8, 'l' as u8, 'a' as u8, 's' as u8]
}

/// Renders `"clas"`.
pub fn mk_p_clas() -> (v: Vec<u8>)
    ensures
        v@ == lit_p_clas(),
{
    let mut v: Vec<u8> = Vec::new();
    v.push('c' as u8);
    v.push('l' as u8);
    v.push('a' as u8);
    v.push('s' as u8);
    proof {
        assert(v@ =~= lit_p_clas());
    }
    v
}

/// `"plane"`
pub open spec fn lit_p_plane5() -> Seq<u8> {
    seq!['p' as u8, 'l' as u8, 'a' as u8, 'n' as u8, 'e' as u8]
}

/// Renders `"plane"`.
pub fn mk_p_plane5() -> (v: Vec<u8>)
    ensures
        v@ == lit_p_plane5(),
{
    let mut v: Vec<u8> = Vec::new();
    v.push('p' as u8);
    v.push('l' as u8);
    v.push('a' as u8);
    v.push('n' as u8);
    v.push('e' as u8);
    proof {
        assert(v@ =~= lit_p_plane5());
    }
    v
}

} // verus!

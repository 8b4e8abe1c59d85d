//! Decimal codec for the unsigned and signed integer tokens of both text
//! formats: digit strings to values and values back to canonical digit
//! strings.
use crate::errors::{ParseError, Section};
use vstd::prelude::*;

verus! {

/// True of an ASCII decimal digit byte.
pub open spec fn is_digit(b: u8) -> bool {
    48 <= b <= 57
}

/// True when every byte of `s` is an ASCII decimal digit.
pub open spec fn all_digits(s: Seq<u8>) -> bool {
    forall|i: int| 0 <= i < s.len() ==> is_digit(#[trigger] s[i])
}

/// Numeric value of a digit string, most significant digit first.
pub open spec fn dec_val(s: Seq<u8>) -> int
    decreases s.len(),
{
    if s.len() == 0 {
        0
    } else {
        dec_val(s.drop_last()) * 10 + (s.last() - 48)
    }
}

/// Canonical decimal digit string of a non-negative value.
pub open spec fn dec_of(n: nat) -> Seq<u8>
    decreases n,
{
    if n < 10 {
        seq![(48 + n) as u8]
    } else {
        dec_of(n / 10).push((48 + n % 10) as u8)
    }
}

pub proof fn lemma_dec_of_digits(n: nat)
    ensures
        all_digits(dec_of(n)),
        dec_of(n).len() >= 1,
    decreases n,
{
    if n >= 10 {
        lemma_dec_of_digits(n / 10);
    }
}

/// The canonical digit string of a value reads back as that value.
pub proof fn lemma_dec_val_dec_of(n: nat)
    ensures
        dec_val(dec_of(n)) == n,
    decreases n,
{
    if n < 10 {
        let t = seq![(48 + n) as u8];
        assert(dec_of(n) == t);
        assert(t.drop_last() =~= Seq::<u8>::empty());
        assert(t.last() == (48 + n) as u8);
        assert(dec_val(t) == dec_val(t.drop_last()) * 10 + (t.last() - 48));
        assert(dec_val(Seq::<u8>::empty()) == 0);
        assert(dec_val(t) == n);
    } else {
        lemma_dec_val_dec_of(n / 10);
        let s = dec_of(n / 10);
        let d = (48 + n % 10) as u8;
        let t = s.push(d);
        assert(t.drop_last() =~= s);
        assert(t.last() == d);
        assert(dec_val(t) == dec_val(s) * 10 + (d - 48));
        assert(n / 10 * 10 + n % 10 == n) by {
            vstd::arithmetic::div_mod::lemma_fundamental_div_mod(n as int, 10);
        }
    }
}

/// A digit prefix never exceeds the value of the whole digit string.
pub proof fn lemma_dec_val_prefix_le(s: Seq<u8>, i: int)
    requires
        all_digits(s),
        0 <= i <= s.len(),
    ensures
        dec_val(s.subrange(0, i)) <= dec_val(s),
    decreases s.len() - i,
{
    if i == s.len() {
        assert(s.subrange(0, i) =~= s);
    } else {
        lemma_dec_val_prefix_le(s, i + 1);
        let t = s.subrange(0, i + 1);
        assert(t.drop_last() =~= s.subrange(0, i));
        assert(dec_val(s.subrange(0, i)) * 10 + (t.last() - 48) == dec_val(t));
        assert(dec_val(s.subrange(0, i)) >= 0) by {
            lemma_dec_val_nonneg(s.subrange(0, i));
        }
    }
}

pub proof fn lemma_dec_val_nonneg(s: Seq<u8>)
    requires
        all_digits(s),
    ensures
        dec_val(s) >= 0,
    decreases s.len(),
{
    if s.len() > 0 {
        assert(all_digits(s.drop_last()));
        lemma_dec_val_nonneg(s.drop_last());
    }
}

/// Renders a value as its canonical decimal digit string.
pub fn usize_to_dec(n: usize) -> (v: Vec<u8>)
    ensures
        v@ == dec_of(n as nat),
    decreases n,
{
    if n < 10 {
        let mut v: Vec<u8> = Vec::new();
        v.push(48 + (n as u8));
        assert(v@ =~= dec_of(n as nat));
        v
    } else {
        let mut v = usize_to_dec(n / 10);
        v.push(48 + ((n % 10) as u8));
        v
    }
}

/// Reads a decimal digit string as a value; fails on an empty string, a
/// non-digit byte, or a value over `usize::MAX`.
pub fn parser(s: &Vec<u8>) -> (r: Result<usize, ParseError>)
    ensures
        r is Ok <==> (s@.len() > 0 && all_digits(s@) && dec_val(s@) <= usize::MAX),
        r is Ok ==> r->Ok_0 == dec_val(s@),
{
    if s.len() == 0 {
        return Err(ParseError::new(Section::Number, s.clone()));
    }
    let mut acc: usize = 0;
    let mut i: usize = 0;
    while i < s.len()
        invariant
            0 <= i <= s@.len(),
            s@.len() > 0,
            all_digits(s@.subrange(0, i as int)),
            acc == dec_val(s@.subrange(0, i as int)),
        decreases s@.len() - i,
    {
        let b = s[i];
        if b < 48 || b > 57 {
            assert(!all_digits(s@));
            return Err(ParseError::new(Section::Number, s.clone()));
        }
        let d = (b - 48) as usize;
        if acc > (usize::MAX - d) / 10 {
            proof {
                let t = s@.subrange(0, i + 1);
                assert(t.drop_last() =~= s@.subrange(0, i as int));
                assert(dec_val(t) == acc * 10 + d);
                assert(dec_val(t) > usize::MAX);
                if all_digits(s@) {
                    lemma_dec_val_prefix_le(s@, i + 1);
                }
            }
            return Err(ParseError::new(Section::Number, s.clone()));
        }
        assert(acc * 10 + d <= usize::MAX) by (nonlinear_arith)
            requires
                acc <= (usize::MAX - d) / 10,
                0 <= d <= 9,
        ;
        acc = acc * 10 + d;
        i = i + 1;
        proof {
            let t = s@.subrange(0, i as int);
            assert(t.drop_last() =~= s@.subrange(0, i - 1));
            assert(t.last() == b);
        }
    }
    proof {
        assert(s@.subrange(0, s@.len() as int) =~= s@);
    }
    Ok(acc)
}

/// Renders a value as its canonical decimal digit string.
pub fn u64_to_dec(n: u64) -> (v: Vec<u8>)
    ensures
        v@ == dec_of(n as nat),
    decreases n,
{
    if n < 10 {
        let mut v: Vec<u8> = Vec::new();
        v.push(48 + (n as u8));
        assert(v@ =~= dec_of(n as nat));
        v
    } else {
        let mut v = u64_to_dec(n / 10);
        v.push(48 + ((n % 10) as u8));
        v
    }
}

/// A leading zero does not change the value of a digit string.
pub proof fn lemma_dec_val_lead_zero(s: Seq<u8>)
    ensures
        dec_val(seq![48u8] + s) == dec_val(s),
    decreases s.len(),
{
    if s.len() == 0 {
        let t = seq![48u8] + s;
        assert(t =~= seq![48u8]);
        assert(t.drop_last() =~= Seq::<u8>::empty());
        assert(t.last() == 48u8);
        assert(dec_val(t) == dec_val(t.drop_last()) * 10 + (t.last() - 48));
    } else {
        let t = seq![48u8] + s;
        assert(t.drop_last() =~= seq![48u8] + s.drop_last());
        assert(t.last() == s.last());
        lemma_dec_val_lead_zero(s.drop_last());
    }
}

/// Checks every byte for being an ASCII decimal digit.
pub fn all_digits_check(v: &Vec<u8>) -> (r: bool)
    ensures
        r == all_digits(v@),
{
    let mut i: usize = 0;
    while i < v.len()
        invariant
            0 <= i <= v@.len(),
            all_digits(v@.subrange(0, i as int)),
        decreases v@.len() - i,
    {
        if v[i] < 48 || v[i] > 57 {
            assert(!all_digits(v@));
            return false;
        }
        proof {
            assert(v@.subrange(0, i + 1) =~= v@.subrange(0, i as int).push(v@[i as int]));
        }
        i = i + 1;
    }
    proof {
        assert(v@.subrange(0, v@.len() as int) =~= v@);
    }
    true
}

} // verus!

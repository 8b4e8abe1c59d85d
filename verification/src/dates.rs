//! The date codec: both textual layouts decode to a single linear day count
//! under a schematic calendar of twelve 30-day months, and the day count
//! renders back to a legible date string.
use crate::errors::{ParseError, Section};
use crate::num::{all_digits, dec_of, dec_val, lemma_dec_of_digits, lemma_dec_val_dec_of, parser};
use crate::text::{find_byte, lemma_find_byte_at, lemma_find_byte_bounds, lit_brace_suffix,
    find_byte_at, slice_of};
use vstd::arithmetic::div_mod::lemma_fundamental_div_mod_converse;
use vstd::prelude::*;

verus! {

/// The linear day count of a calendar date: years count 360 days, months 30.
pub open spec fn day_count(y: int, m: int, d: int) -> int {
    360 * (y - 2200) + 30 * (m - 1) + (d - 1)
}

/// Years since 2200 of a day count.
pub open spec fn year_of(date: int) -> int {
    date / 360
}

/// Zero-based month of a day count.
pub open spec fn month_of(date: int) -> int {
    date / 30 - 12 * (date / 360)
}

/// Zero-based day of month of a day count.
pub open spec fn day_of(date: int) -> int {
    date - 30 * month_of(date) - 360 * year_of(date)
}

/// The split of a day count into year, month and day is exact and in range.
pub proof fn lemma_date_split(date: int)
    requires
        0 <= date,
    ensures
        0 <= year_of(date),
        0 <= month_of(date) < 12,
        0 <= day_of(date) < 30,
        date == 360 * year_of(date) + 30 * month_of(date) + day_of(date),
{
    let y = date / 360;
    let r = date % 360;
    vstd::arithmetic::div_mod::lemma_fundamental_div_mod(date, 360);
    vstd::arithmetic::div_mod::lemma_mod_bound(date, 360);
    vstd::arithmetic::div_mod::lemma_div_pos_is_pos(date, 360);
    assert(date == 360 * y + r);
    let m = r / 30;
    let d = r % 30;
    vstd::arithmetic::div_mod::lemma_fundamental_div_mod(r, 30);
    vstd::arithmetic::div_mod::lemma_mod_bound(r, 30);
    vstd::arithmetic::div_mod::lemma_div_pos_is_pos(r, 30);
    assert(r == 30 * m + d);
    assert(m < 12) by {
        if m >= 12 {
            assert(r >= 30 * 12) by (nonlinear_arith)
                requires
                    r / 30 >= 12,
                    r >= 0,
            {
                vstd::arithmetic::div_mod::lemma_fundamental_div_mod(r, 30);
                vstd::arithmetic::div_mod::lemma_mod_bound(r, 30);
            }
        }
    }
    assert(date / 30 == 12 * y + m) by {
        lemma_fundamental_div_mod_converse(date, 30, 12 * y + m, d);
    }
}

/// Splitting the day count of an in-domain calendar date gives that date
/// back: the codec is a bijection between day counts and calendar dates.
pub proof fn lemma_date_codec_bijective(y: int, m: int, d: int)
    requires
        2200 <= y,
        1 <= m <= 12,
        1 <= d <= 30,
    ensures
        0 <= day_count(y, m, d),
        year_of(day_count(y, m, d)) + 2200 == y,
        month_of(day_count(y, m, d)) + 1 == m,
        day_of(day_count(y, m, d)) + 1 == d,
{
    let dc = day_count(y, m, d);
    let rest = 30 * (m - 1) + (d - 1);
    lemma_fundamental_div_mod_converse(dc, 360, y - 2200, rest);
    lemma_fundamental_div_mod_converse(dc, 30, 12 * (y - 2200) + (m - 1), d - 1);
}

/// The legible rendering of a day count: dotted year, month and day, the
/// month and day padded with a leading zero exactly when the zero-based
/// value is a multiple of ten.
pub open spec fn legible_of(date: int) -> Seq<u8> {
    let ys = dec_of((year_of(date) + 2200) as nat);
    let m0 = dec_of((month_of(date) + 1) as nat);
    let ms = if month_of(date) % 10 == 0 {
        seq![48u8] + m0
    } else {
        m0
    };
    let d0 = dec_of((day_of(date) + 1) as nat);
    let ds = if day_of(date) % 10 == 0 {
        seq![48u8] + d0
    } else {
        d0
    };
    ys + seq!['.' as u8] + ms + seq!['.' as u8] + ds
}

/// Renders a day count as its legible date string.
pub fn date_legible_bytes(date: usize) -> (v: Vec<u8>)
    ensures
        v@ == legible_of(date as int),
{
    proof {
        lemma_date_split(date as int);
    }
    let year: usize = date / 360;
    let month: usize = date / 30 - 12 * year;
    let day: usize = date - (month * 30) - (year * 360);
    let mut v = crate::num::usize_to_dec(year + 2200);
    v.push('.' as u8);
    if month % 10 == 0 {
        v.push(48u8);
    }
    let ms = crate::num::usize_to_dec(month + 1);
    crate::text::append(&mut v, &ms);
    v.push('.' as u8);
    if day % 10 == 0 {
        v.push(48u8);
    }
    let ds = crate::num::usize_to_dec(day + 1);
    crate::text::append(&mut v, &ds);
    proof {
        assert(v@ =~= legible_of(date as int));
    }
    v
}

/// The date a gamestate header line holds: a `date="YYYY.MM.DD"` line read
/// at fixed offsets, rejected when a segment is not numeric or the calendar
/// date has no day count.
pub open spec fn header_date_of(line: Seq<u8>) -> Option<int> {
    if line.len() < 16 {
        None
    } else {
        let ys = line.subrange(6, 10);
        let ms = line.subrange(11, 13);
        let ds = line.subrange(14, 16);
        if all_digits(ys) && all_digits(ms) && all_digits(ds) {
            let y = dec_val(ys);
            let m = dec_val(ms);
            let d = dec_val(ds);
            if y >= 2200 && m >= 1 && d >= 1 {
                Some(day_count(y, m, d))
            } else {
                None
            }
        } else {
            None
        }
    }
}

/// Ten to the `n`.
pub open spec fn pow10(n: nat) -> nat
    decreases n,
{
    if n == 0 {
        1
    } else {
        10 * pow10((n - 1) as nat)
    }
}

/// A digit string of length `n` holds a value below ten to the `n`.
pub proof fn lemma_dec_val_small(s: Seq<u8>)
    requires
        all_digits(s),
    ensures
        0 <= dec_val(s) < pow10(s.len()),
    decreases s.len(),
{
    if s.len() > 0 {
        assert(all_digits(s.drop_last()));
        lemma_dec_val_small(s.drop_last());
    }
}

/// Decodes the date of a gamestate header line.
pub fn setdate(line: &Vec<u8>) -> (r: Result<usize, ParseError>)
    ensures
        r is Ok <==> header_date_of(line@) is Some,
        r is Ok ==> r->Ok_0 == header_date_of(line@)->Some_0,
{
    if line.len() < 16 {
        return Err(ParseError::new(Section::Date, slice_of(line, 0, line.len())));
    }
    let ys = slice_of(line, 6, 10);
    let ms = slice_of(line, 11, 13);
    let ds = slice_of(line, 14, 16);
    let y = match parser(&ys) {
        Ok(v) => v,
        Err(e) => {
            proof {
                if all_digits(ys@) {
                    lemma_dec_val_small(ys@);
                    assert(pow10(4) == 10000) by {
                    reveal_with_fuel(pow10, 5);
                }
                }
            }
            return Err(e);
        },
    };
    let m = match parser(&ms) {
        Ok(v) => v,
        Err(e) => {
            proof {
                if all_digits(ms@) {
                    lemma_dec_val_small(ms@);
                    assert(pow10(2) == 100) by {
                    reveal_with_fuel(pow10, 3);
                }
                }
            }
            return Err(e);
        },
    };
    let d = match parser(&ds) {
        Ok(v) => v,
        Err(e) => {
            proof {
                if all_digits(ds@) {
                    lemma_dec_val_small(ds@);
                    assert(pow10(2) == 100) by {
                    reveal_with_fuel(pow10, 3);
                }
                }
            }
            return Err(e);
        },
    };
    if y < 2200 || m < 1 || d < 1 {
        return Err(ParseError::new(Section::Date, slice_of(line, 0, line.len())));
    }
    proof {
        lemma_dec_val_small(ys@);
        lemma_dec_val_small(ms@);
        lemma_dec_val_small(ds@);
        assert(pow10(4) == 10000) by {
                    reveal_with_fuel(pow10, 5);
                }
        assert(pow10(2) == 100) by {
                    reveal_with_fuel(pow10, 3);
                }
    }
    Ok(360 * (y - 2200) + 30 * (m - 1) + (d - 1))
}

/// The date a cache snapshot header line holds: the legible date string
/// followed by ` {`, its three dot-separated segments read as numbers.
/// `None` when the shape is wrong, a segment is not numeric, the calendar
/// date has no day count, or the day count exceeds `usize::MAX`.
pub open spec fn cache_date_of(line: Seq<u8>) -> Option<int> {
    if line.len() < 2 || line.subrange(line.len() - 2, line.len() as int) != lit_brace_suffix() {
        None
    } else {
        let s = line.subrange(0, line.len() - 2);
        let i = find_byte(s, '.' as u8);
        if i == s.len() {
            None
        } else {
            let t = s.subrange(i + 1, s.len() as int);
            let j = find_byte(t, '.' as u8);
            if j == t.len() {
                None
            } else {
                let ys = s.subrange(0, i);
                let ms = t.subrange(0, j);
                let ds = t.subrange(j + 1, t.len() as int);
                if ys.len() > 0 && ms.len() > 0 && ds.len() > 0 && all_digits(ys) && all_digits(ms)
                    && all_digits(ds) {
                    let y = dec_val(ys);
                    let m = dec_val(ms);
                    let d = dec_val(ds);
                    if y >= 2200 && m >= 1 && d >= 1 && y <= usize::MAX && m <= usize::MAX && d
                        <= usize::MAX && day_count(y, m, d) <= usize::MAX {
                        Some(day_count(y, m, d))
                    } else {
                        None
                    }
                } else {
                    None
                }
            }
        }
    }
}

/// Decodes the date of a cache snapshot header line.
pub fn setdate2(line: &Vec<u8>) -> (r: Result<usize, ParseError>)
    ensures
        r is Ok <==> cache_date_of(line@) is Some,
        r is Ok ==> r->Ok_0 == cache_date_of(line@)->Some_0,
{
    let n = line.len();
    if n < 2 {
        return Err(ParseError::new(Section::Date, slice_of(line, 0, n)));
    }
    let tail = slice_of(line, n - 2, n);
    if !crate::text::bytes_eq(&tail, &crate::text::mk_brace_suffix()) {
        return Err(ParseError::new(Section::Date, slice_of(line, 0, n)));
    }
    let s = slice_of(line, 0, n - 2);
    let i = find_byte_at(&s, '.' as u8);
    proof {
        lemma_find_byte_bounds(s@, '.' as u8);
    }
    if i == s.len() {
        return Err(ParseError::new(Section::Date, s));
    }
    let t = slice_of(&s, i + 1, s.len());
    let j = find_byte_at(&t, '.' as u8);
    proof {
        lemma_find_byte_bounds(t@, '.' as u8);
    }
    if j == t.len() {
        return Err(ParseError::new(Section::Date, s));
    }
    let ys = slice_of(&s, 0, i);
    let ms = slice_of(&t, 0, j);
    let ds = slice_of(&t, j + 1, t.len());
    if ys.len() == 0 || ms.len() == 0 || ds.len() == 0 {
        return Err(ParseError::new(Section::Date, s));
    }
    let y = match parser(&ys) {
        Ok(v) => v,
        Err(e) => {
            return Err(e);
        },
    };
    let m = match parser(&ms) {
        Ok(v) => v,
        Err(e) => {
            return Err(e);
        },
    };
    let d = match parser(&ds) {
        Ok(v) => v,
        Err(e) => {
            return Err(e);
        },
    };
    if y < 2200 || m < 1 || d < 1 {
        return Err(ParseError::new(Section::Date, s));
    }
    let t1 = match (y - 2200).checked_mul(360) {
        Some(v) => v,
        None => {
            return Err(ParseError::new(Section::Date, s));
        },
    };
    let t2 = match (m - 1).checked_mul(30) {
        Some(v) => v,
        None => {
            return Err(ParseError::new(Section::Date, s));
        },
    };
    let t3 = match t1.checked_add(t2) {
        Some(v) => v,
        None => {
            return Err(ParseError::new(Section::Date, s));
        },
    };
    let t4 = match t3.checked_add(d - 1) {
        Some(v) => v,
        None => {
            return Err(ParseError::new(Section::Date, s));
        },
    };
    Ok(t4)
}

/// Rendering a day count legibly and decoding it as a cache header line
/// gives the day count back.
#[verifier::rlimit(100)]
pub proof fn lemma_date_legible_round(date: int)
    requires
        0 <= date <= usize::MAX,
    ensures
        cache_date_of(legible_of(date) + lit_brace_suffix()) == Some(date),
{
    lemma_date_split(date);
    let year = year_of(date);
    let month = month_of(date);
    let day = day_of(date);
    let dot = '.' as u8;
    let ys = dec_of((year + 2200) as nat);
    let m0 = dec_of((month + 1) as nat);
    let ms = if month % 10 == 0 {
        seq![48u8] + m0
    } else {
        m0
    };
    let d0 = dec_of((day + 1) as nat);
    let ds = if day % 10 == 0 {
        seq![48u8] + d0
    } else {
        d0
    };
    let leg = legible_of(date);
    let line = leg + lit_brace_suffix();
    lemma_dec_of_digits((year + 2200) as nat);
    lemma_dec_of_digits((month + 1) as nat);
    lemma_dec_of_digits((day + 1) as nat);
    assert(all_digits(ms)) by {
        assert forall|k: int| 0 <= k < ms.len() implies crate::num::is_digit(ms[k]) by {
            if month % 10 == 0 {
                if k > 0 {
                    assert(ms[k] == m0[k - 1]);
                }
            }
        }
    }
    assert(all_digits(ds)) by {
        assert forall|k: int| 0 <= k < ds.len() implies crate::num::is_digit(ds[k]) by {
            if day % 10 == 0 {
                if k > 0 {
                    assert(ds[k] == d0[k - 1]);
                }
            }
        }
    }
    assert(line.subrange(line.len() - 2, line.len() as int) =~= lit_brace_suffix());
    let s2 = line.subrange(0, line.len() - 2);
    assert(s2 =~= leg);
    let rest = ms + seq![dot] + ds;
    assert(leg =~= ys + seq![dot] + rest);
    assert forall|k: int| 0 <= k < ys.len() implies leg[k] != dot by {
        assert(leg[k] == ys[k]);
        assert(crate::num::is_digit(ys[k]));
    }
    assert(leg[ys.len() as int] == dot);
    lemma_find_byte_at(leg, dot, ys.len() as int);
    let i = find_byte(s2, dot);
    assert(i == ys.len());
    let t = s2.subrange(i + 1, s2.len() as int);
    assert(t =~= rest);
    assert forall|k: int| 0 <= k < ms.len() implies t[k] != dot by {
        assert(rest[k] == ms[k]);
        assert(crate::num::is_digit(ms[k]));
    }
    assert(t[ms.len() as int] == dot);
    lemma_find_byte_at(t, dot, ms.len() as int);
    let j = find_byte(t, dot);
    assert(j == ms.len());
    let ys2 = s2.subrange(0, i);
    let ms2 = t.subrange(0, j);
    let ds2 = t.subrange(j + 1, t.len() as int);
    assert(ys2 =~= ys);
    assert(ms2 =~= ms);
    assert(ds2 =~= ds);
    lemma_dec_val_dec_of((year + 2200) as nat);
    lemma_dec_val_dec_of((month + 1) as nat);
    lemma_dec_val_dec_of((day + 1) as nat);
    if month % 10 == 0 {
        crate::num::lemma_dec_val_lead_zero(m0);
    }
    if day % 10 == 0 {
        crate::num::lemma_dec_val_lead_zero(d0);
    }
    assert(dec_val(ys2) == year + 2200);
    assert(dec_val(ms2) == month + 1);
    assert(dec_val(ds2) == day + 1);
    assert(day_count(year + 2200, month + 1, day + 1) == date);
    assert(cache_date_of(line) == Some(date));
}

} // verus!

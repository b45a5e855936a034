//! Whole columns corrupted: every cell by a draw of its own.
use vstd::prelude::*;
use vstd::string::*;
use vstd::utf8::encode_utf8;

use crate::dq::{
    corrupt_char_deletion, corrupt_char_insertion, corrupt_encoding, corrupt_truncation,
    draw_shift, hits, lossy_text, mangled_bytes, shift_day, shift_time, with_char, without_char,
    CorruptionStep,
};
use crate::draws::{draw_between, draw_inclusive};
use crate::models::Num;
use crate::text::opt_text;

verus! {

// ---------------------------------------------------------------------------
// Texts
// ---------------------------------------------------------------------------

/// A text with one character dropped.
pub open spec fn lost_char(s: Seq<char>, r: Seq<char>) -> bool {
    exists|at: int| 0 <= at < s.len() && r == #[trigger] without_char(s, at)
}

/// A text with one printable character put in.
pub open spec fn gained_char(s: Seq<char>, r: Seq<char>) -> bool {
    exists|at: int, which: int|
        0 <= at <= s.len() && 0 <= which < 95 && r == #[trigger] with_char(s, at, which)
}

/// A text cut off.
pub open spec fn cut_off(s: Seq<char>, r: Seq<char>) -> bool {
    exists|len: int| 0 <= len < s.len() && r == #[trigger] s.subrange(0, len)
}

/// A text read again after some of its bytes were mangled.
pub open spec fn misread(s: Seq<char>, r: Seq<char>) -> bool {
    exists|start: int, end: int|
        0 <= start <= end <= encode_utf8(s).len() && r == lossy_text(
            #[trigger] mangled_bytes(encode_utf8(s), start, end),
        )
}

/// `r` is what a step may make of a text: the text itself where its draw does not hit.
pub open spec fn text_after(step: CorruptionStep, draw: Num, s: Seq<char>, r: Seq<char>) -> bool {
    match step {
        CorruptionStep::Deletion(rate) => if s.len() == 0 || !hits(draw, rate) {
            r == s
        } else {
            lost_char(s, r)
        },
        CorruptionStep::Insertion(rate) => if !hits(draw, rate) {
            r == s
        } else {
            gained_char(s, r)
        },
        CorruptionStep::Truncation(rate) => if s.len() == 0 || !hits(draw, rate) {
            r == s
        } else {
            cut_off(s, r)
        },
        CorruptionStep::Encoding(rate) => if s.len() == 0 || !hits(draw, rate) {
            r == s
        } else {
            misread(s, r)
        },
        CorruptionStep::Noise { .. } | CorruptionStep::DayShift { .. } => r == s,
    }
}

fn below(n: usize) -> (r: usize)
    ensures
        n > 0 ==> r < n,
        n == 0 ==> r == 0,
{
    if n == 0 {
        0
    } else {
        draw_between(0, n as u64) as usize
    }
}

/// Corrupts a text. Where in the text it happens is chance.
pub fn corrupt_text(step: &CorruptionStep, draw: Num, s: &str) -> (r: String)
    ensures
        text_after(*step, draw, s@, r@),
{
    let n: usize = s.unicode_len();
    match *step {
        CorruptionStep::Deletion(rate) => {
            let at: usize = below(n);
            let r = corrupt_char_deletion(s, draw, rate, at);
            assert(r@ == s@ || r@ == without_char(s@, at as int));
            r
        },
        CorruptionStep::Insertion(rate) => {
            let at: usize = draw_inclusive(0, n as u64) as usize;
            let which: usize = below(95);
            let r = corrupt_char_insertion(s, draw, rate, at, which);
            assert(r@ == s@ || r@ == with_char(s@, at as int, which as int));
            r
        },
        CorruptionStep::Truncation(rate) => {
            let len: usize = below(n);
            let r = corrupt_truncation(s, draw, rate, len);
            assert(r@ == s@ || r@ == s@.subrange(0, len as int));
            r
        },
        CorruptionStep::Encoding(rate) => {
            let size: usize = s.as_bytes_vec().len();
            let start: usize = below(size);
            let end: usize = draw_inclusive(start as u64, size as u64) as usize;
            let r = corrupt_encoding(s, draw, rate, start, end);
            assert(r@ == s@ || r@ == lossy_text(
                mangled_bytes(encode_utf8(s@), start as int, end as int),
            ));
            r
        },
        CorruptionStep::Noise { .. } | CorruptionStep::DayShift { .. } => s.to_owned(),
    }
}

/// Corrupts the texts of a column, each by a draw of its own; a missing text stays missing.
pub fn corrupt_texts(step: &CorruptionStep, draws: &Vec<Num>, cells: &Vec<Option<String>>) -> (r: Vec<
    Option<String>,
>)
    requires
        draws.len() == cells.len(),
    ensures
        r.len() == cells.len(),
        forall|i: int|
            0 <= i < r.len() ==> match opt_text(cells[i]) {
                None => #[trigger] r[i] is None,
                Some(s) => r[i] is Some && text_after(*step, draws[i], s, r[i]->0@),
            },
{
    let mut r: Vec<Option<String>> = Vec::new();
    let mut i: usize = 0;
    while i < cells.len()
        invariant
            i <= cells.len(),
            draws.len() == cells.len(),
            r.len() == i,
            forall|k: int|
                0 <= k < i ==> match opt_text(cells[k]) {
                    None => #[trigger] r[k] is None,
                    Some(s) => r[k] is Some && text_after(*step, draws[k], s, r[k]->0@),
                },
        decreases cells.len() - i,
    {
        let cell = match &cells[i] {
            None => None,
            Some(s) => Some(corrupt_text(step, draws[i], s)),
        };
        r.push(cell);
        i += 1;
    }
    r
}

// ---------------------------------------------------------------------------
// Dates
// ---------------------------------------------------------------------------

/// `r` is a value `v` moved by up to `max_days` steps of `unit` where the draw hits, and `v` itself
/// elsewhere.
pub open spec fn shifted(draw: Num, rate: Num, max_days: int, unit: int, v: int, r: int) -> bool {
    if hits(draw, rate) {
        exists|days: int| -max_days <= days <= max_days && r == v + #[trigger] (days * unit)
    } else {
        r == v
    }
}

/// Every day that a draw hits lies more than `max_days` inside the range of days.
pub open spec fn days_have_room(
    cells: Seq<Option<i32>>,
    draws: Seq<Num>,
    rate: Num,
    max_days: int,
) -> bool {
    forall|i: int|
        0 <= i < cells.len() && (#[trigger] cells[i]) is Some && hits(draws[i], rate) ==> i32::MIN
            <= cells[i]->0 - max_days && cells[i]->0 + max_days <= i32::MAX
}

/// Every point in time that a draw hits lies more than `max_days` of `per_day` units inside the
/// range of points in time.
pub open spec fn times_have_room(
    cells: Seq<Option<i64>>,
    draws: Seq<Num>,
    rate: Num,
    max_days: int,
    per_day: int,
) -> bool {
    forall|i: int|
        0 <= i < cells.len() && (#[trigger] cells[i]) is Some && hits(draws[i], rate) ==> i64::MIN
            <= cells[i]->0 - max_days * per_day && cells[i]->0 + max_days * per_day <= i64::MAX
}

/// The draw of a number of days for a column of days: no more than `max_days` to either side.
fn small_shift(max_days: i64) -> (r: i32)
    requires
        0 <= max_days,
    ensures
        -max_days <= r <= max_days,
{
    let shift: i64 = draw_shift(max_days);
    let r: i32 = #[verifier::truncate]
    (shift as i32);
    r
}

/// Shifts the days of a column, each by a draw of its own; a missing day stays missing. Nothing
/// comes out where a shift would leave the range of days.
pub fn shift_days(cells: &Vec<Option<i32>>, draws: &Vec<Num>, rate: Num, max_days: i64) -> (r: Option<
    Vec<Option<i32>>,
>)
    requires
        draws.len() == cells.len(),
        0 <= max_days,
    ensures
        days_have_room(cells@, draws@, rate, max_days as int) ==> r is Some,
        r matches Some(v) ==> v.len() == cells.len() && forall|i: int|
            0 <= i < v.len() ==> match cells[i] {
                None => #[trigger] v[i] is None,
                Some(d) => v[i] is Some && shifted(
                    draws[i],
                    rate,
                    max_days as int,
                    1,
                    d as int,
                    v[i]->0 as int,
                ),
            },
{
    let mut r: Vec<Option<i32>> = Vec::new();
    let mut i: usize = 0;
    while i < cells.len()
        invariant
            i <= cells.len(),
            draws.len() == cells.len(),
            0 <= max_days,
            r.len() == i,
            forall|k: int|
                0 <= k < i ==> match cells[k] {
                    None => #[trigger] r[k] is None,
                    Some(d) => r[k] is Some && shifted(
                        draws[k],
                        rate,
                        max_days as int,
                        1,
                        d as int,
                        r[k]->0 as int,
                    ),
                },
        decreases cells.len() - i,
    {
        let cell = match cells[i] {
            None => None,
            Some(d) => {
                let shift: i32 = small_shift(max_days);
                if max_days != 0 && !rate.le(draws[i]) {
                    if d.checked_add(shift).is_none() {
                        proof {
                            assert(cells@[i as int] is Some);
                        }
                        return None;
                    }
                }
                let moved: i32 = shift_day(d, draws[i], rate, max_days, shift);
                proof {
                    let days: int = if max_days == 0 { 0 } else { shift as int };
                    assert(days * 1 == days);
                    assert(-max_days <= days <= max_days);
                    assert(hits(draws@[i as int], rate) ==> moved == d + days * 1);
                }
                Some(moved)
            },
        };
        r.push(cell);
        i += 1;
    }
    Some(r)
}

/// Shifts the points in time of a column, counted in units of which a day has `per_day`, each by a
/// draw of its own; a missing one stays missing. Nothing comes out where a shift would leave the
/// range of points in time.
pub fn shift_times(
    cells: &Vec<Option<i64>>,
    draws: &Vec<Num>,
    rate: Num,
    max_days: i64,
    per_day: i64,
) -> (r: Option<Vec<Option<i64>>>)
    requires
        draws.len() == cells.len(),
        0 <= max_days,
        0 < per_day,
    ensures
        times_have_room(cells@, draws@, rate, max_days as int, per_day as int) ==> r is Some,
        r matches Some(v) ==> v.len() == cells.len() && forall|i: int|
            0 <= i < v.len() ==> match cells[i] {
                None => #[trigger] v[i] is None,
                Some(t) => v[i] is Some && shifted(
                    draws[i],
                    rate,
                    max_days as int,
                    per_day as int,
                    t as int,
                    v[i]->0 as int,
                ),
            },
{
    let mut r: Vec<Option<i64>> = Vec::new();
    let mut i: usize = 0;
    while i < cells.len()
        invariant
            i <= cells.len(),
            draws.len() == cells.len(),
            0 <= max_days,
            0 < per_day,
            r.len() == i,
            forall|k: int|
                0 <= k < i ==> match cells[k] {
                    None => #[trigger] r[k] is None,
                    Some(t) => r[k] is Some && shifted(
                        draws[k],
                        rate,
                        max_days as int,
                        per_day as int,
                        t as int,
                        r[k]->0 as int,
                    ),
                },
        decreases cells.len() - i,
    {
        let cell = match cells[i] {
            None => None,
            Some(t) => {
                let shift: i64 = draw_shift(max_days);
                proof {
                    lemma_reach(shift as int, max_days as int, per_day as int);
                }
                if max_days != 0 && !rate.le(draws[i]) {
                    let fits = match shift.checked_mul(per_day) {
                        Some(d) => t.checked_add(d).is_some(),
                        None => false,
                    };
                    if !fits {
                        assert(cells@[i as int] is Some);
                        return None;
                    }
                }
                let moved: i64 = shift_time(t, draws[i], rate, max_days, shift, per_day);
                proof {
                    let days: int = if max_days == 0 { 0 } else { shift as int };
                    assert(0 * per_day == 0);
                    assert(hits(draws@[i as int], rate) ==> moved == t + days * per_day);
                }
                Some(moved)
            },
        };
        r.push(cell);
        i += 1;
    }
    Some(r)
}

proof fn lemma_reach(shift: int, max_days: int, per_day: int)
    by (nonlinear_arith)
    requires
        -max_days <= shift <= max_days,
        0 < per_day,
    ensures
        -(max_days * per_day) <= shift * per_day <= max_days * per_day,
{
}

} // verus!

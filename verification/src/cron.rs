use vstd::prelude::*;

use crate::text::{
    char_pos, char_pos_exec, chars_of, parse_u32, parse_u32_spec, split_char, split_char_spec,
    split_whitespace, split_ws_spec, sub_vec, trim, trim_vec,
};

verus! {

// ---------------------------------------------------------------------------
// Specification of the cron field grammar
// ---------------------------------------------------------------------------

/// Why one field of a cron expression was refused.
#[derive(Debug, Clone, Copy, PartialEq, Eq, Structural)]
pub enum FieldError {
    /// The text after `/` is not a number.
    InvalidStep,
    /// The step after `/` is zero.
    ZeroStep,
    /// A value, range bound or step start is not a number.
    InvalidNumber,
    /// A range `N-M` (without step) with `N > M`.
    ReversedRange,
    /// A value, or a range's start or end, outside the field's bounds.
    OutOfRange,
    /// The field denotes no value at all.
    NoValues,
}

/// Which of the five fields of a cron expression.
#[derive(Debug, Clone, Copy, PartialEq, Eq, Structural)]
pub enum CronField {
    Minute,
    Hour,
    DayOfMonth,
    Month,
    DayOfWeek,
}

/// Why a cron expression was refused.
#[derive(Debug, Clone, Copy, PartialEq, Eq, Structural)]
pub enum CronError {
    /// The expression does not have exactly five fields; the count found.
    FieldCount(usize),
    /// The first field (in order) that is invalid, and why.
    Field(CronField, FieldError),
}

/// `lo, lo+1, ..., hi`.
pub open spec fn range_seq(lo: int, hi: int) -> Seq<u32>
    decreases hi - lo + 1,
{
    if lo > hi {
        seq![]
    } else {
        seq![lo as u32] + range_seq(lo + 1, hi)
    }
}

/// `v, v+step, v+2*step, ...` up to and including `end`.
pub open spec fn step_seq(v: int, end: int, step: int) -> Seq<u32>
    decreases if end >= v { end - v + 1 } else { 0 },
{
    if step <= 0 || v > end {
        seq![]
    } else {
        seq![v as u32] + step_seq(v + step, end, step)
    }
}

/// Whether counting `v, v+step, ...` up to `end` in `u32` steps past `u32::MAX`.
pub open spec fn step_overflows(v: int, end: int, step: int) -> bool
    decreases if end >= v { end - v + 1 } else { 0 },
{
    if step <= 0 || v > end {
        false
    } else if v + step > u32::MAX {
        true
    } else {
        step_overflows(v + step, end, step)
    }
}

pub open spec fn star() -> Seq<char> {
    seq!['*']
}

/// The start and end of a stepped part's range (the text before `/`).
pub open spec fn step_bounds(head: Seq<char>, min: u32, max: u32) -> Result<(u32, u32), FieldError> {
    if head == star() {
        Ok((min, max))
    } else {
        match char_pos(head, '-') {
            Some(k) => match (parse_u32_spec(head.take(k)), parse_u32_spec(head.skip(k + 1))) {
                (Some(s), Some(e)) => Ok((s, e)),
                _ => Err(FieldError::InvalidNumber),
            },
            None => match parse_u32_spec(head) {
                Some(s) => Ok((s, max)),
                None => Err(FieldError::InvalidNumber),
            },
        }
    }
}

/// The step of a stepped part (the text after `/`).
pub open spec fn step_value(tail: Seq<char>) -> Result<u32, FieldError> {
    match parse_u32_spec(tail) {
        None => Err(FieldError::InvalidStep),
        Some(0) => Err(FieldError::ZeroStep),
        Some(s) => Ok(s),
    }
}

/// The values one comma-separated part denotes, in the order they are produced.
pub open spec fn part_spec(p: Seq<char>, min: u32, max: u32) -> Result<Seq<u32>, FieldError> {
    match char_pos(p, '/') {
        Some(k) => match step_value(p.skip(k + 1)) {
            Err(e) => Err(e),
            Ok(step) => match step_bounds(p.take(k), min, max) {
                Err(e) => Err(e),
                Ok((s, e)) => if s < min || e > max {
                    Err(FieldError::OutOfRange)
                } else {
                    Ok(step_seq(s as int, e as int, step as int))
                },
            },
        },
        None => if p == star() {
            Ok(range_seq(min as int, max as int))
        } else {
            match char_pos(p, '-') {
                Some(k) => match (parse_u32_spec(p.take(k)), parse_u32_spec(p.skip(k + 1))) {
                    (Some(s), Some(e)) => if s > e {
                        Err(FieldError::ReversedRange)
                    } else if s < min || e > max {
                        Err(FieldError::OutOfRange)
                    } else {
                        Ok(range_seq(s as int, e as int))
                    },
                    _ => Err(FieldError::InvalidNumber),
                },
                None => match parse_u32_spec(p) {
                    None => Err(FieldError::InvalidNumber),
                    Some(v) => if v < min || v > max {
                        Err(FieldError::OutOfRange)
                    } else {
                        Ok(seq![v])
                    },
                },
            }
        },
    }
}

/// Whether producing the values of a part steps past `u32::MAX`.
pub open spec fn part_overflows(p: Seq<char>, min: u32, max: u32) -> bool {
    match char_pos(p, '/') {
        Some(k) => match step_value(p.skip(k + 1)) {
            Err(_) => false,
            Ok(step) => match step_bounds(p.take(k), min, max) {
                Err(_) => false,
                Ok((s, e)) => min <= s && e <= max && step_overflows(s as int, e as int, step as int),
            },
        },
        None => false,
    }
}

/// The values of the (trimmed) parts, in order; the first error if any part fails.
pub open spec fn parts_spec(parts: Seq<Seq<char>>, min: u32, max: u32) -> Result<Seq<u32>, FieldError>
    decreases parts.len(),
{
    if parts.len() == 0 {
        Ok(seq![])
    } else {
        match parts_spec(parts.drop_last(), min, max) {
            Err(e) => Err(e),
            Ok(vals) => match part_spec(trim(parts.last()), min, max) {
                Err(e) => Err(e),
                Ok(pv) => Ok(vals + pv),
            },
        }
    }
}

/// Whether processing the parts in order steps past `u32::MAX` before an error stops it.
pub open spec fn parts_overflow(parts: Seq<Seq<char>>, min: u32, max: u32) -> bool
    decreases parts.len(),
{
    if parts.len() == 0 {
        false
    } else {
        parts_overflow(parts.drop_last(), min, max) || (parts_spec(parts.drop_last(), min, max) is Ok
            && part_overflows(trim(parts.last()), min, max))
    }
}

/// All values a field denotes (with repetitions, unsorted), or why it is refused.
pub open spec fn field_spec(field: Seq<char>, min: u32, max: u32) -> Result<Seq<u32>, FieldError> {
    match parts_spec(split_char_spec(field, ','), min, max) {
        Err(e) => Err(e),
        Ok(vals) => if vals.len() == 0 {
            Err(FieldError::NoValues)
        } else {
            Ok(vals)
        },
    }
}

proof fn lemma_range_seq_bounds(lo: int, hi: int)
    requires
        0 <= lo,
        hi <= u32::MAX,
    ensures
        forall|i: int| 0 <= i < range_seq(lo, hi).len() ==> lo <= #[trigger] range_seq(lo, hi)[i] <= hi,
    decreases hi - lo + 1,
{
    if lo <= hi {
        lemma_range_seq_bounds(lo + 1, hi);
        let r = range_seq(lo, hi);
        let t = range_seq(lo + 1, hi);
        assert forall|i: int| 0 <= i < r.len() implies lo <= #[trigger] r[i] <= hi by {
            if i > 0 {
                assert(r[i] == t[i - 1]);
            }
        }
    }
}

proof fn lemma_step_seq_bounds(v: int, end: int, step: int)
    requires
        0 <= v,
        end <= u32::MAX,
    ensures
        forall|i: int| 0 <= i < step_seq(v, end, step).len() ==> v <= #[trigger] step_seq(v, end, step)[i] <= end,
    decreases if end >= v { end - v + 1 } else { 0 },
{
    if step > 0 && v <= end {
        lemma_step_seq_bounds(v + step, end, step);
        let r = step_seq(v, end, step);
        let t = step_seq(v + step, end, step);
        assert forall|i: int| 0 <= i < r.len() implies v <= #[trigger] r[i] <= end by {
            if i > 0 {
                assert(r[i] == t[i - 1]);
            }
        }
    }
}

proof fn lemma_part_bounds(p: Seq<char>, min: u32, max: u32)
    requires
        part_spec(p, min, max) is Ok,
    ensures
        forall|i: int|
            0 <= i < part_spec(p, min, max)->Ok_0.len() ==> min <= #[trigger] part_spec(p, min, max)->Ok_0[i] <= max,
{
    match char_pos(p, '/') {
        Some(k) => {
            match step_value(p.skip(k + 1)) {
                Ok(step) => match step_bounds(p.take(k), min, max) {
                    Ok((s, e)) => {
                        lemma_step_seq_bounds(s as int, e as int, step as int);
                    },
                    Err(_) => {},
                },
                Err(_) => {},
            }
        },
        None => {
            if p == star() {
                lemma_range_seq_bounds(min as int, max as int);
            } else {
                match char_pos(p, '-') {
                    Some(k) => match (parse_u32_spec(p.take(k)), parse_u32_spec(p.skip(k + 1))) {
                        (Some(s), Some(e)) => {
                            lemma_range_seq_bounds(s as int, e as int);
                        },
                        _ => {},
                    },
                    None => {},
                }
            }
        },
    }
}

proof fn lemma_parts_bounds(parts: Seq<Seq<char>>, min: u32, max: u32)
    requires
        parts_spec(parts, min, max) is Ok,
    ensures
        forall|i: int|
            0 <= i < parts_spec(parts, min, max)->Ok_0.len() ==> min <= #[trigger] parts_spec(parts, min, max)->Ok_0[i]
                <= max,
    decreases parts.len(),
{
    if parts.len() > 0 {
        lemma_parts_bounds(parts.drop_last(), min, max);
        lemma_part_bounds(trim(parts.last()), min, max);
        let a = parts_spec(parts.drop_last(), min, max)->Ok_0;
        let b = part_spec(trim(parts.last()), min, max)->Ok_0;
        let r = parts_spec(parts, min, max)->Ok_0;
        assert(r == a + b);
        assert forall|i: int| 0 <= i < r.len() implies min <= #[trigger] r[i] <= max by {
            if i < a.len() {
                assert(r[i] == a[i]);
            } else {
                assert(r[i] == b[i - a.len()]);
            }
        }
    }
}

/// Every value a field accepts lies within the field's bounds: single
/// values, ranges and stepped ranges alike.
pub proof fn law_field_values_in_bounds(field: Seq<char>, min: u32, max: u32)
    requires
        field_spec(field, min, max) is Ok,
    ensures
        forall|i: int|
            0 <= i < field_spec(field, min, max)->Ok_0.len() ==> min <= #[trigger] field_spec(field, min, max)->Ok_0[i]
                <= max,
{
    lemma_parts_bounds(split_char_spec(field, ','), min, max);
}

proof fn lemma_step_seq_contains(v0: int, end: int, step: int, x: int)
    requires
        step > 0,
        0 <= v0,
        end <= u32::MAX,
        0 <= x <= u32::MAX,
    ensures
        step_seq(v0, end, step).contains(x as u32) <==> (v0 <= x <= end && (x - v0) % step == 0),
    decreases if end >= v0 { end - v0 + 1 } else { 0 },
{
    let r = step_seq(v0, end, step);
    if v0 > end {
        assert(r.len() == 0);
        assert(!r.contains(x as u32));
    } else {
        let t = step_seq(v0 + step, end, step);
        lemma_step_seq_contains(v0 + step, end, step, x);
        assert(r == seq![v0 as u32] + t);
        assert(r[0] == v0 as u32);
        if t.contains(x as u32) {
            let k = choose|k: int| 0 <= k < t.len() && t[k] == x as u32;
            assert(r[k + 1] == t[k]);
        }
        if r.contains(x as u32) {
            let k = choose|k: int| 0 <= k < r.len() && r[k] == x as u32;
            if k > 0 {
                assert(r[k] == t[k - 1]);
                assert(t.contains(x as u32));
            }
        }
        let a: int = x - v0;
        vstd::arithmetic::div_mod::lemma_mod_sub_multiples_vanish(a, step);
        assert(-step + a == x - (v0 + step));
        if 0 < a < step {
            vstd::arithmetic::div_mod::lemma_small_mod(a as nat, step as nat);
        }
        if a == 0 {
            vstd::arithmetic::div_mod::lemma_small_mod(0, step as nat);
        }
    }
}

/// A number (optionally after `+`) holds neither `/`, `-` nor `*`.
proof fn lemma_number_chars(head: Seq<char>)
    requires
        parse_u32_spec(head) is Some,
    ensures
        forall|j: int| 0 <= j < head.len() ==> #[trigger] head[j] != '/' && head[j] != '-' && head[j] != '*',
{
    let d = if head.len() > 0 && head[0] == '+' {
        head.drop_first()
    } else {
        head
    };
    assert forall|j: int| 0 <= j < head.len() implies #[trigger] head[j] != '/' && head[j] != '-' && head[j] != '*' by {
        if head.len() > 0 && head[0] == '+' {
            if j > 0 {
                assert(head[j] == d[j - 1]);
                assert(crate::text::is_ascii_digit(d[j - 1]));
            }
        } else {
            assert(crate::text::is_ascii_digit(d[j]));
        }
    }
}

/// A stepped part `N/S`, with `N` a number within the field's bounds and
/// `S` a positive step, denotes exactly `N, N+S, N+2S, ...` up to the
/// field's maximum: a value belongs to it when it lies between `N` and the
/// maximum and is a whole number of steps past `N`.
pub proof fn law_stepped_part_values(head: Seq<char>, tail: Seq<char>, min: u32, max: u32, v: u32)
    requires
        parse_u32_spec(head) is Some,
        min <= parse_u32_spec(head)->0 <= max,
        parse_u32_spec(tail) is Some,
        parse_u32_spec(tail)->0 > 0,
    ensures
        part_spec(head + seq!['/'] + tail, min, max) is Ok,
        part_spec(head + seq!['/'] + tail, min, max)->Ok_0.contains(v) <==> (parse_u32_spec(head)->0 <= v <= max
            && (v - parse_u32_spec(head)->0) % (parse_u32_spec(tail)->0 as int) == 0),
{
    let n: u32 = parse_u32_spec(head)->0;
    let st: u32 = parse_u32_spec(tail)->0;
    let p = head + seq!['/'] + tail;
    let k: int = head.len() as int;
    lemma_number_chars(head);
    assert(p[k] == '/');
    assert forall|j: int| 0 <= j < k implies p[j] != '/' by {
        assert(p[j] == head[j]);
    }
    crate::text::lemma_char_pos(p, '/');
    assert(char_pos(p, '/') == Some(k));
    assert(p.take(k) =~= head);
    assert(p.skip(k + 1) =~= tail);
    crate::text::lemma_char_pos(head, '-');
    assert(char_pos(head, '-') is None);
    if head == star() {
        assert(head[0] == '*');
    }
    assert(step_value(tail) == Ok::<u32, FieldError>(st));
    assert(step_bounds(head, min, max) == Ok::<(u32, u32), FieldError>((n, max)));
    assert(part_spec(p, min, max) == Ok::<Seq<u32>, FieldError>(step_seq(n as int, max as int, st as int)));
    lemma_step_seq_contains(n as int, max as int, st as int, v as int);
}

proof fn lemma_char_pos_at(p: Seq<char>, c: char, k: int)
    requires
        0 <= k < p.len(),
        p[k] == c,
        forall|j: int| 0 <= j < k ==> p[j] != c,
    ensures
        char_pos(p, c) == Some(k),
{
    crate::text::lemma_char_pos(p, c);
}

proof fn lemma_char_pos_none(p: Seq<char>, c: char)
    requires
        forall|j: int| 0 <= j < p.len() ==> p[j] != c,
    ensures
        char_pos(p, c) is None,
{
    crate::text::lemma_char_pos(p, c);
}

/// `*` denotes every value from the field's minimum to its maximum.
pub proof fn law_star_part_values(min: u32, max: u32, v: u32)
    ensures
        part_spec(seq!['*'], min, max) is Ok,
        part_spec(seq!['*'], min, max)->Ok_0.contains(v) <==> min <= v <= max,
{
    lemma_char_pos_none(seq!['*'], '/');
    assert(seq!['*'] == star());
    lemma_range_seq_contains(min as int, max as int, v);
}

/// A single number denotes itself when it lies within the field's bounds,
/// and is refused as out of range otherwise.
pub proof fn law_single_value_part(p: Seq<char>, min: u32, max: u32)
    requires
        parse_u32_spec(p) is Some,
    ensures
        part_spec(p, min, max) == (if min <= parse_u32_spec(p)->0 <= max {
            Ok::<Seq<u32>, FieldError>(seq![parse_u32_spec(p)->0])
        } else {
            Err::<Seq<u32>, FieldError>(FieldError::OutOfRange)
        }),
{
    lemma_number_chars(p);
    lemma_char_pos_none(p, '/');
    lemma_char_pos_none(p, '-');
    if p == star() {
        assert(p[0] == '*');
    }
}

/// A range `N-M` of numbers denotes every value from `N` to `M`; it is
/// refused when `N > M`, and as out of range when it leaves the field's
/// bounds.
pub proof fn law_range_part_values(a: Seq<char>, b: Seq<char>, min: u32, max: u32, v: u32)
    requires
        parse_u32_spec(a) is Some,
        parse_u32_spec(b) is Some,
    ensures
        ({
            let s = parse_u32_spec(a)->0;
            let e = parse_u32_spec(b)->0;
            let r = part_spec(a + seq!['-'] + b, min, max);
            &&& s > e ==> r == Err::<Seq<u32>, FieldError>(FieldError::ReversedRange)
            &&& (s <= e && (s < min || e > max)) ==> r == Err::<Seq<u32>, FieldError>(FieldError::OutOfRange)
            &&& (s <= e && min <= s && e <= max) ==> (r is Ok && (r->Ok_0.contains(v) <==> s <= v <= e))
        }),
{
    let p = a + seq!['-'] + b;
    let k: int = a.len() as int;
    lemma_number_chars(a);
    lemma_number_chars(b);
    assert forall|j: int| 0 <= j < p.len() implies p[j] != '/' by {
        if j < k {
            assert(p[j] == a[j]);
        } else if j > k {
            assert(p[j] == b[j - k - 1]);
        }
    }
    lemma_char_pos_none(p, '/');
    assert forall|j: int| 0 <= j < k implies p[j] != '-' by {
        assert(p[j] == a[j]);
    }
    lemma_char_pos_at(p, '-', k);
    assert(p.take(k) =~= a);
    assert(p.skip(k + 1) =~= b);
    if p == star() {
        assert(p.len() == 1);
        assert(a.len() > 0);
    }
    let s = parse_u32_spec(a)->0;
    let e = parse_u32_spec(b)->0;
    lemma_range_seq_contains(s as int, e as int, v);
}

/// A step after `*`, as in `*/S`, denotes the field's minimum and every
/// `S`-th value after it up to the maximum.
pub proof fn law_star_step_part_values(tail: Seq<char>, min: u32, max: u32, v: u32)
    requires
        parse_u32_spec(tail) is Some,
        parse_u32_spec(tail)->0 > 0,
    ensures
        part_spec(seq!['*', '/'] + tail, min, max) is Ok,
        part_spec(seq!['*', '/'] + tail, min, max)->Ok_0.contains(v) <==> (min <= v <= max && (v - min) % (
        parse_u32_spec(tail)->0 as int) == 0),
{
    let p = seq!['*', '/'] + tail;
    assert(p[0] == '*');
    lemma_char_pos_at(p, '/', 1);
    assert(p.take(1) =~= star());
    assert(p.skip(2) =~= tail);
    let st: u32 = parse_u32_spec(tail)->0;
    lemma_step_seq_contains(min as int, max as int, st as int, v as int);
}

/// A stepped range `N-M/S` within the field's bounds denotes `N` and every
/// `S`-th value after it up to `M`; one that leaves the bounds is refused.
pub proof fn law_range_step_part_values(a: Seq<char>, b: Seq<char>, tail: Seq<char>, min: u32, max: u32, v: u32)
    requires
        parse_u32_spec(a) is Some,
        parse_u32_spec(b) is Some,
        parse_u32_spec(tail) is Some,
        parse_u32_spec(tail)->0 > 0,
    ensures
        ({
            let s = parse_u32_spec(a)->0;
            let e = parse_u32_spec(b)->0;
            let st = parse_u32_spec(tail)->0;
            let r = part_spec(a + seq!['-'] + b + seq!['/'] + tail, min, max);
            &&& (s < min || e > max) ==> r == Err::<Seq<u32>, FieldError>(FieldError::OutOfRange)
            &&& (min <= s && e <= max) ==> (r is Ok && (r->Ok_0.contains(v) <==> (s <= v <= e && (v - s) % (st as int)
                == 0)))
        }),
{
    let head = a + seq!['-'] + b;
    let p = head + seq!['/'] + tail;
    let k: int = a.len() as int;
    let h: int = head.len() as int;
    lemma_number_chars(a);
    lemma_number_chars(b);
    assert forall|j: int| 0 <= j < h implies p[j] != '/' by {
        assert(p[j] == head[j]);
        if j < k {
            assert(head[j] == a[j]);
        } else if j > k {
            assert(head[j] == b[j - k - 1]);
        }
    }
    assert(p[h] == '/');
    lemma_char_pos_at(p, '/', h);
    assert(p.take(h) =~= head);
    assert(p.skip(h + 1) =~= tail);
    assert forall|j: int| 0 <= j < k implies head[j] != '-' by {
        assert(head[j] == a[j]);
    }
    lemma_char_pos_at(head, '-', k);
    assert(head.take(k) =~= a);
    assert(head.skip(k + 1) =~= b);
    if head == star() {
        assert(head.len() == 1);
        assert(a.len() > 0);
    }
    let s: u32 = parse_u32_spec(a)->0;
    let e: u32 = parse_u32_spec(b)->0;
    let st: u32 = parse_u32_spec(tail)->0;
    lemma_step_seq_contains(s as int, e as int, st as int, v as int);
}

/// A step that is not a number is refused as an invalid step, and a zero
/// step as a zero step, whatever precedes the `/`.
pub proof fn law_bad_step_refused(head: Seq<char>, tail: Seq<char>, min: u32, max: u32)
    requires
        forall|j: int| 0 <= j < head.len() ==> head[j] != '/',
    ensures
        parse_u32_spec(tail) is None ==> part_spec(head + seq!['/'] + tail, min, max) == Err::<Seq<u32>, FieldError>(
            FieldError::InvalidStep,
        ),
        parse_u32_spec(tail) == Some(0u32) ==> part_spec(head + seq!['/'] + tail, min, max) == Err::<
            Seq<u32>,
            FieldError,
        >(FieldError::ZeroStep),
{
    let p = head + seq!['/'] + tail;
    let k: int = head.len() as int;
    assert forall|j: int| 0 <= j < k implies p[j] != '/' by {
        assert(p[j] == head[j]);
    }
    lemma_char_pos_at(p, '/', k);
    assert(p.skip(k + 1) =~= tail);
}

proof fn lemma_parts_union(parts: Seq<Seq<char>>, min: u32, max: u32, v: u32)
    ensures
        parts_spec(parts, min, max) is Ok <==> (forall|i: int|
            0 <= i < parts.len() ==> #[trigger] part_spec(trim(parts[i]), min, max) is Ok),
        parts_spec(parts, min, max) is Ok ==> (parts_spec(parts, min, max)->Ok_0.contains(v) <==> exists|i: int|
            0 <= i < parts.len() && (#[trigger] part_spec(trim(parts[i]), min, max))->Ok_0.contains(v)),
    decreases parts.len(),
{
    if parts.len() > 0 {
        let init = parts.drop_last();
        let n: int = parts.len() - 1;
        lemma_parts_union(init, min, max, v);
        assert forall|i: int| 0 <= i < init.len() implies #[trigger] init[i] == parts[i] by {}
        if parts_spec(parts, min, max) is Ok {
            let a = parts_spec(init, min, max)->Ok_0;
            let b = part_spec(trim(parts[n]), min, max)->Ok_0;
            let r = a + b;
            assert(parts_spec(parts, min, max)->Ok_0 == r);
            if r.contains(v) {
                let k = choose|k: int| 0 <= k < r.len() && r[k] == v;
                if k < a.len() {
                    assert(a[k] == v);
                    assert(a.contains(v));
                    let i = choose|i: int|
                        0 <= i < init.len() && (#[trigger] part_spec(trim(init[i]), min, max))->Ok_0.contains(v);
                    assert(init[i] == parts[i]);
                } else {
                    assert(b[k - a.len()] == v);
                    assert(b.contains(v));
                }
            }
            if exists|i: int| 0 <= i < parts.len() && (#[trigger] part_spec(trim(parts[i]), min, max))->Ok_0.contains(v) {
                let i = choose|i: int|
                    0 <= i < parts.len() && (#[trigger] part_spec(trim(parts[i]), min, max))->Ok_0.contains(v);
                if i < n {
                    assert(init[i] == parts[i]);
                    assert(part_spec(trim(init[i]), min, max)->Ok_0.contains(v));
                    let k = choose|k: int| 0 <= k < a.len() && a[k] == v;
                    assert(r[k] == v);
                } else {
                    let k = choose|k: int| 0 <= k < b.len() && b[k] == v;
                    assert(r[k + a.len()] == v);
                }
            }
        }
        if forall|i: int| 0 <= i < parts.len() ==> #[trigger] part_spec(trim(parts[i]), min, max) is Ok {
            assert forall|i: int| 0 <= i < init.len() implies #[trigger] part_spec(trim(init[i]), min, max) is Ok by {
                assert(init[i] == parts[i]);
                assert(part_spec(trim(parts[i]), min, max) is Ok);
            }
            assert(part_spec(trim(parts[n]), min, max) is Ok);
        }
        if parts_spec(parts, min, max) is Ok {
            assert forall|i: int| 0 <= i < parts.len() implies #[trigger] part_spec(trim(parts[i]), min, max) is Ok by {
                if i < n {
                    assert(init[i] == parts[i]);
                    assert(part_spec(trim(init[i]), min, max) is Ok);
                }
            }
        }
    }
}

/// A field is a comma-separated list of parts, each trimmed: it is
/// accepted when every part is and the parts denote some value, and it
/// denotes exactly the values that some part denotes.
pub proof fn law_field_is_union_of_parts(field: Seq<char>, min: u32, max: u32, v: u32)
    ensures
        ({
            let ps = split_char_spec(field, ',');
            &&& field_spec(field, min, max) is Ok ==> forall|i: int|
                0 <= i < ps.len() ==> #[trigger] part_spec(trim(ps[i]), min, max) is Ok
            &&& field_spec(field, min, max) is Ok ==> (field_spec(field, min, max)->Ok_0.contains(v) <==> exists|i: int|
                0 <= i < ps.len() && (#[trigger] part_spec(trim(ps[i]), min, max))->Ok_0.contains(v))
            &&& (forall|i: int| 0 <= i < ps.len() ==> #[trigger] part_spec(trim(ps[i]), min, max) is Ok) ==> (
            field_spec(field, min, max) is Ok || field_spec(field, min, max) == Err::<Seq<u32>, FieldError>(
                FieldError::NoValues,
            ))
        }),
{
    lemma_parts_union(split_char_spec(field, ','), min, max, v);
}

pub open spec fn field_overflows(field: Seq<char>, min: u32, max: u32) -> bool {
    parts_overflow(split_char_spec(field, ','), min, max)
}

/// Strictly increasing, hence sorted and without repetitions.
pub open spec fn strictly_increasing(s: Seq<u32>) -> bool {
    forall|i: int, j: int| 0 <= i < j < s.len() ==> s[i] < s[j]
}

/// `out` is the sorted, deduplicated list of the values in `vals`.
pub open spec fn sorted_values_of(out: Seq<u32>, vals: Seq<u32>) -> bool {
    &&& strictly_increasing(out)
    &&& forall|x: u32| out.contains(x) <==> vals.contains(x)
}

/// The smallest value of field `i` (minute, hour, day of month, month, day of week).
pub open spec fn field_min(i: int) -> u32 {
    if i == 2 || i == 3 {
        1
    } else {
        0
    }
}

/// The largest value of field `i`.
pub open spec fn field_max(i: int) -> u32 {
    if i == 0 {
        59
    } else if i == 1 {
        23
    } else if i == 2 {
        31
    } else if i == 3 {
        12
    } else {
        6
    }
}

pub open spec fn field_kind(i: int) -> CronField {
    if i == 0 {
        CronField::Minute
    } else if i == 1 {
        CronField::Hour
    } else if i == 2 {
        CronField::DayOfMonth
    } else if i == 3 {
        CronField::Month
    } else {
        CronField::DayOfWeek
    }
}

/// The first field (of the first `n`) that is refused, if any.
pub open spec fn first_field_error(fields: Seq<Seq<char>>, n: int) -> Option<(CronField, FieldError)>
    decreases n,
{
    if n <= 0 {
        None
    } else {
        match first_field_error(fields, n - 1) {
            Some(e) => Some(e),
            None => match field_spec(fields[n - 1], field_min(n - 1), field_max(n - 1)) {
                Err(e) => Some((field_kind(n - 1), e)),
                Ok(_) => None,
            },
        }
    }
}

/// Whether parsing the five fields in order steps past `u32::MAX` before an error stops it.
pub open spec fn fields_overflow(fields: Seq<Seq<char>>, n: int) -> bool
    decreases n,
{
    if n <= 0 {
        false
    } else {
        fields_overflow(fields, n - 1) || (first_field_error(fields, n - 1) is None && field_overflows(
            fields[n - 1],
            field_min(n - 1),
            field_max(n - 1),
        ))
    }
}

/// Whether parsing the expression would count past `u32::MAX` in a stepped part
/// (the loop that produces stepped values has no such guard).
pub open spec fn expr_overflows(expr: Seq<char>) -> bool {
    let fields = split_ws_spec(expr);
    fields.len() == 5 && fields_overflow(fields, 5)
}

// ---------------------------------------------------------------------------
// Proof helpers
// ---------------------------------------------------------------------------

pub proof fn lemma_range_seq_contains(lo: int, hi: int, x: u32)
    requires
        0 <= lo,
        hi <= u32::MAX,
    ensures
        range_seq(lo, hi).contains(x) <==> lo <= x <= hi,
    decreases hi - lo + 1,
{
    if lo <= hi {
        lemma_range_seq_contains(lo + 1, hi, x);
        let s = range_seq(lo, hi);
        let r = range_seq(lo + 1, hi);
        assert(s == seq![lo as u32] + r);
        if r.contains(x) {
            let i = choose|i: int| 0 <= i < r.len() && r[i] == x;
            assert(s[i + 1] == x);
        }
        if s.contains(x) {
            let i = choose|i: int| 0 <= i < s.len() && s[i] == x;
            if i > 0 {
                assert(r[i - 1] == x);
            }
        }
        if x == lo {
            assert(s[0] == x);
        }
    }
}

pub proof fn lemma_cons_contains(a: u32, r: Seq<u32>, x: u32)
    ensures
        (seq![a] + r).contains(x) <==> (x == a || r.contains(x)),
{
    let s = seq![a] + r;
    if r.contains(x) {
        let i = choose|i: int| 0 <= i < r.len() && r[i] == x;
        assert(s[i + 1] == x);
    }
    if s.contains(x) {
        let i = choose|i: int| 0 <= i < s.len() && s[i] == x;
        if i > 0 {
            assert(r[i - 1] == x);
        }
    }
    if x == a {
        assert(s[0] == x);
    }
}

pub proof fn lemma_concat_contains(a: Seq<u32>, b: Seq<u32>, x: u32)
    ensures
        (a + b).contains(x) <==> (a.contains(x) || b.contains(x)),
{
    let s = a + b;
    if a.contains(x) {
        let i = choose|i: int| 0 <= i < a.len() && a[i] == x;
        assert(s[i] == x);
    }
    if b.contains(x) {
        let i = choose|i: int| 0 <= i < b.len() && b[i] == x;
        assert(s[a.len() + i] == x);
    }
    if s.contains(x) {
        let i = choose|i: int| 0 <= i < s.len() && s[i] == x;
        if i < a.len() {
            assert(a[i] == x);
        } else {
            assert(b[i - a.len()] == x);
        }
    }
}

// ---------------------------------------------------------------------------
// Sorted sets of values
// ---------------------------------------------------------------------------

/// Inserts `x` into a strictly increasing list, keeping it strictly increasing.
pub fn insert_sorted(v: &mut Vec<u32>, x: u32)
    requires
        strictly_increasing(old(v)@),
    ensures
        strictly_increasing(final(v)@),
        forall|y: u32| final(v)@.contains(y) <==> (old(v)@.contains(y) || y == x),
{
    let mut i: usize = 0;
    while i < v.len() && v[i] < x
        invariant
            i <= v.len(),
            forall|j: int| 0 <= j < i ==> v@[j] < x,
        decreases v.len() - i,
    {
        i = i + 1;
    }
    if i < v.len() && v[i] == x {
        assert(v@.contains(x)) by {
            assert(v@[i as int] == x);
        }
        assert(forall|y: u32| v@.contains(y) <==> (old(v)@.contains(y) || y == x));
        return;
    }
    let ghost before = v@;
    assert(before == old(v)@);
    v.insert(i, x);
    assert(v@ =~= before.take(i as int).push(x) + before.skip(i as int));
    assert forall|y: u32| v@.contains(y) <==> (before.contains(y) || y == x) by {
        if before.contains(y) {
            let k = choose|k: int| 0 <= k < before.len() && before[k] == y;
            if k < i {
                assert(v@[k] == y);
            } else {
                assert(v@[k + 1] == y);
            }
        }
        if v@.contains(y) {
            let k = choose|k: int| 0 <= k < v@.len() && v@[k] == y;
            if k < i {
                assert(before[k] == y);
            } else if k > i {
                assert(before[k - 1] == y);
            }
        }
        if y == x {
            assert(v@[i as int] == x);
        }
    }
    assert(forall|y: u32| v@.contains(y) <==> (old(v)@.contains(y) || y == x));
    assert forall|a: int, b: int| 0 <= a < b < v@.len() implies v@[a] < v@[b] by {
        if b < i {
        } else if a < i && b == i {
        } else if a < i && b > i {
            assert(before[a] < before[b - 1]);
        } else if a == i {
            assert(before[b - 1] >= x);
            assert(before[b - 1] != x);
        } else {
            assert(before[a - 1] < before[b - 1]);
        }
    }
}


/// The set of values of `acc` and `extra` together.
pub open spec fn union_has(acc: Seq<u32>, extra: Seq<u32>, x: u32) -> bool {
    acc.contains(x) || extra.contains(x)
}

/// Adds `lo..=hi` to the sorted set `acc`.
fn append_range(acc: &mut Vec<u32>, lo: u32, hi: u32)
    requires
        strictly_increasing(old(acc)@),
    ensures
        strictly_increasing(final(acc)@),
        forall|x: u32|
            final(acc)@.contains(x) <==> union_has(old(acc)@, range_seq(lo as int, hi as int), x),
{
    if lo > hi {
        assert(range_seq(lo as int, hi as int) =~= Seq::<u32>::empty());
        return;
    }
    let mut v = lo;
    loop
        invariant
            lo <= v <= hi,
            strictly_increasing(acc@),
            forall|x: u32|
                union_has(old(acc)@, range_seq(lo as int, hi as int), x) <==> union_has(
                    acc@,
                    range_seq(v as int, hi as int),
                    x,
                ),
        decreases hi - v,
    {
        let ghost before = acc@;
        insert_sorted(acc, v);
        proof {
            assert(range_seq(v as int, hi as int) == seq![v] + range_seq(v + 1, hi as int));
            assert forall|x: u32|
                union_has(before, range_seq(v as int, hi as int), x) <==> union_has(
                    acc@,
                    range_seq(v + 1, hi as int),
                    x,
                ) by {
                lemma_cons_contains(v, range_seq(v + 1, hi as int), x);
            }
        }
        if v == hi {
            proof {
                assert(range_seq(v + 1, hi as int) =~= Seq::<u32>::empty());
            }
            return;
        }
        v = v + 1;
    }
}

/// Adds `start, start+step, ...` (up to `end`) to the sorted set `acc`;
/// returns `true`, and stops, where the next value would pass `u32::MAX`.
fn append_steps(acc: &mut Vec<u32>, start: u32, end: u32, step: u32) -> (overflow: bool)
    requires
        step > 0,
        strictly_increasing(old(acc)@),
    ensures
        strictly_increasing(final(acc)@),
        overflow == step_overflows(start as int, end as int, step as int),
        !overflow ==> forall|x: u32|
            final(acc)@.contains(x) <==> union_has(
                old(acc)@,
                step_seq(start as int, end as int, step as int),
                x,
            ),
{
    let mut v = start;
    loop
        invariant
            step > 0,
            strictly_increasing(acc@),
            step_overflows(start as int, end as int, step as int) == step_overflows(
                v as int,
                end as int,
                step as int,
            ),
            forall|x: u32|
                union_has(old(acc)@, step_seq(start as int, end as int, step as int), x)
                    <==> union_has(acc@, step_seq(v as int, end as int, step as int), x),
        decreases u32::MAX - v,
    {
        if v > end {
            assert(step_seq(v as int, end as int, step as int) =~= Seq::<u32>::empty());
            return false;
        }
        let ghost before = acc@;
        insert_sorted(acc, v);
        proof {
            assert(step_seq(v as int, end as int, step as int) == seq![v] + step_seq(
                v + step,
                end as int,
                step as int,
            ));
            assert forall|x: u32|
                union_has(before, step_seq(v as int, end as int, step as int), x) <==> union_has(
                    acc@,
                    step_seq(v + step, end as int, step as int),
                    x,
                ) by {
                lemma_cons_contains(v, step_seq(v + step, end as int, step as int), x);
            }
        }
        if v > u32::MAX - step {
            return true;
        }
        v = v + step;
    }
}

/// What processing one part produced: all its values, or a stop where
/// counting passed `u32::MAX`.
enum Produced {
    Done,
    Overflow,
}

/// Whether `v` is exactly `*`.
fn is_star(v: &Vec<char>) -> (b: bool)
    ensures
        b == (v@ == star()),
{
    let b = v.len() == 1 && v[0] == '*';
    assert(b ==> v@ =~= star());
    b
}

/// `step_bounds` on a character vector.
fn step_bounds_exec(head: &Vec<char>, min: u32, max: u32) -> (r: Result<(u32, u32), FieldError>)
    ensures
        r == step_bounds(head@, min, max),
{
    if is_star(head) {
        return Ok((min, max));
    }
    match char_pos_exec(head, '-') {
        Some(k) => {
            let s = parse_u32(head, 0, k);
            let e = parse_u32(head, k + 1, head.len());
            assert(head@.subrange(0, k as int) =~= head@.take(k as int));
            assert(head@.subrange(k + 1, head@.len() as int) =~= head@.skip(k + 1));
            match (s, e) {
                (Some(s), Some(e)) => Ok((s, e)),
                _ => Err(FieldError::InvalidNumber),
            }
        },
        None => {
            assert(head@.subrange(0, head@.len() as int) =~= head@);
            match parse_u32(head, 0, head.len()) {
                Some(s) => Ok((s, max)),
                None => Err(FieldError::InvalidNumber),
            }
        },
    }
}

/// Adds the values of one (already trimmed) part to the sorted set `acc`.
fn part_values(p: &Vec<char>, min: u32, max: u32, acc: &mut Vec<u32>) -> (r: Result<
    Produced,
    FieldError,
>)
    requires
        strictly_increasing(old(acc)@),
    ensures
        strictly_increasing(final(acc)@),
        match r {
            Err(e) => part_spec(p@, min, max) == Err::<Seq<u32>, FieldError>(e),
            Ok(Produced::Overflow) => part_spec(p@, min, max) is Ok && part_overflows(p@, min, max),
            Ok(Produced::Done) => part_spec(p@, min, max) is Ok && !part_overflows(p@, min, max)
                && forall|x: u32|
                final(acc)@.contains(x) <==> union_has(
                    old(acc)@,
                    part_spec(p@, min, max)->Ok_0,
                    x,
                ),
        },
{
    match char_pos_exec(p, '/') {
        Some(k) => {
            assert(p@.subrange(k + 1, p@.len() as int) =~= p@.skip(k + 1));
            let step = match parse_u32(p, k + 1, p.len()) {
                None => {
                    return Err(FieldError::InvalidStep);
                },
                Some(st) => st,
            };
            if step == 0 {
                return Err(FieldError::ZeroStep);
            }
            let head = sub_vec(p, 0, k);
            assert(head@ =~= p@.take(k as int));
            let (start, end) = match step_bounds_exec(&head, min, max) {
                Err(e) => {
                    return Err(e);
                },
                Ok(b) => b,
            };
            if start < min || end > max {
                return Err(FieldError::OutOfRange);
            }
            let overflow = append_steps(acc, start, end, step);
            if overflow {
                Ok(Produced::Overflow)
            } else {
                Ok(Produced::Done)
            }
        },
        None => {
            if is_star(p) {
                append_range(acc, min, max);
                return Ok(Produced::Done);
            }
            match char_pos_exec(p, '-') {
                Some(k) => {
                    let s = parse_u32(p, 0, k);
                    let e = parse_u32(p, k + 1, p.len());
                    assert(p@.subrange(0, k as int) =~= p@.take(k as int));
                    assert(p@.subrange(k + 1, p@.len() as int) =~= p@.skip(k + 1));
                    match (s, e) {
                        (Some(s), Some(e)) => {
                            if s > e {
                                return Err(FieldError::ReversedRange);
                            }
                            if s < min || e > max {
                                return Err(FieldError::OutOfRange);
                            }
                            append_range(acc, s, e);
                            Ok(Produced::Done)
                        },
                        _ => Err(FieldError::InvalidNumber),
                    }
                },
                None => {
                    assert(p@.subrange(0, p@.len() as int) =~= p@);
                    match parse_u32(p, 0, p.len()) {
                        None => Err(FieldError::InvalidNumber),
                        Some(v) => {
                            if v < min || v > max {
                                return Err(FieldError::OutOfRange);
                            }
                            let ghost before = acc@;
                            insert_sorted(acc, v);
                            proof {
                                assert forall|x: u32|
                                    acc@.contains(x) <==> union_has(before, seq![v], x) by {
                                    lemma_cons_contains(v, Seq::<u32>::empty(), x);
                                    assert(seq![v] + Seq::<u32>::empty() =~= seq![v]);
                                }
                            }
                            Ok(Produced::Done)
                        },
                    }
                },
            }
        },
    }
}

/// The outcome of reading one field: its sorted values, its error, or a
/// stop where counting passed `u32::MAX`.
enum FieldOutcome {
    Values(Vec<u32>),
    Refused(FieldError),
    Overflow,
}

pub proof fn lemma_parts_spec_prefix(parts: Seq<Seq<char>>, i: int, min: u32, max: u32)
    requires
        0 <= i < parts.len(),
    ensures
        parts_spec(parts.take(i + 1), min, max) == (match parts_spec(parts.take(i), min, max) {
            Err(e) => Err(e),
            Ok(vals) => match part_spec(trim(parts[i]), min, max) {
                Err(e) => Err(e),
                Ok(pv) => Ok(vals + pv),
            },
        }),
        parts_overflow(parts.take(i + 1), min, max) == (parts_overflow(parts.take(i), min, max)
            || (parts_spec(parts.take(i), min, max) is Ok && part_overflows(
            trim(parts[i]),
            min,
            max,
        ))),
{
    assert(parts.take(i + 1).drop_last() =~= parts.take(i));
    assert(parts.take(i + 1).last() == parts[i]);
}

/// Reads one field into its sorted values.
fn read_field(field: &Vec<char>, min: u32, max: u32) -> (r: FieldOutcome)
    ensures
        match r {
            FieldOutcome::Values(v) => !field_overflows(field@, min, max) && field_spec(
                field@,
                min,
                max,
            ) is Ok && sorted_values_of(v@, field_spec(field@, min, max)->Ok_0),
            FieldOutcome::Refused(e) => !field_overflows(field@, min, max) && field_spec(
                field@,
                min,
                max,
            ) == Err::<Seq<u32>, FieldError>(e),
            FieldOutcome::Overflow => field_overflows(field@, min, max),
        },
{
    let parts = split_char(field, ',');
    let ghost ps = split_char_spec(field@, ',');
    let mut acc: Vec<u32> = Vec::new();
    let mut i: usize = 0;
    assert(ps.take(0) =~= Seq::<Seq<char>>::empty());
    while i < parts.len()
        invariant
            parts.deep_view() == ps,
            ps == split_char_spec(field@, ','),
            i <= parts.len(),
            strictly_increasing(acc@),
            parts_spec(ps.take(i as int), min, max) is Ok,
            !parts_overflow(ps.take(i as int), min, max),
            forall|x: u32|
                acc@.contains(x) <==> (parts_spec(ps.take(i as int), min, max)->Ok_0).contains(x),
        decreases parts.len() - i,
    {
        let part = trim_vec(&parts[i]);
        assert(parts[i as int]@ == ps[i as int]);
        let ghost before = acc@;
        let ghost prev_vals = parts_spec(ps.take(i as int), min, max)->Ok_0;
        proof {
            lemma_parts_spec_prefix(ps, i as int, min, max);
        }
        match part_values(&part, min, max, &mut acc) {
            Err(e) => {
                proof {
                    lemma_parts_prefix_to_whole(ps, i as int + 1, min, max);
                }
                return FieldOutcome::Refused(e);
            },
            Ok(Produced::Overflow) => {
                proof {
                    lemma_parts_prefix_to_whole(ps, i as int + 1, min, max);
                }
                return FieldOutcome::Overflow;
            },
            Ok(Produced::Done) => {
                proof {
                    let pv = part_spec(part@, min, max)->Ok_0;
                    assert forall|x: u32|
                        acc@.contains(x) <==> (prev_vals + pv).contains(x) by {
                        lemma_concat_contains(prev_vals, pv, x);
                    }
                }
            },
        }
        i = i + 1;
    }
    assert(ps.len() == parts.len());
    assert(ps.take(i as int) =~= ps);
    if acc.len() == 0 {
        proof {
            let vals = parts_spec(ps, min, max)->Ok_0;
            assert(parts_spec(ps.take(i as int), min, max) == parts_spec(ps, min, max));
            if vals.len() > 0 {
                assert(vals.contains(vals[0]));
                assert(acc@.contains(vals[0]));
                assert(false);
            }
        }
        return FieldOutcome::Refused(FieldError::NoValues);
    }
    proof {
        let vals = parts_spec(ps, min, max)->Ok_0;
        assert(acc@.contains(acc@[0]));
    }
    FieldOutcome::Values(acc)
}

/// Once a prefix of the parts errs or overflows, the whole list does too.
pub proof fn lemma_parts_prefix_to_whole(parts: Seq<Seq<char>>, i: int, min: u32, max: u32)
    requires
        0 <= i <= parts.len(),
    ensures
        parts_spec(parts.take(i), min, max) is Err ==> parts_spec(parts, min, max) == parts_spec(
            parts.take(i),
            min,
            max,
        ),
        parts_overflow(parts.take(i), min, max) ==> parts_overflow(parts, min, max),
        parts_spec(parts.take(i), min, max) is Err && !parts_overflow(parts.take(i), min, max)
            ==> !parts_overflow(parts, min, max),
    decreases parts.len() - i,
{
    if i == parts.len() {
        assert(parts.take(i) =~= parts);
    } else {
        lemma_parts_spec_prefix(parts, i, min, max);
        lemma_parts_prefix_to_whole(parts, i + 1, min, max);
    }
}


// ---------------------------------------------------------------------------
// Cron expressions
// ---------------------------------------------------------------------------

/// A parsed 5-field cron expression: minute hour day-of-month month day-of-week.
/// Each list is sorted and holds no value twice.
#[derive(Debug, Clone)]
pub struct CronExpr {
    /// 0-59
    pub minutes: Vec<u32>,
    /// 0-23
    pub hours: Vec<u32>,
    /// 1-31
    pub days_of_month: Vec<u32>,
    /// 1-12
    pub months: Vec<u32>,
    /// 0-6 (0 = Sunday)
    pub days_of_week: Vec<u32>,
}

/// A point in local time, broken into the fields a cron expression speaks of.
#[derive(Debug, Clone, Copy, PartialEq, Eq, Structural)]
pub struct CronTime {
    pub minute: u32,
    pub hour: u32,
    /// Day of the month, from 1.
    pub day: u32,
    /// Month, from 1.
    pub month: u32,
    /// Day of the week counted from Sunday = 0.
    pub weekday: u32,
}

/// Field `i` of an expression (0 = minutes, ..., 4 = days of week).
pub open spec fn expr_field(c: CronExpr, i: int) -> Seq<u32> {
    if i == 0 {
        c.minutes@
    } else if i == 1 {
        c.hours@
    } else if i == 2 {
        c.days_of_month@
    } else if i == 3 {
        c.months@
    } else {
        c.days_of_week@
    }
}

/// `c` holds, for each of the five fields, the sorted values that field denotes.
pub open spec fn denotes(c: CronExpr, fields: Seq<Seq<char>>) -> bool {
    forall|i: int|
        0 <= i < 5 ==> field_spec(fields[i], field_min(i), field_max(i)) is Ok && sorted_values_of(
            #[trigger] expr_field(c, i),
            field_spec(fields[i], field_min(i), field_max(i))->Ok_0,
        )
}

/// What `CronExpr::parse` returns for `expr`.
pub open spec fn parse_outcome(expr: Seq<char>, r: Result<CronExpr, CronError>) -> bool {
    let fields = split_ws_spec(expr);
    if fields.len() != 5 {
        r matches Err(CronError::FieldCount(n)) && n == fields.len()
    } else {
        match first_field_error(fields, 5) {
            Some((f, e)) => r == Err::<CronExpr, CronError>(CronError::Field(f, e)),
            None => r is Ok && denotes(r->Ok_0, fields),
        }
    }
}

enum ExprOutcome {
    Parsed(CronExpr),
    Refused(CronError),
    Overflow,
}

/// One field of a five-field expression, read in order after the previous ones succeeded.
fn read_nth_field(fields: &Vec<Vec<char>>, i: usize, min: u32, max: u32) -> (r: FieldOutcome)
    requires
        fields.len() == 5,
        i < 5,
        min == field_min(i as int),
        max == field_max(i as int),
    ensures
        match r {
            FieldOutcome::Values(v) => !field_overflows(fields.deep_view()[i as int], min, max)
                && field_spec(fields.deep_view()[i as int], min, max) is Ok && sorted_values_of(
                v@,
                field_spec(fields.deep_view()[i as int], min, max)->Ok_0,
            ),
            FieldOutcome::Refused(e) => !field_overflows(fields.deep_view()[i as int], min, max)
                && field_spec(fields.deep_view()[i as int], min, max) == Err::<
                Seq<u32>,
                FieldError,
            >(e),
            FieldOutcome::Overflow => field_overflows(fields.deep_view()[i as int], min, max),
        },
{
    assert(fields[i as int]@ == fields.deep_view()[i as int]);
    read_field(&fields[i], min, max)
}

#[verifier::rlimit(40)]
fn read_expr(expr: &str) -> (r: ExprOutcome)
    ensures
        match r {
            ExprOutcome::Overflow => expr_overflows(expr@),
            ExprOutcome::Parsed(c) => !expr_overflows(expr@) && parse_outcome(
                expr@,
                Ok::<CronExpr, CronError>(c),
            ),
            ExprOutcome::Refused(e) => !expr_overflows(expr@) && parse_outcome(
                expr@,
                Err::<CronExpr, CronError>(e),
            ),
        },
{
    let chars = chars_of(expr);
    let fields = split_whitespace(&chars);
    let ghost fs = split_ws_spec(expr@);
    if fields.len() != 5 {
        return ExprOutcome::Refused(CronError::FieldCount(fields.len()));
    }
    assert(fs.len() == 5);
    assert(first_field_error(fs, 0) is None);
    assert(!fields_overflow(fs, 0));
    let minutes = match read_nth_field(&fields, 0, 0, 59) {
        FieldOutcome::Values(v) => v,
        FieldOutcome::Refused(e) => {
            proof { lemma_first_error_sticks(fs, 1); }
            return ExprOutcome::Refused(CronError::Field(CronField::Minute, e));
        },
        FieldOutcome::Overflow => {
            proof { lemma_overflow_sticks(fs, 1); }
            return ExprOutcome::Overflow;
        },
    };
    assert(first_field_error(fs, 1) is None);
    assert(!fields_overflow(fs, 1));
    let hours = match read_nth_field(&fields, 1, 0, 23) {
        FieldOutcome::Values(v) => v,
        FieldOutcome::Refused(e) => {
            proof { lemma_first_error_sticks(fs, 2); }
            return ExprOutcome::Refused(CronError::Field(CronField::Hour, e));
        },
        FieldOutcome::Overflow => {
            proof { lemma_overflow_sticks(fs, 2); }
            return ExprOutcome::Overflow;
        },
    };
    assert(first_field_error(fs, 2) is None);
    assert(!fields_overflow(fs, 2));
    let days_of_month = match read_nth_field(&fields, 2, 1, 31) {
        FieldOutcome::Values(v) => v,
        FieldOutcome::Refused(e) => {
            proof { lemma_first_error_sticks(fs, 3); }
            return ExprOutcome::Refused(CronError::Field(CronField::DayOfMonth, e));
        },
        FieldOutcome::Overflow => {
            proof { lemma_overflow_sticks(fs, 3); }
            return ExprOutcome::Overflow;
        },
    };
    assert(first_field_error(fs, 3) is None);
    assert(!fields_overflow(fs, 3));
    let months = match read_nth_field(&fields, 3, 1, 12) {
        FieldOutcome::Values(v) => v,
        FieldOutcome::Refused(e) => {
            proof { lemma_first_error_sticks(fs, 4); }
            return ExprOutcome::Refused(CronError::Field(CronField::Month, e));
        },
        FieldOutcome::Overflow => {
            proof { lemma_overflow_sticks(fs, 4); }
            return ExprOutcome::Overflow;
        },
    };
    assert(first_field_error(fs, 4) is None);
    assert(!fields_overflow(fs, 4));
    let days_of_week = match read_nth_field(&fields, 4, 0, 6) {
        FieldOutcome::Values(v) => v,
        FieldOutcome::Refused(e) => {
            proof { lemma_first_error_sticks(fs, 5); }
            return ExprOutcome::Refused(CronError::Field(CronField::DayOfWeek, e));
        },
        FieldOutcome::Overflow => {
            proof { lemma_overflow_sticks(fs, 5); }
            return ExprOutcome::Overflow;
        },
    };
    assert(first_field_error(fs, 5) is None);
    assert(!fields_overflow(fs, 5));
    let c = CronExpr { minutes, hours, days_of_month, months, days_of_week };
    assert forall|i: int|
        0 <= i < 5 implies field_spec(fs[i], field_min(i), field_max(i)) is Ok && sorted_values_of(
        #[trigger] expr_field(c, i),
        field_spec(fs[i], field_min(i), field_max(i))->Ok_0,
    ) by {}
    ExprOutcome::Parsed(c)
}

/// Once the first `n` fields hold an error, all five do, with the same first error.
pub proof fn lemma_first_error_sticks(fields: Seq<Seq<char>>, n: int)
    requires
        1 <= n <= 5,
    ensures
        first_field_error(fields, n) is Some ==> first_field_error(fields, 5) == first_field_error(
            fields,
            n,
        ),
        first_field_error(fields, n) is Some && !fields_overflow(fields, n) ==> !fields_overflow(
            fields,
            5,
        ),
    decreases 5 - n,
{
    if n < 5 {
        lemma_first_error_sticks(fields, n + 1);
    }
}

/// Once the first `n` fields overflow, all five do.
pub proof fn lemma_overflow_sticks(fields: Seq<Seq<char>>, n: int)
    requires
        1 <= n <= 5,
    ensures
        fields_overflow(fields, n) ==> fields_overflow(fields, 5),
    decreases 5 - n,
{
    if n < 5 {
        lemma_overflow_sticks(fields, n + 1);
    }
}

/// Whether `x` is in `v`.
fn vec_has(v: &Vec<u32>, x: u32) -> (b: bool)
    ensures
        b == v@.contains(x),
{
    let mut i: usize = 0;
    while i < v.len()
        invariant
            i <= v.len(),
            forall|j: int| 0 <= j < i ==> v@[j] != x,
        decreases v.len() - i,
    {
        if v[i] == x {
            assert(v@[i as int] == x);
            return true;
        }
        i = i + 1;
    }
    false
}

impl CronExpr {
    /// Parse a 5-field cron expression.
    /// Supports: * (wildcard), N (specific), N-M (range), */N (step), N,M (list).
    pub fn parse(expr: &str) -> (r: Result<CronExpr, CronError>)
        requires
            !expr_overflows(expr@),
        ensures
            parse_outcome(expr@, r),
    {
        match read_expr(expr) {
            ExprOutcome::Parsed(c) => Ok(c),
            ExprOutcome::Refused(e) => Err(e),
            ExprOutcome::Overflow => {
                assert(false);
                Err(CronError::FieldCount(0))
            },
        }
    }

    /// Whether `parse` would count past `u32::MAX` while producing the
    /// values of a stepped part (`parse` must not be called on such input).
    pub fn parse_would_overflow(expr: &str) -> (b: bool)
        ensures
            b == expr_overflows(expr@),
    {
        match read_expr(expr) {
            ExprOutcome::Overflow => true,
            _ => false,
        }
    }

    /// Parse a single cron field. Handles: *, N, N-M, */N, N-M/S, N,M,O.
    /// The values come sorted and without repetition.
    pub fn parse_field(field: &str, min: u32, max: u32) -> (r: Result<Vec<u32>, FieldError>)
        requires
            !field_overflows(field@, min, max),
        ensures
            match r {
                Ok(v) => field_spec(field@, min, max) is Ok && sorted_values_of(
                    v@,
                    field_spec(field@, min, max)->Ok_0,
                ),
                Err(e) => field_spec(field@, min, max) == Err::<Seq<u32>, FieldError>(e),
            },
    {
        let chars = chars_of(field);
        match read_field(&chars, min, max) {
            FieldOutcome::Values(v) => Ok(v),
            FieldOutcome::Refused(e) => Err(e),
            FieldOutcome::Overflow => {
                assert(false);
                Err(FieldError::NoValues)
            },
        }
    }

    /// Check if a point in time matches this cron expression.
    pub fn matches(&self, t: &CronTime) -> (b: bool)
        ensures
            b == (self.minutes@.contains(t.minute) && self.hours@.contains(t.hour)
                && self.days_of_month@.contains(t.day) && self.months@.contains(t.month)
                && self.days_of_week@.contains(t.weekday)),
    {
        vec_has(&self.minutes, t.minute) && vec_has(&self.hours, t.hour) && vec_has(
            &self.days_of_month,
            t.day,
        ) && vec_has(&self.months, t.month) && vec_has(&self.days_of_week, t.weekday)
    }
}

proof fn lemma_parsed_field_in(c: CronExpr, fields: Seq<Seq<char>>, i: int, x: u32)
    requires
        denotes(c, fields),
        0 <= i < 5,
        expr_field(c, i).contains(x),
    ensures
        field_min(i) <= x <= field_max(i),
{
    let vals = field_spec(fields[i], field_min(i), field_max(i))->Ok_0;
    assert(sorted_values_of(expr_field(c, i), vals));
    assert(vals.contains(x));
    law_field_values_in_bounds(fields[i], field_min(i), field_max(i));
    let k = choose|k: int| 0 <= k < vals.len() && vals[k] == x;
    assert(field_min(i) <= vals[k] <= field_max(i));
}

/// A parsed expression holds minutes 0-59, hours 0-23, days of the month
/// 1-31, months 1-12 and days of the week 0-6, and no field is empty.
pub proof fn law_parsed_fields_in_ranges(expr: Seq<char>, c: CronExpr)
    requires
        parse_outcome(expr, Ok(c)),
    ensures
        forall|x: u32| c.minutes@.contains(x) ==> x <= 59,
        forall|x: u32| c.hours@.contains(x) ==> x <= 23,
        forall|x: u32| c.days_of_month@.contains(x) ==> 1 <= x <= 31,
        forall|x: u32| c.months@.contains(x) ==> 1 <= x <= 12,
        forall|x: u32| c.days_of_week@.contains(x) ==> x <= 6,
        c.minutes@.len() > 0 && c.hours@.len() > 0 && c.days_of_month@.len() > 0 && c.months@.len() > 0
            && c.days_of_week@.len() > 0,
{
    let fields = split_ws_spec(expr);
    assert(denotes(c, fields));
    assert forall|x: u32| c.minutes@.contains(x) implies x <= 59 by {
        assert(expr_field(c, 0) == c.minutes@);
        lemma_parsed_field_in(c, fields, 0, x);
    }
    assert forall|x: u32| c.hours@.contains(x) implies x <= 23 by {
        assert(expr_field(c, 1) == c.hours@);
        lemma_parsed_field_in(c, fields, 1, x);
    }
    assert forall|x: u32| c.days_of_month@.contains(x) implies 1 <= x <= 31 by {
        assert(expr_field(c, 2) == c.days_of_month@);
        lemma_parsed_field_in(c, fields, 2, x);
    }
    assert forall|x: u32| c.months@.contains(x) implies 1 <= x <= 12 by {
        assert(expr_field(c, 3) == c.months@);
        lemma_parsed_field_in(c, fields, 3, x);
    }
    assert forall|x: u32| c.days_of_week@.contains(x) implies x <= 6 by {
        assert(expr_field(c, 4) == c.days_of_week@);
        lemma_parsed_field_in(c, fields, 4, x);
    }
    assert forall|i: int| 0 <= i < 5 implies #[trigger] expr_field(c, i).len() > 0 by {
        let vals = field_spec(fields[i], field_min(i), field_max(i))->Ok_0;
        assert(sorted_values_of(expr_field(c, i), vals));
        assert(vals.len() > 0);
        assert(vals.contains(vals[0]));
        assert(expr_field(c, i).contains(vals[0]));
    }
    assert(expr_field(c, 0).len() > 0);
    assert(expr_field(c, 1).len() > 0);
    assert(expr_field(c, 2).len() > 0);
    assert(expr_field(c, 3).len() > 0);
    assert(expr_field(c, 4).len() > 0);
}

} // verus!

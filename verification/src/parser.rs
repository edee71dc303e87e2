//! The parameter parser: turns the raw text blob embedded in an image's
//! metadata into a structured [`Image`] record, or reports that the blob is
//! unparseable.
//!
//! The grammar is anchored left to right. The prompt runs up to the *last*
//! occurrence of the literal `"\nNegative prompt: "` (prompt text may itself
//! contain the marker words), the negative prompt up to the last occurrence of
//! `"\nSteps: "` in what remains, and the rest is a strict, ordered,
//! comma-separated field list. Any missing mandatory field or failing numeric
//! sub-field makes the whole blob unparseable; the two optional trailing
//! fields may be absent freely.

use vstd::prelude::*;

use crate::record::{Image, ImageModel};

verus! {

// ---------------------------------------------------------------------------
// Scanning primitives: occurrences, last occurrence, first comma, digit runs.
// ---------------------------------------------------------------------------

/// The needle `m` occurs in `s` starting at index `i`.
pub open spec fn occurs_at(s: Seq<char>, m: Seq<char>, i: int) -> bool {
    0 <= i && i + m.len() <= s.len() && s.subrange(i, i + m.len()) == m
}

/// The last index `<= end` at which `m` occurs in `s`, if any.
pub open spec fn last_occurrence_before(s: Seq<char>, m: Seq<char>, end: int) -> Option<int>
    decreases end + 1,
{
    if end < 0 {
        None
    } else if occurs_at(s, m, end) {
        Some(end)
    } else {
        last_occurrence_before(s, m, end - 1)
    }
}

/// The last index at which `m` occurs in `s`, if any.
pub open spec fn last_occurrence(s: Seq<char>, m: Seq<char>) -> Option<int> {
    last_occurrence_before(s, m, s.len() - m.len())
}

/// The first index `>= from` holding character `c`, if any.
pub open spec fn first_char_from(s: Seq<char>, c: char, from: int) -> Option<int>
    decreases s.len() - from,
{
    if !(0 <= from < s.len()) {
        None
    } else if s[from] == c {
        Some(from)
    } else {
        first_char_from(s, c, from + 1)
    }
}

/// An ASCII decimal digit.
pub open spec fn is_digit_char(c: char) -> bool {
    '0' <= c && c <= '9'
}

/// Numeric value of a digit character.
pub open spec fn digit_val(c: char) -> int {
    c as int - '0' as int
}

/// The index just past the maximal run of digits starting at `from`.
pub open spec fn digits_end(s: Seq<char>, from: int) -> int
    decreases s.len() - from,
{
    if 0 <= from < s.len() && is_digit_char(s[from]) {
        digits_end(s, from + 1)
    } else {
        from
    }
}

/// The value of the digit run `s[from..to]`, read in base ten.
pub open spec fn digits_val(s: Seq<char>, from: int, to: int) -> int
    decreases to - from,
{
    if to <= from {
        0
    } else {
        digits_val(s, from, to - 1) * 10 + digit_val(s[to - 1])
    }
}

proof fn lemma_last_occurrence_before_props(s: Seq<char>, m: Seq<char>, end: int)
    ensures
        match last_occurrence_before(s, m, end) {
            Some(i) => 0 <= i <= end && occurs_at(s, m, i),
            None => true,
        },
    decreases end + 1,
{
    if end >= 0 && !occurs_at(s, m, end) {
        lemma_last_occurrence_before_props(s, m, end - 1);
    }
}

proof fn lemma_last_occurrence_props(s: Seq<char>, m: Seq<char>)
    ensures
        match last_occurrence(s, m) {
            Some(i) => 0 <= i && i + m.len() <= s.len() && occurs_at(s, m, i),
            None => true,
        },
{
    lemma_last_occurrence_before_props(s, m, s.len() - m.len());
}

proof fn lemma_first_char_from_props(s: Seq<char>, c: char, from: int)
    ensures
        match first_char_from(s, c, from) {
            Some(i) => from <= i < s.len() && s[i] == c,
            None => true,
        },
    decreases s.len() - from,
{
    if 0 <= from < s.len() && s[from] != c {
        lemma_first_char_from_props(s, c, from + 1);
    }
}

proof fn lemma_digits_end_props(s: Seq<char>, from: int)
    requires
        0 <= from <= s.len(),
    ensures
        from <= digits_end(s, from) <= s.len(),
        forall|j: int| from <= j < digits_end(s, from) ==> is_digit_char(s[j]),
    decreases s.len() - from,
{
    if from < s.len() && is_digit_char(s[from]) {
        lemma_digits_end_props(s, from + 1);
    }
}

proof fn lemma_digits_val_nonneg(s: Seq<char>, from: int, to: int)
    requires
        0 <= from,
        to <= s.len(),
        forall|j: int| from <= j < to ==> is_digit_char(s[j]),
    ensures
        digits_val(s, from, to) >= 0,
    decreases to - from,
{
    if to > from {
        lemma_digits_val_nonneg(s, from, to - 1);
    }
}

proof fn lemma_digits_val_mono(s: Seq<char>, from: int, mid: int, to: int)
    requires
        0 <= from <= mid <= to <= s.len(),
        forall|j: int| from <= j < to ==> is_digit_char(s[j]),
    ensures
        digits_val(s, from, to) >= digits_val(s, from, mid),
    decreases to - mid,
{
    if to > mid {
        lemma_digits_val_mono(s, from, mid, to - 1);
        lemma_digits_val_nonneg(s, from, to - 1);
    }
}

// ---------------------------------------------------------------------------
// Executable scanning helpers, each proved against the functions above.
// ---------------------------------------------------------------------------

/// Collect the characters of a string slice.
fn chars_of(s: &str) -> (v: Vec<char>)
    ensures
        v@ == s@,
{
    let n = s.unicode_len();
    let mut v: Vec<char> = Vec::new();
    let mut i: usize = 0;
    while i < n
        invariant
            n == s@.len(),
            i <= n,
            v@ == s@.subrange(0, i as int),
        decreases n - i,
    {
        let c = s.get_char(i);
        v.push(c);
        proof {
            assert(s@.subrange(0, i as int).push(s@[i as int]) =~= s@.subrange(0, i + 1 as int));
        }
        i += 1;
    }
    proof {
        assert(v@ =~= s@);
    }
    v
}

fn is_match_at(hay: &Vec<char>, m: &Vec<char>, i: usize) -> (b: bool)
    requires
        i + m@.len() <= hay@.len(),
    ensures
        b == occurs_at(hay@, m@, i as int),
{
    let hlen = hay.len();
    let mut k: usize = 0;
    while k < m.len()
        invariant
            hlen == hay@.len(),
            i + m@.len() <= hay@.len(),
            k <= m@.len(),
            forall|j: int| 0 <= j < k ==> hay@[i + j] == m@[j],
        decreases m@.len() - k,
    {
        if hay[i + k] != m[k] {
            proof {
                assert(hay@.subrange(i as int, i + m@.len())[k as int] == hay@[i + k]);
            }
            return false;
        }
        k += 1;
    }
    proof {
        assert(hay@.subrange(i as int, i + m@.len()) =~= m@);
    }
    true
}

/// The last index at which the needle `m` occurs in `hay`, if any.
fn rfind(hay: &Vec<char>, m: &Vec<char>) -> (r: Option<usize>)
    ensures
        match r {
            Some(i) => last_occurrence(hay@, m@) == Some(i as int),
            None => last_occurrence(hay@, m@) is None,
        },
{
    if m.len() > hay.len() {
        return None;
    }
    let mut end: usize = hay.len() - m.len();
    loop
        invariant
            m@.len() <= hay@.len(),
            end <= hay@.len() - m@.len(),
            last_occurrence(hay@, m@) == last_occurrence_before(hay@, m@, end as int),
        decreases end,
    {
        if is_match_at(hay, m, end) {
            return Some(end);
        }
        if end == 0 {
            proof {
                assert(last_occurrence_before(hay@, m@, -1) is None);
            }
            return None;
        }
        end -= 1;
    }
}

/// The first index `>= from` holding character `c`, if any.
fn find_char_from(hay: &Vec<char>, c: char, from: usize) -> (r: Option<usize>)
    requires
        from <= hay@.len(),
    ensures
        match r {
            Some(i) => first_char_from(hay@, c, from as int) == Some(i as int),
            None => first_char_from(hay@, c, from as int) is None,
        },
{
    let mut i: usize = from;
    while i < hay.len()
        invariant
            from <= i <= hay@.len(),
            first_char_from(hay@, c, from as int) == first_char_from(hay@, c, i as int),
        decreases hay@.len() - i,
    {
        if hay[i] == c {
            return Some(i);
        }
        i += 1;
    }
    None
}

fn is_digit(c: char) -> (b: bool)
    ensures
        b == is_digit_char(c),
{
    c >= '0' && c <= '9'
}

/// The index just past the maximal digit run starting at `from`.
fn digits_end_from(hay: &Vec<char>, from: usize) -> (r: usize)
    requires
        from <= hay@.len(),
    ensures
        r == digits_end(hay@, from as int),
        from <= r <= hay@.len(),
{
    proof {
        lemma_digits_end_props(hay@, from as int);
    }
    let mut i: usize = from;
    while i < hay.len()
        invariant
            from <= i <= hay@.len(),
            digits_end(hay@, from as int) == digits_end(hay@, i as int),
        decreases hay@.len() - i,
    {
        if !is_digit(hay[i]) {
            return i;
        }
        i += 1;
    }
    i
}

/// The value of the digit run `hay[from..to]` when it is at most `max`.
fn digits_value_checked(hay: &Vec<char>, from: usize, to: usize, max: u64) -> (r: Option<u64>)
    requires
        from <= to <= hay@.len(),
        forall|j: int| from <= j < to ==> is_digit_char(hay@[j]),
    ensures
        match r {
            Some(v) => v as int == digits_val(hay@, from as int, to as int) && v <= max,
            None => digits_val(hay@, from as int, to as int) > max,
        },
{
    let mut acc: u64 = 0;
    let mut k: usize = from;
    while k < to
        invariant
            from <= k <= to <= hay@.len(),
            forall|j: int| from <= j < to ==> is_digit_char(hay@[j]),
            acc as int == digits_val(hay@, from as int, k as int),
            acc <= max,
        decreases to - k,
    {
        let c = hay[k];
        let d: u64 = (c as u32 - 48) as u64;
        proof {
            assert(is_digit_char(hay@[k as int]));
            assert(d as int == digit_val(hay@[k as int]));
        }
        if acc > max / 10 {
            proof {
                assert((max / 10) * 10 + max % 10 == max) by (nonlinear_arith);
                assert(acc * 10 > max) by (nonlinear_arith)
                    requires
                        acc > max / 10,
                        (max / 10) * 10 + max % 10 == max,
                        max % 10 < 10,
                ;
                assert(digits_val(hay@, from as int, k + 1 as int) > max);
                lemma_digits_val_mono(hay@, from as int, k + 1 as int, to as int);
            }
            return None;
        }
        let acc10: u64 = acc * 10;
        proof {
            assert(acc * 10 <= max) by (nonlinear_arith)
                requires
                    acc <= max / 10,
                    (max / 10) * 10 + max % 10 == max || true,
            {
                assert(acc * 10 <= (max / 10) * 10);
                assert((max / 10) * 10 <= max);
            }
        }
        if d > max - acc10 {
            proof {
                assert(digits_val(hay@, from as int, k + 1 as int) > max);
                lemma_digits_val_mono(hay@, from as int, k + 1 as int, to as int);
            }
            return None;
        }
        acc = acc10 + d;
        k += 1;
    }
    Some(acc)
}

/// Copy out the characters `v[from..to]`.
fn subvec(v: &Vec<char>, from: usize, to: usize) -> (r: Vec<char>)
    requires
        from <= to <= v@.len(),
    ensures
        r@ == v@.subrange(from as int, to as int),
{
    let mut r: Vec<char> = Vec::new();
    let mut i: usize = from;
    while i < to
        invariant
            from <= i <= to <= v@.len(),
            r@ == v@.subrange(from as int, i as int),
        decreases to - i,
    {
        r.push(v[i]);
        proof {
            assert(v@.subrange(from as int, i as int).push(v@[i as int]) =~= v@.subrange(
                from as int,
                i + 1 as int,
            ));
        }
        i += 1;
    }
    r
}

/// Relies on `String: FromIterator<char>`: collecting characters yields the
/// string made of exactly those characters, in order.
#[verifier::external_body]
fn string_from_chars(v: &Vec<char>) -> (r: String)
    ensures
        r@ == v@,
{
    v.iter().collect()
}

/// Whether the needle `m` occurs in `hay` at index `i`, for any `i`.
fn occurs_here(hay: &Vec<char>, m: &Vec<char>, i: usize) -> (b: bool)
    ensures
        b == occurs_at(hay@, m@, i as int),
{
    if i > hay.len() || m.len() > hay.len() - i {
        false
    } else {
        is_match_at(hay, m, i)
    }
}

// ---------------------------------------------------------------------------
// The grammar: markers and the strict tail field list.
// ---------------------------------------------------------------------------

pub open spec fn neg_marker() -> Seq<char> {
    "\nNegative prompt: "@
}

pub open spec fn steps_marker() -> Seq<char> {
    "\nSteps: "@
}

pub open spec fn sampler_marker() -> Seq<char> {
    ", Sampler: "@
}

pub open spec fn cfg_marker() -> Seq<char> {
    ", CFG scale: "@
}

pub open spec fn seed_marker() -> Seq<char> {
    ", Seed: "@
}

pub open spec fn size_marker() -> Seq<char> {
    ", Size: "@
}

pub open spec fn hash_marker() -> Seq<char> {
    ", Model hash: "@
}

pub open spec fn model_marker() -> Seq<char> {
    ", Model: "@
}

pub open spec fn mask_marker() -> Seq<char> {
    ", Conditional mask weight: "@
}

pub open spec fn clip_marker() -> Seq<char> {
    ", Clip skip: "@
}

/// Model of a parsed tail field list: the comma-separated fields after the
/// `"\nSteps: "` marker.
#[verifier::ext_equal]
pub struct TailModel {
    pub steps: int,
    pub sampler: Seq<char>,
    pub cfg_scale: int,
    pub seed: int,
    pub width: int,
    pub height: int,
    pub model_hash: Seq<char>,
    pub model: Seq<char>,
    pub clip_skip: Option<int>,
}

/// The position just past the optional, discarded `Conditional mask weight`
/// field starting at `q`; `q` itself when the field is absent.
pub open spec fn after_mask(t: Seq<char>, q: int) -> int {
    let p = q + mask_marker().len();
    if occurs_at(t, mask_marker(), q) && p < t.len() && t[p] != ',' {
        match first_char_from(t, ',', p) {
            Some(c) => c,
            None => t.len() as int,
        }
    } else {
        q
    }
}

/// The optional `Clip skip` field at position `q`. `None` means the field is
/// present but its value does not fit the record (the whole parse fails);
/// `Some(None)` means the field is absent; `Some(Some(v))` its value.
pub open spec fn parse_clip(t: Seq<char>, q: int) -> Option<Option<int>> {
    let p = q + clip_marker().len();
    if occurs_at(t, clip_marker(), q) && p < t.len() && is_digit_char(t[p]) {
        let e = digits_end(t, p);
        if digits_val(t, p, e) > i64::MAX as int {
            None
        } else {
            Some(Some(digits_val(t, p, e)))
        }
    } else {
        Some(None)
    }
}

/// The strict, ordered tail field list, starting with the `Steps` value:
/// `<uint>, Sampler: <text>, CFG scale: <uint>, Seed: <int>, Size: <uint>x<uint>,
/// Model hash: <text>, Model: <text>` then the two optional fields. Text
/// fields run up to the next comma and must be nonempty; the `Model` text may
/// run to the end instead. Anything after the recognized fields is ignored.
pub open spec fn parse_tail(t: Seq<char>) -> Option<TailModel> {
    let e1 = digits_end(t, 0);
    if e1 == 0 || digits_val(t, 0, e1) > i64::MAX as int || !occurs_at(t, sampler_marker(), e1) {
        None
    } else {
        let p2 = e1 + sampler_marker().len();
        match first_char_from(t, ',', p2) {
            None => None,
            Some(c2) => {
                if c2 == p2 || !occurs_at(t, cfg_marker(), c2) {
                    None
                } else {
                    let p3 = c2 + cfg_marker().len();
                    let e3 = digits_end(t, p3);
                    if e3 == p3 || digits_val(t, p3, e3) > u64::MAX as int || !occurs_at(
                        t,
                        seed_marker(),
                        e3,
                    ) {
                        None
                    } else {
                        parse_tail_from_seed(t, e1, p2, c2, p3, e3)
                    }
                }
            },
        }
    }
}

/// Continuation of [`parse_tail`] from the `Seed` field on.
pub open spec fn parse_tail_from_seed(
    t: Seq<char>,
    e1: int,
    p2: int,
    c2: int,
    p3: int,
    e3: int,
) -> Option<TailModel> {
    let p4 = e3 + seed_marker().len();
    let neg = p4 < t.len() && t[p4] == '-';
    let d4 = if neg {
        p4 + 1
    } else {
        p4
    };
    let e4 = digits_end(t, d4);
    let sval = digits_val(t, d4, e4);
    if e4 == d4 || (neg && sval > 0x8000_0000_0000_0000) || (!neg && sval > i64::MAX as int)
        || !occurs_at(t, size_marker(), e4) {
        None
    } else {
        let p5 = e4 + size_marker().len();
        let ew = digits_end(t, p5);
        if ew == p5 || digits_val(t, p5, ew) > i64::MAX as int || !(ew < t.len() && t[ew] == 'x') {
            None
        } else {
            let ph = ew + 1;
            let eh = digits_end(t, ph);
            if eh == ph || digits_val(t, ph, eh) > i64::MAX as int || !occurs_at(
                t,
                hash_marker(),
                eh,
            ) {
                None
            } else {
                parse_tail_from_hash(
                    t,
                    e1,
                    p2,
                    c2,
                    p3,
                    e3,
                    if neg {
                        -sval
                    } else {
                        sval
                    },
                    p5,
                    ew,
                    ph,
                    eh,
                )
            }
        }
    }
}

/// Continuation of [`parse_tail`] from the `Model hash` field on.
pub open spec fn parse_tail_from_hash(
    t: Seq<char>,
    e1: int,
    p2: int,
    c2: int,
    p3: int,
    e3: int,
    seed: int,
    p5: int,
    ew: int,
    ph: int,
    eh: int,
) -> Option<TailModel> {
    let p6 = eh + hash_marker().len();
    match first_char_from(t, ',', p6) {
        None => None,
        Some(c6) => {
            if c6 == p6 || !occurs_at(t, model_marker(), c6) {
                None
            } else {
                let p7 = c6 + model_marker().len();
                let c7 = match first_char_from(t, ',', p7) {
                    Some(c) => c,
                    None => t.len() as int,
                };
                if c7 == p7 {
                    None
                } else {
                    let q = after_mask(t, c7);
                    match parse_clip(t, q) {
                        None => None,
                        Some(clip) => Some(
                            TailModel {
                                steps: digits_val(t, 0, e1),
                                sampler: t.subrange(p2, c2),
                                cfg_scale: digits_val(t, p3, e3),
                                seed: seed,
                                width: digits_val(t, p5, ew),
                                height: digits_val(t, ph, eh),
                                model_hash: t.subrange(p6, c6),
                                model: t.subrange(p7, c7),
                                clip_skip: clip,
                            },
                        ),
                    }
                }
            }
        },
    }
}

// ---------------------------------------------------------------------------
// The executable tail parser.
// ---------------------------------------------------------------------------

/// A parsed tail field list, fields still as character vectors.
struct TailParts {
    steps: i64,
    sampler: Vec<char>,
    cfg_scale: u64,
    seed: i64,
    width: i64,
    height: i64,
    model_hash: Vec<char>,
    model: Vec<char>,
    clip_skip: Option<i64>,
}

/// Model of a [`TailParts`] value.
spec fn tail_parts_model(tp: &TailParts) -> TailModel {
    TailModel {
        steps: tp.steps as int,
        sampler: tp.sampler@,
        cfg_scale: tp.cfg_scale as int,
        seed: tp.seed as int,
        width: tp.width as int,
        height: tp.height as int,
        model_hash: tp.model_hash@,
        model: tp.model@,
        clip_skip: match tp.clip_skip {
            Some(v) => Some(v as int),
            None => None,
        },
    }
}

/// Skip the optional `Conditional mask weight` field at `q`.
fn skip_mask(t: &Vec<char>, q: usize) -> (r: usize)
    requires
        q <= t@.len(),
    ensures
        r as int == after_mask(t@, q as int),
        q <= r <= t@.len(),
{
    let n = t.len();
    let mm = chars_of(", Conditional mask weight: ");
    if occurs_here(t, &mm, q) {
        proof {
            assert(q + mm@.len() <= n);
        }
        let p = q + mm.len();
        if p < t.len() && t[p] != ',' {
            proof {
                lemma_first_char_from_props(t@, ',', p as int);
            }
            match find_char_from(t, ',', p) {
                Some(c) => c,
                None => t.len(),
            }
        } else {
            q
        }
    } else {
        q
    }
}

/// Read the optional `Clip skip` field at `q`.
fn parse_clip_exec(t: &Vec<char>, q: usize) -> (r: Option<Option<i64>>)
    requires
        q <= t@.len(),
    ensures
        match r {
            Some(clip) => parse_clip(t@, q as int) == Some(
                match clip {
                    Some(v) => Some(v as int),
                    None => None::<int>,
                },
            ),
            None => parse_clip(t@, q as int) is None,
        },
{
    let n = t.len();
    let cm = chars_of(", Clip skip: ");
    if occurs_here(t, &cm, q) {
        proof {
            assert(q + cm@.len() <= n);
        }
        let p = q + cm.len();
        if p < t.len() && is_digit(t[p]) {
            let e = digits_end_from(t, p);
            proof {
                lemma_digits_end_props(t@, p as int);
            }
            match digits_value_checked(t, p, e, i64::MAX as u64) {
                None => None,
                Some(v) => Some(Some(v as i64)),
            }
        } else {
            Some(None)
        }
    } else {
        Some(None)
    }
}

/// Parse the strict tail field list of a blob.
fn parse_tail_exec(t: &Vec<char>) -> (r: Option<TailParts>)
    ensures
        match r {
            Some(tp) => parse_tail(t@) == Some(tail_parts_model(&tp)),
            None => parse_tail(t@) is None,
        },
{
    let n = t.len();
    // Steps
    let e1 = digits_end_from(t, 0);
    proof {
        lemma_digits_end_props(t@, 0);
    }
    if e1 == 0 {
        return None;
    }
    let steps: i64 = match digits_value_checked(t, 0, e1, i64::MAX as u64) {
        None => {
            return None;
        },
        Some(v) => v as i64,
    };
    // Sampler
    let sm = chars_of(", Sampler: ");
    if !occurs_here(t, &sm, e1) {
        return None;
    }
    proof {
        assert(e1 + sm@.len() <= n);
    }
    let p2 = e1 + sm.len();
    let c2 = match find_char_from(t, ',', p2) {
        None => {
            return None;
        },
        Some(c) => c,
    };
    proof {
        lemma_first_char_from_props(t@, ',', p2 as int);
    }
    if c2 == p2 {
        return None;
    }
    let sampler = subvec(t, p2, c2);
    // CFG scale
    let cm = chars_of(", CFG scale: ");
    if !occurs_here(t, &cm, c2) {
        return None;
    }
    proof {
        assert(c2 + cm@.len() <= n);
    }
    let p3 = c2 + cm.len();
    let e3 = digits_end_from(t, p3);
    proof {
        lemma_digits_end_props(t@, p3 as int);
    }
    if e3 == p3 {
        return None;
    }
    let cfg_scale: u64 = match digits_value_checked(t, p3, e3, u64::MAX) {
        None => {
            return None;
        },
        Some(v) => v,
    };
    // Seed
    let sem = chars_of(", Seed: ");
    if !occurs_here(t, &sem, e3) {
        return None;
    }
    proof {
        assert(e3 + sem@.len() <= n);
    }
    let p4 = e3 + sem.len();
    let neg = p4 < t.len() && t[p4] == '-';
    let d4 = if neg {
        p4 + 1
    } else {
        p4
    };
    let e4 = digits_end_from(t, d4);
    proof {
        lemma_digits_end_props(t@, d4 as int);
    }
    if e4 == d4 {
        return None;
    }
    let smax: u64 = if neg {
        9223372036854775808
    } else {
        i64::MAX as u64
    };
    let seed: i64 = match digits_value_checked(t, d4, e4, smax) {
        None => {
            return None;
        },
        Some(v) => {
            if neg {
                if v == 9223372036854775808 {
                    i64::MIN
                } else {
                    -(v as i64)
                }
            } else {
                v as i64
            }
        },
    };
    // Size
    let zm = chars_of(", Size: ");
    if !occurs_here(t, &zm, e4) {
        return None;
    }
    proof {
        assert(e4 + zm@.len() <= n);
    }
    let p5 = e4 + zm.len();
    let ew = digits_end_from(t, p5);
    proof {
        lemma_digits_end_props(t@, p5 as int);
    }
    if ew == p5 {
        return None;
    }
    let width: i64 = match digits_value_checked(t, p5, ew, i64::MAX as u64) {
        None => {
            return None;
        },
        Some(v) => v as i64,
    };
    if !(ew < t.len() && t[ew] == 'x') {
        return None;
    }
    let ph = ew + 1;
    let eh = digits_end_from(t, ph);
    proof {
        lemma_digits_end_props(t@, ph as int);
    }
    if eh == ph {
        return None;
    }
    let height: i64 = match digits_value_checked(t, ph, eh, i64::MAX as u64) {
        None => {
            return None;
        },
        Some(v) => v as i64,
    };
    // Model hash
    let hm = chars_of(", Model hash: ");
    if !occurs_here(t, &hm, eh) {
        return None;
    }
    proof {
        assert(eh + hm@.len() <= n);
    }
    let p6 = eh + hm.len();
    let c6 = match find_char_from(t, ',', p6) {
        None => {
            return None;
        },
        Some(c) => c,
    };
    proof {
        lemma_first_char_from_props(t@, ',', p6 as int);
    }
    if c6 == p6 {
        return None;
    }
    let model_hash = subvec(t, p6, c6);
    // Model
    let mm = chars_of(", Model: ");
    if !occurs_here(t, &mm, c6) {
        return None;
    }
    proof {
        assert(c6 + mm@.len() <= n);
    }
    let p7 = c6 + mm.len();
    let c7 = match find_char_from(t, ',', p7) {
        Some(c) => c,
        None => t.len(),
    };
    proof {
        lemma_first_char_from_props(t@, ',', p7 as int);
    }
    if c7 == p7 {
        return None;
    }
    let model = subvec(t, p7, c7);
    // Optional fields
    let q = skip_mask(t, c7);
    let clip_skip: Option<i64> = match parse_clip_exec(t, q) {
        None => {
            return None;
        },
        Some(clip) => clip,
    };
    let tp = TailParts { steps, sampler, cfg_scale, seed, width, height, model_hash, model, clip_skip };
    proof {
        assert(parse_tail(t@) == Some(tail_parts_model(&tp)));
    }
    Some(tp)
}

// ---------------------------------------------------------------------------
// The whole blob.
// ---------------------------------------------------------------------------

/// The parse of a whole raw blob: the prompt runs up to the last occurrence
/// of the negative-prompt marker, the negative prompt up to the last
/// occurrence of the steps marker in what remains, and the rest is the strict
/// tail field list. Both prompts must be nonempty. `None` means the blob is
/// unparseable.
pub open spec fn parse_spec(s: Seq<char>) -> Option<ImageModel> {
    match last_occurrence(s, neg_marker()) {
        None => None,
        Some(i) => {
            if i < 1 {
                None
            } else {
                let rest = s.subrange(i + neg_marker().len(), s.len() as int);
                match last_occurrence(rest, steps_marker()) {
                    None => None,
                    Some(j) => {
                        if j < 1 {
                            None
                        } else {
                            let tail = rest.subrange(j + steps_marker().len(), rest.len() as int);
                            match parse_tail(tail) {
                                None => None,
                                Some(tm) => Some(
                                    ImageModel {
                                        id: -1,
                                        prompt: s.subrange(0, i),
                                        negative_prompt: rest.subrange(0, j),
                                        steps: tm.steps,
                                        sampler: tm.sampler,
                                        cfg_scale: tm.cfg_scale,
                                        seed: tm.seed,
                                        width: tm.width,
                                        height: tm.height,
                                        model_hash: tm.model_hash,
                                        model: tm.model,
                                        clip_skip: tm.clip_skip,
                                        file_path: None,
                                        created_at: 0,
                                    },
                                ),
                            }
                        }
                    },
                }
            }
        },
    }
}

/// Parse a raw metadata blob into a structured record.
///
/// Returns `None` exactly when the blob does not fit the grammar: a missing
/// mandatory field or marker, an empty mandatory text field, or a numeric
/// sub-field whose value does not fit the record. The two optional trailing
/// fields may be absent without failing the parse.
pub fn parse_raw(raw: &str) -> (r: Option<Image>)
    ensures
        match r {
            Some(im) => parse_spec(raw@) == Some(im@),
            None => parse_spec(raw@) is None,
        },
{
    let s = chars_of(raw);
    let n = s.len();
    let nm = chars_of("\nNegative prompt: ");
    let i = match rfind(&s, &nm) {
        None => {
            return None;
        },
        Some(i) => i,
    };
    proof {
        lemma_last_occurrence_props(s@, nm@);
    }
    if i < 1 {
        return None;
    }
    let rest = subvec(&s, i + nm.len(), n);
    let rn = rest.len();
    let stm = chars_of("\nSteps: ");
    let j = match rfind(&rest, &stm) {
        None => {
            return None;
        },
        Some(j) => j,
    };
    proof {
        lemma_last_occurrence_props(rest@, stm@);
    }
    if j < 1 {
        return None;
    }
    let tail = subvec(&rest, j + stm.len(), rn);
    let tp = match parse_tail_exec(&tail) {
        None => {
            return None;
        },
        Some(tp) => tp,
    };
    let prompt_chars = subvec(&s, 0, i);
    let negative_chars = subvec(&rest, 0, j);
    let im = Image {
        id: -1,
        prompt: string_from_chars(&prompt_chars),
        negative_prompt: string_from_chars(&negative_chars),
        steps: tp.steps,
        sampler: string_from_chars(&tp.sampler),
        cfg_scale: tp.cfg_scale,
        seed: tp.seed,
        width: tp.width,
        height: tp.height,
        model_hash: string_from_chars(&tp.model_hash),
        model: string_from_chars(&tp.model),
        clip_skip: tp.clip_skip,
        file_path: None,
        created_at: 0,
    };
    proof {
        assert(parse_spec(raw@) == Some(im@));
    }
    Some(im)
}

/// Law: parsing is deterministic — any two results of parsing the same blob
/// are structurally equal, so re-running the parser on one input always
/// yields the same record or the same failure.
pub proof fn lemma_parse_deterministic(
    s: Seq<char>,
    r1: Option<ImageModel>,
    r2: Option<ImageModel>,
)
    requires
        r1 == parse_spec(s),
        r2 == parse_spec(s),
    ensures
        r1 == r2,
{
}

/// The size text did not have the form `<uint>x<uint>`.
#[derive(Debug, PartialEq, Eq)]
pub struct ParseSizeError;

/// A well-formed size text: digits, the letter `x`, digits, with both values
/// fitting the record's integer fields.
pub open spec fn parse_size_spec(s: Seq<char>) -> Option<(int, int)> {
    match first_char_from(s, 'x', 0) {
        None => None,
        Some(x) => {
            if x >= 1 && digits_end(s, 0) == x && x + 1 < s.len() && digits_end(s, x + 1)
                == s.len() && digits_val(s, 0, x) <= i64::MAX as int && digits_val(
                s,
                x + 1,
                s.len() as int,
            ) <= i64::MAX as int {
                Some((digits_val(s, 0, x), digits_val(s, x + 1, s.len() as int)))
            } else {
                None
            }
        },
    }
}

/// Parse a size text such as `"123x456"` to the pair `(123, 456)`.
pub fn parse_size(raw: &str) -> (r: Result<(i64, i64), ParseSizeError>)
    ensures
        match r {
            Ok((w, h)) => parse_size_spec(raw@) == Some((w as int, h as int)),
            Err(_) => parse_size_spec(raw@) is None,
        },
{
    let s = chars_of(raw);
    let n = s.len();
    let x = match find_char_from(&s, 'x', 0) {
        None => {
            return Err(ParseSizeError);
        },
        Some(x) => x,
    };
    proof {
        lemma_first_char_from_props(s@, 'x', 0);
        lemma_digits_end_props(s@, 0);
    }
    if x < 1 || digits_end_from(&s, 0) != x || x + 1 >= n {
        return Err(ParseSizeError);
    }
    proof {
        lemma_digits_end_props(s@, x + 1 as int);
    }
    if digits_end_from(&s, x + 1) != n {
        return Err(ParseSizeError);
    }
    let w = match digits_value_checked(&s, 0, x, i64::MAX as u64) {
        None => {
            return Err(ParseSizeError);
        },
        Some(v) => v as i64,
    };
    let h = match digits_value_checked(&s, x + 1, n, i64::MAX as u64) {
        None => {
            return Err(ParseSizeError);
        },
        Some(v) => v as i64,
    };
    Ok((w, h))
}

} // verus!

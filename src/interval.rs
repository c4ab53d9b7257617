use vstd::prelude::*;

verus! {

/// A musical interval within one octave, counted upward from a root.
#[derive(Clone, Copy, Debug, PartialEq, Eq, Structural)]
pub enum Interval {
    Unison,
    MinorSecond,
    MajorSecond,
    MinorThird,
    MajorThird,
    PerfectForth,
    Tritone,
    PerfectFifth,
    MinorSixth,
    MajorSixth,
    MinorSeventh,
    MajorSeventh,
}

/// Number of semitones an interval spans.
pub open spec fn semitones_of(i: Interval) -> int {
    match i {
        Interval::Unison => 0,
        Interval::MinorSecond => 1,
        Interval::MajorSecond => 2,
        Interval::MinorThird => 3,
        Interval::MajorThird => 4,
        Interval::PerfectForth => 5,
        Interval::Tritone => 6,
        Interval::PerfectFifth => 7,
        Interval::MinorSixth => 8,
        Interval::MajorSixth => 9,
        Interval::MinorSeventh => 10,
        Interval::MajorSeventh => 11,
    }
}

/// The interval a short name stands for: `root`, `m2`, `M2`, `m3`, `M3`, `p4`,
/// `3t`, `p5`, `m6`, `M6`, `m7`, `M7`.
pub open spec fn interval_named(name: Seq<char>) -> Option<Interval> {
    if name == seq!['r', 'o', 'o', 't'] {
        Some(Interval::Unison)
    } else if name == seq!['m', '2'] {
        Some(Interval::MinorSecond)
    } else if name == seq!['M', '2'] {
        Some(Interval::MajorSecond)
    } else if name == seq!['m', '3'] {
        Some(Interval::MinorThird)
    } else if name == seq!['M', '3'] {
        Some(Interval::MajorThird)
    } else if name == seq!['p', '4'] {
        Some(Interval::PerfectForth)
    } else if name == seq!['3', 't'] {
        Some(Interval::Tritone)
    } else if name == seq!['p', '5'] {
        Some(Interval::PerfectFifth)
    } else if name == seq!['m', '6'] {
        Some(Interval::MinorSixth)
    } else if name == seq!['M', '6'] {
        Some(Interval::MajorSixth)
    } else if name == seq!['m', '7'] {
        Some(Interval::MinorSeventh)
    } else if name == seq!['M', '7'] {
        Some(Interval::MajorSeventh)
    } else {
        None
    }
}

pub open spec fn is_decimal_digit(c: char) -> bool {
    '0' <= c && c <= '9'
}

pub open spec fn all_decimal_digits(s: Seq<char>) -> bool {
    forall|i: int| 0 <= i < s.len() ==> is_decimal_digit(#[trigger] s[i])
}

/// Value of a string of decimal digits, most significant first.
pub open spec fn digits_value(s: Seq<char>) -> int
    decreases s.len(),
{
    if s.len() == 0 {
        0
    } else {
        digits_value(s.drop_last()) * 10 + (s.last() as int - '0' as int)
    }
}

/// The digits of a decimal literal: the text after its sign, if it has one.
pub open spec fn decimal_body(s: Seq<char>) -> Seq<char> {
    if s.len() > 0 && (s[0] == '-' || s[0] == '+') {
        s.drop_first()
    } else {
        s
    }
}

/// Value of a signed decimal literal (an optional `+` or `-`, then at least one
/// digit) that fits in an `i32`; `None` for any other text.
pub open spec fn decimal_i32(s: Seq<char>) -> Option<int> {
    let negative = s.len() > 0 && s[0] == '-';
    let body = decimal_body(s);
    let value = if negative {
        -digits_value(body)
    } else {
        digits_value(body)
    };
    if body.len() > 0 && all_decimal_digits(body) && i32::MIN <= value <= i32::MAX {
        Some(value)
    } else {
        None
    }
}

/// Index of the first `c` in `s` at or after `from`, or `s.len()` where there is none.
pub open spec fn find_from(s: Seq<char>, c: char, from: int) -> int
    decreases s.len() - from,
{
    if from >= s.len() {
        s.len() as int
    } else if s[from] == c {
        from
    } else {
        find_from(s, c, from + 1)
    }
}

pub open spec fn clamp_int(v: int, lo: int, hi: int) -> int {
    if v < lo {
        lo
    } else if v > hi {
        hi
    } else {
        v
    }
}

/// Semitone offset named by a relative note `interval@octaves`, as in `m7@3`
/// (a minor seventh three octaves up) or `3t@-2`. The octave count ends at a
/// second `@`, if any, and is held to the range of an `i8`.
pub open spec fn interval_offset(s: Seq<char>) -> Option<int> {
    let at = find_from(s, '@', 0);
    let next = find_from(s, '@', at + 1);
    if at >= s.len() {
        None
    } else {
        match interval_named(s.subrange(0, at)) {
            None => None,
            Some(i) => match decimal_i32(s.subrange(at + 1, next)) {
                None => None,
                Some(octaves) => Some(12 * clamp_int(octaves, -128, 127) + semitones_of(i)),
            },
        }
    }
}

proof fn lemma_digits_value_nonneg(s: Seq<char>)
    requires
        all_decimal_digits(s),
    ensures
        digits_value(s) >= 0,
    decreases s.len(),
{
    if s.len() > 0 {
        lemma_digits_value_nonneg(s.drop_last());
    }
}

proof fn lemma_digits_value_grows(s: Seq<char>, k: int)
    requires
        all_decimal_digits(s),
        0 <= k <= s.len(),
    ensures
        digits_value(s.subrange(0, k)) <= digits_value(s),
    decreases s.len() - k,
{
    if k < s.len() {
        lemma_digits_value_grows(s, k + 1);
        let p = s.subrange(0, k + 1);
        assert(p.drop_last() =~= s.subrange(0, k));
        lemma_digits_value_nonneg(s.subrange(0, k));
    } else {
        assert(s.subrange(0, k) =~= s);
    }
}

proof fn lemma_find_from_bounds(s: Seq<char>, c: char, from: int)
    requires
        0 <= from,
    ensures
        from <= find_from(s, c, from) || from >= s.len(),
        find_from(s, c, from) <= s.len(),
        find_from(s, c, from) < s.len() ==> s[find_from(s, c, from)] == c,
        forall|j: int| from <= j < find_from(s, c, from) ==> s[j] != c,
    decreases s.len() - from,
{
    if from < s.len() && s[from] != c {
        lemma_find_from_bounds(s, c, from + 1);
    }
}

impl Interval {
    /// Number of semitones this interval spans.
    pub fn to_semitones(&self) -> (r: i8)
        ensures
            r as int == semitones_of(*self),
    {
        match self {
            Interval::Unison => 0,
            Interval::MinorSecond => 1,
            Interval::MajorSecond => 2,
            Interval::MinorThird => 3,
            Interval::MajorThird => 4,
            Interval::PerfectForth => 5,
            Interval::Tritone => 6,
            Interval::PerfectFifth => 7,
            Interval::MinorSixth => 8,
            Interval::MajorSixth => 9,
            Interval::MinorSeventh => 10,
            Interval::MajorSeventh => 11,
        }
    }

    /// The interval that `name` stands for, if any.
    pub fn from_name(name: &str) -> (r: Option<Interval>)
        ensures
            r == interval_named(name@),
    {
        let n = name.unicode_len();
        proof {
            assert(name@.subrange(0, n as int) =~= name@);
        }
        named_in(name, 0, n)
    }
}

fn chars_are(s: &str, from: usize, to: usize, a: char, b: char) -> (r: bool)
    requires
        from <= to <= s@.len(),
    ensures
        r == (s@.subrange(from as int, to as int) == seq![a, b]),
{
    if to - from != 2 {
        proof {
            assert(s@.subrange(from as int, to as int).len() != seq![a, b].len());
        }
        false
    } else {
        let c0 = s.get_char(from);
        let c1 = s.get_char(from + 1);
        let r = c0 == a && c1 == b;
        proof {
            if r {
                assert(s@.subrange(from as int, to as int) =~= seq![a, b]);
            } else {
                assert(s@.subrange(from as int, to as int)[0] == c0);
                assert(s@.subrange(from as int, to as int)[1] == c1);
                assert(seq![a, b][0] == a && seq![a, b][1] == b);
            }
        }
        r
    }
}

/// The interval named by the characters of `s` in `from..to`.
fn named_in(s: &str, from: usize, to: usize) -> (r: Option<Interval>)
    requires
        from <= to <= s@.len(),
    ensures
        r == interval_named(s@.subrange(from as int, to as int)),
{
    let ghost t = s@.subrange(from as int, to as int);
    if to - from == 4 {
        let c0 = s.get_char(from);
        let c1 = s.get_char(from + 1);
        let c2 = s.get_char(from + 2);
        let c3 = s.get_char(from + 3);
        proof {
            assert(t[0] == c0 && t[1] == c1 && t[2] == c2 && t[3] == c3);
            let r = seq!['r', 'o', 'o', 't'];
            assert(r[0] == 'r' && r[1] == 'o' && r[2] == 'o' && r[3] == 't');
            if c0 == 'r' && c1 == 'o' && c2 == 'o' && c3 == 't' {
                assert(t =~= r);
            }
        }
        if c0 == 'r' && c1 == 'o' && c2 == 'o' && c3 == 't' {
            return Some(Interval::Unison);
        }
        proof {
            assert(t.len() != 2);
        }
        return None;
    }
    if chars_are(s, from, to, 'm', '2') {
        Some(Interval::MinorSecond)
    } else if chars_are(s, from, to, 'M', '2') {
        Some(Interval::MajorSecond)
    } else if chars_are(s, from, to, 'm', '3') {
        Some(Interval::MinorThird)
    } else if chars_are(s, from, to, 'M', '3') {
        Some(Interval::MajorThird)
    } else if chars_are(s, from, to, 'p', '4') {
        Some(Interval::PerfectForth)
    } else if chars_are(s, from, to, '3', 't') {
        Some(Interval::Tritone)
    } else if chars_are(s, from, to, 'p', '5') {
        Some(Interval::PerfectFifth)
    } else if chars_are(s, from, to, 'm', '6') {
        Some(Interval::MinorSixth)
    } else if chars_are(s, from, to, 'M', '6') {
        Some(Interval::MajorSixth)
    } else if chars_are(s, from, to, 'm', '7') {
        Some(Interval::MinorSeventh)
    } else if chars_are(s, from, to, 'M', '7') {
        Some(Interval::MajorSeventh)
    } else {
        proof {
            assert(t.len() != 4);
        }
        None
    }
}

/// Index of the first `c` in `s` at or after `from`, or the length of `s`.
fn find_char(s: &str, c: char, from: usize) -> (r: usize)
    requires
        from <= s@.len(),
    ensures
        r as int == find_from(s@, c, from as int),
{
    let n = s.unicode_len();
    let mut i = from;
    while i < n
        invariant
            from <= i <= n,
            n == s@.len(),
            find_from(s@, c, from as int) == find_from(s@, c, i as int),
        decreases n - i,
    {
        if s.get_char(i) == c {
            return i;
        }
        i = i + 1;
    }
    i
}

/// Value of the signed decimal literal that the characters of `s` in
/// `from..to` spell, where it fits in an `i32`.
pub fn parse_i32_in(s: &str, from: usize, to: usize) -> (r: Option<i32>)
    requires
        from <= to <= s@.len(),
    ensures
        r matches Some(v) ==> decimal_i32(s@.subrange(from as int, to as int)) == Some(v as int),
        r is None ==> decimal_i32(s@.subrange(from as int, to as int)) is None,
{
    let ghost t = s@.subrange(from as int, to as int);
    let mut start = from;
    let mut negative = false;
    if from < to {
        let c = s.get_char(from);
        if c == '-' {
            negative = true;
            start = from + 1;
        } else if c == '+' {
            start = from + 1;
        }
    }
    let ghost body = s@.subrange(start as int, to as int);
    proof {
        assert(negative == (t.len() > 0 && t[0] == '-'));
        if t.len() > 0 && (t[0] == '-' || t[0] == '+') {
            assert(body =~= t.drop_first());
        } else {
            assert(body =~= t);
        }
    }
    if start == to {
        return None;
    }
    let limit: i64 = 2147483648;
    let mut acc: i64 = 0;
    let mut i = start;
    while i < to
        invariant
            start <= i <= to <= s@.len(),
            body == s@.subrange(start as int, to as int),
            body == decimal_body(t),
            t == s@.subrange(from as int, to as int),
            negative == (t.len() > 0 && t[0] == '-'),
            0 <= acc <= limit,
            limit == 2147483648,
            all_decimal_digits(s@.subrange(start as int, i as int)),
            acc as int == digits_value(s@.subrange(start as int, i as int)),
        decreases to - i,
    {
        let c = s.get_char(i);
        if c < '0' || c > '9' {
            proof {
                assert(body[i - start] == c);
                assert(!is_decimal_digit(body[i - start]));
            }
            return None;
        }
        let d = (c as u32 - '0' as u32) as i64;
        let ghost pre = s@.subrange(start as int, i as int);
        let ghost post = s@.subrange(start as int, i + 1);
        proof {
            assert(post.drop_last() =~= pre);
            assert(post.last() == c);
            assert(all_decimal_digits(post));
        }
        if acc > (limit - d) / 10 {
            proof {
                assert(acc * 10 + d > limit) by (nonlinear_arith)
                    requires acc > (limit - d) / 10, 0 <= d <= 9, limit == 2147483648;
                if all_decimal_digits(body) {
                    assert(body.subrange(0, i + 1 - start) =~= post);
                    lemma_digits_value_grows(body, i + 1 - start);
                    assert(digits_value(post) == acc * 10 + d);
                }
            }
            return None;
        }
        acc = acc * 10 + d;
        i = i + 1;
    }
    proof {
        assert(s@.subrange(start as int, i as int) =~= body);
    }
    if negative {
        Some((-acc) as i32)
    } else if acc == limit {
        None
    } else {
        Some(acc as i32)
    }
}

/// Semitone offset named by a relative note such as `m7@3` or `3t@-2`:
/// twelve per octave (held to the range of an `i8`) plus the interval's own.
pub fn parse_interval(relative_note: &str) -> (r: Option<i32>)
    ensures
        r matches Some(v) ==> interval_offset(relative_note@) == Some(v as int),
        r is None ==> interval_offset(relative_note@) is None,
{
    let s = relative_note;
    let n = s.unicode_len();
    let at = find_char(s, '@', 0);
    proof {
        lemma_find_from_bounds(s@, '@', 0);
    }
    if at >= n {
        return None;
    }
    let next = find_char(s, '@', at + 1);
    proof {
        lemma_find_from_bounds(s@, '@', at + 1);
    }
    let interval = match named_in(s, 0, at) {
        Some(i) => i,
        None => return None,
    };
    let octaves = match parse_i32_in(s, at + 1, next) {
        Some(o) => o,
        None => return None,
    };
    let clamped: i32 = if octaves < -128 {
        -128
    } else if octaves > 127 {
        127
    } else {
        octaves
    };
    Some(12 * clamped + interval.to_semitones() as i32)
}

} // verus!

//! Reading numbers and names out of short pieces of text.

use vstd::prelude::*;

verus! {

/// Whether `c` is white space in Unicode's sense.
pub open spec fn is_space(c: char) -> bool {
    let code = c as u32;
    ||| 0x09 <= code <= 0x0d
    ||| code == 0x20
    ||| code == 0x85
    ||| code == 0xa0
    ||| code == 0x1680
    ||| 0x2000 <= code <= 0x200a
    ||| code == 0x2028
    ||| code == 0x2029
    ||| code == 0x202f
    ||| code == 0x205f
    ||| code == 0x3000
}

/// `s` without the white space at its head.
pub open spec fn trim_start(s: Seq<char>) -> Seq<char>
    decreases s.len(),
{
    if s.len() > 0 && is_space(s.first()) {
        trim_start(s.drop_first())
    } else {
        s
    }
}

/// `s` without the white space at its end.
pub open spec fn trim_end(s: Seq<char>) -> Seq<char>
    decreases s.len(),
{
    if s.len() > 0 && is_space(s.last()) {
        trim_end(s.drop_last())
    } else {
        s
    }
}

/// `s` without the white space at either end.
pub open spec fn trimmed(s: Seq<char>) -> Seq<char> {
    trim_end(trim_start(s))
}

/// Whether `c` is one of the ten decimal digits.
pub open spec fn is_digit(c: char) -> bool {
    '0' <= c <= '9'
}

/// Whether `s` holds decimal digits and nothing else.
pub open spec fn all_digits(s: Seq<char>) -> bool {
    forall|i: int| 0 <= i < s.len() ==> is_digit(#[trigger] s[i])
}

/// The number that the digits of `s` write in base ten.
pub open spec fn digits_value(s: Seq<char>) -> int
    decreases s.len(),
{
    if s.len() == 0 {
        0
    } else {
        10 * digits_value(s.drop_last()) + (s.last() as u32 - '0' as u32)
    }
}

/// The number that `s` writes: an optional `+`, then one decimal digit or
/// more. `None` where `s` is not of that form.
pub open spec fn unsigned(s: Seq<char>) -> Option<int> {
    let digits = if s.len() > 0 && s[0] == '+' {
        s.drop_first()
    } else {
        s
    };
    if digits.len() > 0 && all_digits(digits) {
        Some(digits_value(digits))
    } else {
        None
    }
}

/// The number that `s` writes: an optional `+` or `-`, then one decimal digit
/// or more. `None` where `s` is not of that form.
pub open spec fn signed(s: Seq<char>) -> Option<int> {
    if s.len() > 0 && s[0] == '-' {
        if s.len() > 1 && all_digits(s.drop_first()) {
            Some(-digits_value(s.drop_first()))
        } else {
            None
        }
    } else {
        unsigned(s)
    }
}

/// Whether `s` begins with `prefix`.
pub open spec fn starts_with(s: Seq<char>, prefix: Seq<char>) -> bool {
    prefix.len() <= s.len() && s.take(prefix.len() as int) == prefix
}

/// `s` without the copies of `prefix` at its head, however many there are.
pub open spec fn without_prefix(s: Seq<char>, prefix: Seq<char>) -> Seq<char>
    decreases s.len(),
{
    if prefix.len() > 0 && starts_with(s, prefix) {
        without_prefix(s.skip(prefix.len() as int), prefix)
    } else {
        s
    }
}

/// Whether `s` ends with `suffix`.
pub open spec fn ends_with(s: Seq<char>, suffix: Seq<char>) -> bool {
    suffix.len() <= s.len() && s.skip(s.len() - suffix.len()) == suffix
}

/// `s` without the copies of `suffix` at its end, however many there are.
pub open spec fn without_suffix(s: Seq<char>, suffix: Seq<char>) -> Seq<char>
    decreases s.len(),
{
    if suffix.len() > 0 && ends_with(s, suffix) {
        without_suffix(s.take(s.len() - suffix.len()), suffix)
    } else {
        s
    }
}

/// The characters of `s`.
pub fn chars(s: &str) -> (r: Vec<char>)
    ensures
        r@ == s@,
{
    let n = s.unicode_len();
    let mut r: Vec<char> = Vec::new();
    let mut i: usize = 0;
    while i < n
        invariant
            n == s@.len(),
            i <= n,
            r@ == s@.take(i as int),
        decreases n - i,
    {
        r.push(s.get_char(i));
        i += 1;
    }
    r
}

fn space(c: char) -> (r: bool)
    ensures
        r == is_space(c),
{
    let code: u32 = c as u32;
    (0x09 <= code && code <= 0x0d) || code == 0x20 || code == 0x85 || code == 0xa0 || code
        == 0x1680 || (0x2000 <= code && code <= 0x200a) || code == 0x2028 || code == 0x2029
        || code == 0x202f || code == 0x205f || code == 0x3000
}

/// The number that `s` writes, where it fits a `usize`.
pub open spec fn usize_of(s: Seq<char>) -> Option<usize> {
    match unsigned(s) {
        Some(v) if v <= usize::MAX => Some(v as usize),
        _ => None,
    }
}

/// The number that `s` writes, where it fits an `i32`.
pub open spec fn i32_of(s: Seq<char>) -> Option<i32> {
    match signed(s) {
        Some(v) if i32::MIN <= v <= i32::MAX => Some(v as i32),
        _ => None,
    }
}

proof fn lemma_digits_grow(s: Seq<char>, k: int)
    requires
        all_digits(s),
        0 <= k <= s.len(),
    ensures
        0 <= digits_value(s.take(k)) <= digits_value(s),
    decreases s.len(),
{
    if s.len() == 0 {
        assert(s.take(k) == s);
    } else if k == s.len() {
        assert(s.take(k) == s);
        lemma_digits_grow(s.drop_last(), k - 1);
    } else {
        lemma_digits_grow(s.drop_last(), k);
        assert(s.drop_last().take(k) == s.take(k));
    }
}

/// The bounds of what is left of `s` once the white space at either end is
/// taken away.
fn trim_bounds(s: &Vec<char>) -> (r: (usize, usize))
    ensures
        r.0 <= r.1 <= s.len(),
        s@.subrange(r.0 as int, r.1 as int) == trimmed(s@),
{
    let n = s.len();
    let mut from: usize = 0;
    assert(s@.skip(0) == s@);
    while from < n && space(s[from])
        invariant
            n == s.len(),
            from <= n,
            trim_start(s@) == trim_start(s@.skip(from as int)),
        decreases n - from,
    {
        assert(s@.skip(from as int).drop_first() == s@.skip(from + 1));
        from += 1;
    }
    assert(trim_start(s@) == s@.skip(from as int));
    let mut to: usize = n;
    assert(s@.skip(from as int) == s@.subrange(from as int, to as int));
    while to > from && space(s[to - 1])
        invariant
            from <= to <= n,
            n == s.len(),
            trimmed(s@) == trim_end(s@.subrange(from as int, to as int)),
        decreases to - from,
    {
        assert(s@.subrange(from as int, to as int).drop_last() == s@.subrange(
            from as int,
            to - 1,
        ));
        to -= 1;
    }
    (from, to)
}

/// Whether `prefix` stands in `s` at `at`.
fn begins_at(s: &Vec<char>, at: usize, prefix: &Vec<char>) -> (r: bool)
    requires
        at <= s.len(),
    ensures
        r == starts_with(s@.skip(at as int), prefix@),
{
    if prefix.len() > s.len() - at {
        return false;
    }
    let mut i: usize = 0;
    while i < prefix.len()
        invariant
            at + prefix.len() <= s.len(),
            i <= prefix.len(),
            forall|j: int| 0 <= j < i ==> s@[at + j] == prefix@[j],
        decreases prefix.len() - i,
    {
        if s[at + i] != prefix[i] {
            assert(s@.skip(at as int).take(prefix.len() as int)[i as int] != prefix@[i as int]);
            return false;
        }
        i += 1;
    }
    assert(s@.skip(at as int).take(prefix.len() as int) == prefix@);
    true
}

/// Where `s` begins once the copies of `prefix` at its head are taken away.
fn skip_prefix(s: &Vec<char>, prefix: &Vec<char>) -> (at: usize)
    ensures
        at <= s.len(),
        s@.skip(at as int) == without_prefix(s@, prefix@),
{
    let mut at: usize = 0;
    assert(s@.skip(0) == s@);
    if prefix.len() == 0 {
        return at;
    }
    while begins_at(s, at, prefix)
        invariant
            at <= s.len(),
            prefix.len() > 0,
            without_prefix(s@, prefix@) == without_prefix(s@.skip(at as int), prefix@),
        decreases s.len() - at,
    {
        assert(s@.skip(at as int).skip(prefix.len() as int) == s@.skip(at + prefix.len()));
        at += prefix.len();
    }
    at
}

/// The number that the digits of `s` between `from` and `to` write, where
/// there is a digit, nothing but digits, and a number of at most `limit`.
fn digits_upto(s: &Vec<char>, from: usize, to: usize, limit: u64) -> (r: Option<u64>)
    requires
        from <= to <= s.len(),
    ensures
        ({
            let part = s@.subrange(from as int, to as int);
            match r {
                Some(v) => part.len() > 0 && all_digits(part) && v == digits_value(part) && v
                    <= limit,
                None => part.len() == 0 || !all_digits(part) || digits_value(part) > limit,
            }
        }),
{
    if from == to {
        return None;
    }
    let ghost part = s@.subrange(from as int, to as int);
    let mut value: u64 = 0;
    let mut i: usize = from;
    assert(part.take(0) == Seq::<char>::empty());
    while i < to
        invariant
            from <= i <= to <= s.len(),
            part == s@.subrange(from as int, to as int),
            all_digits(part.take(i - from)),
            value == digits_value(part.take(i - from)),
            value <= limit,
        decreases to - i,
    {
        let c = s[i];
        assert(c == part[i - from]);
        if c < '0' || c > '9' {
            return None;
        }
        let digit: u64 = (c as u32 - '0' as u32) as u64;
        proof {
            assert(part.take(i - from + 1).drop_last() == part.take(i - from));
            assert(part.take(i - from + 1).last() == c);
            assert(all_digits(part.take(i - from + 1))) by {
                assert forall|j: int| 0 <= j < i - from + 1 implies is_digit(
                    #[trigger] part.take(i - from + 1)[j],
                ) by {
                    if j < i - from {
                        assert(part.take(i - from + 1)[j] == part.take(i - from)[j]);
                    }
                }
            }
        }
        if digit > limit || value > (limit - digit) / 10 {
            proof {
                if all_digits(part) {
                    lemma_digits_grow(part, i - from + 1);
                }
            }
            return None;
        }
        value = value * 10 + digit;
        i += 1;
    }
    assert(part.take(to - from) == part);
    Some(value)
}

/// Reads the number that the characters from `from` to `to` write.
fn usize_in(s: &Vec<char>, from: usize, to: usize) -> (r: Option<usize>)
    requires
        from <= to <= s.len(),
    ensures
        r == usize_of(s@.subrange(from as int, to as int)),
{
    let ghost part = s@.subrange(from as int, to as int);
    let start = if from < to && s[from] == '+' {
        from + 1
    } else {
        from
    };
    assert(s@.subrange(start as int, to as int) == if part.len() > 0 && part[0] == '+' {
        part.drop_first()
    } else {
        part
    });
    match digits_upto(s, start, to, usize::MAX as u64) {
        Some(v) => Some(v as usize),
        None => None,
    }
}

/// Reads the number that the characters from `from` to `to` write.
fn i32_in(s: &Vec<char>, from: usize, to: usize) -> (r: Option<i32>)
    requires
        from <= to <= s.len(),
    ensures
        r == i32_of(s@.subrange(from as int, to as int)),
{
    let ghost part = s@.subrange(from as int, to as int);
    if from < to && s[from] == '-' {
        assert(s@.subrange(from + 1, to as int) == part.drop_first());
        match digits_upto(s, from + 1, to, i32::MAX as u64 + 1) {
            Some(v) => Some((-(v as i64)) as i32),
            None => None,
        }
    } else {
        let start = if from < to && s[from] == '+' {
            from + 1
        } else {
            from
        };
        assert(s@.subrange(start as int, to as int) == if part.len() > 0 && part[0] == '+' {
            part.drop_first()
        } else {
            part
        });
        match digits_upto(s, start, to, i32::MAX as u64) {
            Some(v) => Some(v as i32),
            None => None,
        }
    }
}

/// Whether `suffix` stands in `s` right before `end`.
fn ends_at(s: &Vec<char>, end: usize, suffix: &Vec<char>) -> (r: bool)
    requires
        end <= s.len(),
    ensures
        r == ends_with(s@.take(end as int), suffix@),
{
    if suffix.len() > end {
        return false;
    }
    let from = end - suffix.len();
    let mut i: usize = 0;
    while i < suffix.len()
        invariant
            from + suffix.len() == end <= s.len(),
            i <= suffix.len(),
            forall|j: int| 0 <= j < i ==> s@[from + j] == suffix@[j],
        decreases suffix.len() - i,
    {
        if s[from + i] != suffix[i] {
            assert(s@.take(end as int).skip(from as int)[i as int] != suffix@[i as int]);
            return false;
        }
        i += 1;
    }
    assert(s@.take(end as int).skip(from as int) == suffix@);
    true
}

/// Where `s`, cut off at `end`, ends once the copies of `suffix` at its end
/// are taken away.
fn skip_suffix(s: &Vec<char>, end: usize, suffix: &Vec<char>) -> (r: usize)
    requires
        end <= s.len(),
    ensures
        r <= end,
        s@.take(r as int) == without_suffix(s@.take(end as int), suffix@),
{
    let mut to: usize = end;
    if suffix.len() == 0 {
        return to;
    }
    while ends_at(s, to, suffix)
        invariant
            to <= end <= s.len(),
            suffix.len() > 0,
            without_suffix(s@.take(end as int), suffix@) == without_suffix(
                s@.take(to as int),
                suffix@,
            ),
        decreases to,
    {
        assert(s@.take(to as int).take(to - suffix.len()) == s@.take(to - suffix.len()));
        to -= suffix.len();
    }
    to
}

/// Reads the number that `s` writes.
pub fn parse_usize(s: &str) -> (r: Option<usize>)
    ensures
        r == usize_of(s@),
{
    let text = chars(s);
    assert(text@.subrange(0, text.len() as int) == text@);
    usize_in(&text, 0, text.len())
}

/// Reads the number that `s` writes.
pub fn parse_i32(s: &str) -> (r: Option<i32>)
    ensures
        r == i32_of(s@),
{
    let text = chars(s);
    assert(text@.subrange(0, text.len() as int) == text@);
    i32_in(&text, 0, text.len())
}

/// Takes the white space at either end of `s` away.
pub fn trim(s: &str) -> (r: &str)
    ensures
        r@ == trimmed(s@),
{
    let text = chars(s);
    let (from, to) = trim_bounds(&text);
    s.substring_char(from, to)
}

/// Whether `s` begins with `prefix`.
pub fn has_prefix(s: &str, prefix: &str) -> (r: bool)
    ensures
        r == starts_with(s@, prefix@),
{
    let text = chars(s);
    assert(text@.skip(0) == text@);
    begins_at(&text, 0, &chars(prefix))
}

/// Takes the copies of `prefix` at the head of `s` away.
pub fn trim_start_matches<'a>(s: &'a str, prefix: &str) -> (r: &'a str)
    ensures
        r@ == without_prefix(s@, prefix@),
{
    let text = chars(s);
    let from = skip_prefix(&text, &chars(prefix));
    assert(text@.subrange(from as int, text.len() as int) == text@.skip(from as int));
    s.substring_char(from, text.len())
}

/// Takes the copies of `suffix` at the end of `s` away.
pub fn trim_end_matches<'a>(s: &'a str, suffix: &str) -> (r: &'a str)
    ensures
        r@ == without_suffix(s@, suffix@),
{
    let text = chars(s);
    assert(text@.take(text.len() as int) == text@);
    let to = skip_suffix(&text, text.len(), &chars(suffix));
    assert(text@.subrange(0, to as int) == text@.take(to as int));
    s.substring_char(0, to)
}

} // verus!

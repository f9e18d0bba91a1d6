//! Character-level text helpers shared by the parsers and the describers.
//!
//! Everything here works on the `Seq<char>` view of a `String` or `&str`, so
//! that the callers' contracts can say exactly which characters come out.

use vstd::prelude::*;

verus! {

/// std's `String::push`: appends one character.
#[verifier::external_body]
pub(crate) fn push_char(s: &mut String, c: char)
    ensures
        final(s)@ == old(s)@.push(c),
{
    s.push(c);
}

/// The characters of a string, in order.
pub fn chars_of(s: &str) -> (v: Vec<char>)
    ensures
        v@ == s@,
{
    let n = s.unicode_len();
    let mut v: Vec<char> = Vec::new();
    let mut i: usize = 0;
    while i < n
        invariant
            n == s@.len(),
            i <= n,
            v@ == s@.subrange(0, i as int),
        decreases n - i,
    {
        v.push(s.get_char(i));
        i = i + 1;
        assert(v@ =~= s@.subrange(0, i as int));
    }
    assert(v@ =~= s@);
    v
}

/// A string made of the characters `v[from..to]`.
pub fn string_of_range(v: &[char], from: usize, to: usize) -> (s: String)
    requires
        from <= to <= v@.len(),
    ensures
        s@ == v@.subrange(from as int, to as int),
{
    let mut s = String::new();
    let mut i = from;
    while i < to
        invariant
            from <= i <= to,
            to <= v@.len(),
            s@ == v@.subrange(from as int, i as int),
        decreases to - i,
    {
        push_char(&mut s, v[i]);
        i = i + 1;
        assert(s@ =~= v@.subrange(from as int, i as int));
    }
    s
}

/// A string made of all the characters of `v`.
pub fn string_of(v: &[char]) -> (s: String)
    ensures
        s@ == v@,
{
    let s = string_of_range(v, 0, v.len());
    assert(v@.subrange(0, v@.len() as int) =~= v@);
    s
}

/// Appends the characters of a `&str`.
pub fn append_str(s: &mut String, tail: &str)
    ensures
        final(s)@ == old(s)@ + tail@,
{
    s.append(tail);
}

/// A fresh `String` with the characters of a `&str`.
pub fn owned(s: &str) -> (r: String)
    ensures
        r@ == s@,
{
    s.to_owned()
}

/// The character of a decimal digit.
pub open spec fn digit_char(d: nat) -> char
    recommends
        d < 10,
{
    if d == 0 {
        '0'
    } else if d == 1 {
        '1'
    } else if d == 2 {
        '2'
    } else if d == 3 {
        '3'
    } else if d == 4 {
        '4'
    } else if d == 5 {
        '5'
    } else if d == 6 {
        '6'
    } else if d == 7 {
        '7'
    } else if d == 8 {
        '8'
    } else {
        '9'
    }
}

/// The character of a lower-case hexadecimal digit.
pub open spec fn hex_char(d: nat) -> char
    recommends
        d < 16,
{
    if d < 10 {
        digit_char(d)
    } else if d == 10 {
        'a'
    } else if d == 11 {
        'b'
    } else if d == 12 {
        'c'
    } else if d == 13 {
        'd'
    } else if d == 14 {
        'e'
    } else {
        'f'
    }
}

/// `n` written in base 10, most significant digit first, with no leading
/// zeros (zero is `"0"`).
pub open spec fn decimal(n: nat) -> Seq<char>
    decreases n,
{
    if n < 10 {
        seq![digit_char(n)]
    } else {
        decimal(n / 10).push(digit_char(n % 10))
    }
}

/// `n` written in base 16 with lower-case digits and no leading zeros.
pub open spec fn hexadecimal(n: nat) -> Seq<char>
    decreases n,
{
    if n < 16 {
        seq![hex_char(n)]
    } else {
        hexadecimal(n / 16).push(hex_char(n % 16))
    }
}

fn digit_of(d: u64) -> (c: char)
    requires
        d < 16,
    ensures
        c == hex_char(d as nat),
{
    if d == 0 {
        '0'
    } else if d == 1 {
        '1'
    } else if d == 2 {
        '2'
    } else if d == 3 {
        '3'
    } else if d == 4 {
        '4'
    } else if d == 5 {
        '5'
    } else if d == 6 {
        '6'
    } else if d == 7 {
        '7'
    } else if d == 8 {
        '8'
    } else if d == 9 {
        '9'
    } else if d == 10 {
        'a'
    } else if d == 11 {
        'b'
    } else if d == 12 {
        'c'
    } else if d == 13 {
        'd'
    } else if d == 14 {
        'e'
    } else {
        'f'
    }
}

/// The digits of `n` in base 10 (`base == 10`) or 16 (`base == 16`).
fn digits_in_base(n: u64, base: u64) -> (v: Vec<char>)
    requires
        base == 10 || base == 16,
    ensures
        base == 10 ==> v@ == decimal(n as nat),
        base == 16 ==> v@ == hexadecimal(n as nat),
{
    let mut rem = n;
    let mut acc: Vec<char> = Vec::new();
    while rem >= base
        invariant
            base == 10 || base == 16,
            base == 10 ==> decimal(n as nat) == decimal(rem as nat) + acc@,
            base == 16 ==> hexadecimal(n as nat) == hexadecimal(rem as nat) + acc@,
        decreases rem,
    {
        let d = rem % base;
        let c = digit_of(d);
        let ghost old_acc = acc@;
        acc.insert(0, c);
        proof {
            if base == 10 {
                assert(decimal(rem as nat) == decimal((rem / base) as nat).push(digit_char(
                    (rem % base) as nat,
                )));
                assert(decimal(rem as nat) + old_acc =~= decimal((rem / base) as nat) + acc@);
            } else {
                assert(hexadecimal(rem as nat) == hexadecimal((rem / base) as nat).push(
                    hex_char((rem % base) as nat),
                ));
                assert(hexadecimal(rem as nat) + old_acc =~= hexadecimal((rem / base) as nat)
                    + acc@);
            }
        }
        rem = rem / base;
    }
    let c = digit_of(rem);
    let ghost old_acc = acc@;
    acc.insert(0, c);
    proof {
        if base == 10 {
            assert(decimal(rem as nat) + old_acc =~= acc@);
        } else {
            assert(hexadecimal(rem as nat) + old_acc =~= acc@);
        }
    }
    acc
}

/// Appends `n` written in base 10.
pub fn push_decimal(s: &mut String, n: u64)
    ensures
        final(s)@ == old(s)@ + decimal(n as nat),
{
    let digits = digits_in_base(n, 10);
    let ghost start = s@;
    let mut i: usize = 0;
    while i < digits.len()
        invariant
            s@ == start + digits@.subrange(0, i as int),
            i <= digits@.len(),
            digits@ == decimal(n as nat),
        decreases digits@.len() - i,
    {
        push_char(s, digits[i]);
        i = i + 1;
        assert(s@ =~= start + digits@.subrange(0, i as int));
    }
    assert(digits@.subrange(0, digits@.len() as int) =~= digits@);
}

/// Appends `n` written in base 16 with lower-case digits.
pub fn push_hexadecimal(s: &mut String, n: u64)
    ensures
        final(s)@ == old(s)@ + hexadecimal(n as nat),
{
    let digits = digits_in_base(n, 16);
    let ghost start = s@;
    let mut i: usize = 0;
    while i < digits.len()
        invariant
            s@ == start + digits@.subrange(0, i as int),
            i <= digits@.len(),
            digits@ == hexadecimal(n as nat),
        decreases digits@.len() - i,
    {
        push_char(s, digits[i]);
        i = i + 1;
        assert(s@ =~= start + digits@.subrange(0, i as int));
    }
    assert(digits@.subrange(0, digits@.len() as int) =~= digits@);
}

/// Whether `c` is an ASCII decimal digit.
pub open spec fn is_digit(c: char) -> bool {
    '0' <= c && c <= '9'
}

/// The numeric value of a run of decimal digits.
pub open spec fn digits_value(s: Seq<char>) -> int
    decreases s.len(),
{
    if s.len() == 0 {
        0
    } else {
        digits_value(s.drop_last()) * 10 + (s.last() as int - '0' as int)
    }
}

/// Every character of `s` is a decimal digit, and there is at least one.
pub open spec fn all_digits(s: Seq<char>) -> bool {
    s.len() > 0 && forall|i: int| 0 <= i < s.len() ==> is_digit(#[trigger] s[i])
}

/// std's `str::parse::<i32>`: an optional `+` or `-`, then one or more decimal
/// digits, whose value must fit an `i32`.
pub open spec fn parse_i32(s: Seq<char>) -> Option<i32> {
    let negative = s.len() > 0 && s[0] == '-';
    let signed = s.len() > 0 && (s[0] == '-' || s[0] == '+');
    let body = if signed {
        s.drop_first()
    } else {
        s
    };
    let value = if negative {
        -digits_value(body)
    } else {
        digits_value(body)
    };
    if all_digits(body) && i32::MIN <= value <= i32::MAX {
        Some(value as i32)
    } else {
        None
    }
}

proof fn lemma_digits_value_nonneg(s: Seq<char>)
    requires
        forall|i: int| 0 <= i < s.len() ==> is_digit(#[trigger] s[i]),
    ensures
        digits_value(s) >= 0,
    decreases s.len(),
{
    if s.len() > 0 {
        assert(is_digit(s[s.len() - 1]));
        lemma_digits_value_nonneg(s.drop_last());
    }
}

proof fn lemma_digits_value_grows(s: Seq<char>, k: int)
    requires
        0 <= k <= s.len(),
        forall|i: int| 0 <= i < s.len() ==> is_digit(#[trigger] s[i]),
    ensures
        digits_value(s.subrange(0, k)) <= digits_value(s),
    decreases s.len() - k,
{
    if k < s.len() {
        lemma_digits_value_grows(s, k + 1);
        let t = s.subrange(0, k + 1);
        assert(t.drop_last() =~= s.subrange(0, k));
        assert(is_digit(t.last()));
        lemma_digits_value_nonneg(s.subrange(0, k));
    } else {
        assert(s.subrange(0, k) =~= s);
    }
}

/// The i32 written in `v[from..to]`, as std's `str::parse::<i32>` reads it.
pub fn parse_i32_range(v: &[char], from: usize, to: usize) -> (r: Option<i32>)
    requires
        from <= to <= v@.len(),
    ensures
        r == parse_i32(v@.subrange(from as int, to as int)),
{
    let ghost s = v@.subrange(from as int, to as int);
    if from == to {
        return None;
    }
    assert(s.len() > 0 && s[0] == v@[from as int]);
    let negative = v[from] == '-';
    let signed = v[from] == '-' || v[from] == '+';
    let start = if signed {
        from + 1
    } else {
        from
    };
    let ghost body = if signed {
        s.drop_first()
    } else {
        s
    };
    assert(body =~= v@.subrange(start as int, to as int));
    if start == to {
        return None;
    }
    let mut value: i64 = 0;
    let mut i = start;
    while i < to
        invariant
            start <= i <= to,
            to <= v@.len(),
            start < to,
            from <= start <= from + 1,
            s == v@.subrange(from as int, to as int),
            s.len() > 0,
            s[0] == v@[from as int],
            negative == (v@[from as int] == '-'),
            signed == (v@[from as int] == '-' || v@[from as int] == '+'),
            signed ==> start == from + 1,
            !signed ==> start == from,
            body == (if signed {
                s.drop_first()
            } else {
                s
            }),
            body =~= v@.subrange(start as int, to as int),
            forall|j: int| start <= j < i ==> is_digit(#[trigger] v@[j]),
            value == digits_value(v@.subrange(start as int, i as int)),
            0 <= value <= 2147483648,
        decreases to - i,
    {
        let c = v[i];
        if !('0' <= c && c <= '9') {
            proof {
                assert(!is_digit(body[i - start]));
                assert(!all_digits(body));
            }
            return None;
        }
        let d = (c as u32 - '0' as u32) as i64;
        let next = value * 10 + d;
        proof {
            let t = v@.subrange(start as int, i + 1);
            assert(t.drop_last() =~= v@.subrange(start as int, i as int));
        }
        proof {
            let t = v@.subrange(start as int, i + 1);
            assert(t.last() == c);
            assert(digits_value(t) == next);
        }
        if next > 2147483648 {
            proof {
                let t = v@.subrange(start as int, i + 1);
                assert(t =~= body.subrange(0, i + 1 - start));
                assert(forall|j: int| 0 <= j < t.len() ==> is_digit(#[trigger] t[j]));
                if all_digits(body) {
                    lemma_digits_value_grows(body, i + 1 - start);
                    assert(digits_value(body) > 2147483648);
                }
            }
            return None;
        }
        value = next;
        i = i + 1;
    }
    proof {
        assert(v@.subrange(start as int, i as int) =~= body);
        assert(all_digits(body));
    }
    if negative {
        Some((0 - value) as i32)
    } else if value <= 2147483647 {
        Some(value as i32)
    } else {
        None
    }
}

/// Whether `v[at..]` begins with the characters of `pat`.
pub open spec fn starts_at(v: Seq<char>, at: int, pat: Seq<char>) -> bool {
    0 <= at && at + pat.len() <= v.len() && v.subrange(at, at + pat.len()) == pat
}

/// Whether `v[at..]` begins with the characters of `pat`.
pub fn matches_at(v: &[char], at: usize, pat: &[char]) -> (r: bool)
    ensures
        r == starts_at(v@, at as int, pat@),
{
    if at > v.len() || pat.len() > v.len() - at {
        return false;
    }
    let vl = v.len();
    let mut j: usize = 0;
    while j < pat.len()
        invariant
            vl == v@.len(),
            at + pat@.len() <= v@.len(),
            at <= v@.len(),
            j <= pat@.len(),
            forall|k: int| 0 <= k < j ==> v@[at + k] == pat@[k],
        decreases pat@.len() - j,
    {
        assert(at + j < v@.len());
        if v[at + j] != pat[j] {
            proof {
                assert(v@.subrange(at as int, at + pat@.len())[j as int] != pat@[j as int]);
            }
            return false;
        }
        j = j + 1;
    }
    assert(v@.subrange(at as int, at + pat@.len()) =~= pat@);
    true
}

/// Whether two character sequences are the same.
pub fn same_chars(a: &[char], b: &[char]) -> (r: bool)
    ensures
        r == (a@ == b@),
{
    if a.len() != b.len() {
        return false;
    }
    let r = matches_at(a, 0, b);
    proof {
        assert(a@.subrange(0, b@.len() as int) =~= a@);
    }
    r
}

/// Whether two strings hold the same characters.
pub fn same_text(a: &str, b: &str) -> (r: bool)
    ensures
        r == (a@ == b@),
{
    let x = chars_of(a);
    let y = chars_of(b);
    same_chars(x.as_slice(), y.as_slice())
}

/// Whether `pat` occurs anywhere in `v`, as std's `str::contains` asks.
pub open spec fn contains_seq(v: Seq<char>, pat: Seq<char>) -> bool {
    exists|i: int| 0 <= i <= v.len() - pat.len() && #[trigger] starts_at(v, i, pat)
}

/// Whether `pat` occurs anywhere in `v`.
pub fn contains_chars(v: &[char], pat: &[char]) -> (r: bool)
    ensures
        r == contains_seq(v@, pat@),
{
    if pat.len() > v.len() {
        return false;
    }
    let last = v.len() - pat.len();
    let mut i: usize = 0;
    loop
        invariant
            last == v@.len() - pat@.len(),
            i <= last,
            forall|k: int| 0 <= k < i ==> !starts_at(v@, k, pat@),
        decreases last - i,
    {
        if matches_at(v, i, pat) {
            return true;
        }
        if i == last {
            assert forall|k: int| 0 <= k <= v@.len() - pat@.len() implies !#[trigger] starts_at(
                v@,
                k,
                pat@,
            ) by {}
            return false;
        }
        i = i + 1;
    }
}

/// The first position of `c` in `v[from..to]`, if any.
pub fn find_char(v: &[char], from: usize, to: usize, c: char) -> (r: Option<usize>)
    requires
        from <= to <= v@.len(),
    ensures
        match r {
            Some(i) => from <= i < to && v@[i as int] == c && forall|j: int|
                from <= j < i ==> v@[j] != c,
            None => forall|j: int| from <= j < to ==> v@[j] != c,
        },
{
    let mut i = from;
    while i < to
        invariant
            from <= i <= to,
            to <= v@.len(),
            forall|j: int| from <= j < i ==> v@[j] != c,
        decreases to - i,
    {
        if v[i] == c {
            return Some(i);
        }
        i = i + 1;
    }
    None
}

/// The last position of `c` in `v[from..to]`, if any.
pub fn rfind_char(v: &[char], from: usize, to: usize, c: char) -> (r: Option<usize>)
    requires
        from <= to <= v@.len(),
    ensures
        match r {
            Some(i) => from <= i < to && v@[i as int] == c && forall|j: int|
                i < j < to ==> v@[j] != c,
            None => forall|j: int| from <= j < to ==> v@[j] != c,
        },
{
    let mut i = to;
    while i > from
        invariant
            from <= i <= to,
            to <= v@.len(),
            forall|j: int| i <= j < to ==> v@[j] != c,
        decreases i - from,
    {
        if v[i - 1] == c {
            return Some(i - 1);
        }
        i = i - 1;
    }
    None
}

/// std's `char::is_whitespace`: the Unicode `White_Space` property.
pub open spec fn is_whitespace(c: char) -> bool {
    ||| ('\u{9}' <= c && c <= '\u{d}')
    ||| c == ' '
    ||| c == '\u{85}'
    ||| c == '\u{a0}'
    ||| c == '\u{1680}'
    ||| ('\u{2000}' <= c && c <= '\u{200a}')
    ||| c == '\u{2028}'
    ||| c == '\u{2029}'
    ||| c == '\u{202f}'
    ||| c == '\u{205f}'
    ||| c == '\u{3000}'
}

/// Whether `c` is white space, as std's `char::is_whitespace` answers.
pub fn whitespace(c: char) -> (r: bool)
    ensures
        r == is_whitespace(c),
{
    ('\u{9}' <= c && c <= '\u{d}') || c == ' ' || c == '\u{85}' || c == '\u{a0}' || c
        == '\u{1680}' || ('\u{2000}' <= c && c <= '\u{200a}') || c == '\u{2028}' || c
        == '\u{2029}' || c == '\u{202f}' || c == '\u{205f}' || c == '\u{3000}'
}

/// How many characters std's `str::trim_start` removes from `v[from..to]`:
/// the position of the first character that is not white space.
pub fn skip_whitespace(v: &[char], from: usize, to: usize) -> (r: usize)
    requires
        from <= to <= v@.len(),
    ensures
        from <= r <= to,
        forall|j: int| from <= j < r ==> is_whitespace(#[trigger] v@[j]),
        r < to ==> !is_whitespace(v@[r as int]),
{
    let mut i = from;
    while i < to && whitespace(v[i])
        invariant
            from <= i <= to,
            to <= v@.len(),
            forall|j: int| from <= j < i ==> is_whitespace(#[trigger] v@[j]),
        decreases to - i,
    {
        i = i + 1;
    }
    i
}

/// The end of `v[from..to]` once std's `str::trim_end` has removed the
/// trailing white space.
pub fn skip_whitespace_back(v: &[char], from: usize, to: usize) -> (r: usize)
    requires
        from <= to <= v@.len(),
    ensures
        from <= r <= to,
        forall|j: int| r <= j < to ==> is_whitespace(#[trigger] v@[j]),
        r > from ==> !is_whitespace(v@[r - 1]),
{
    let mut i = to;
    while i > from && whitespace(v[i - 1])
        invariant
            from <= i <= to,
            to <= v@.len(),
            forall|j: int| i <= j < to ==> is_whitespace(#[trigger] v@[j]),
        decreases i - from,
    {
        i = i - 1;
    }
    i
}

/// The position of the first `c` in `s`, if there is one.
pub open spec fn find_first(s: Seq<char>, c: char) -> Option<int>
    decreases s.len(),
{
    if s.len() == 0 {
        None
    } else if s[0] == c {
        Some(0)
    } else {
        match find_first(s.drop_first(), c) {
            Some(i) => Some(i + 1),
            None => None,
        }
    }
}

/// The position of the last `c` in `s`, if there is one.
pub open spec fn find_last(s: Seq<char>, c: char) -> Option<int>
    decreases s.len(),
{
    if s.len() == 0 {
        None
    } else if s.last() == c {
        Some(s.len() - 1)
    } else {
        find_last(s.drop_last(), c)
    }
}

/// What `find_first` names is a position of `c`.
pub proof fn lemma_find_first_bounds(s: Seq<char>, c: char)
    ensures
        find_first(s, c) matches Some(i) ==> 0 <= i < s.len() && s[i] == c,
    decreases s.len(),
{
    if s.len() > 0 && s[0] != c {
        lemma_find_first_bounds(s.drop_first(), c);
    }
}

/// A position found by a forward scan is the one `find_first` names.
pub proof fn lemma_find_first(s: Seq<char>, c: char, i: int)
    requires
        0 <= i <= s.len(),
        forall|j: int| 0 <= j < i ==> s[j] != c,
        i < s.len() ==> s[i] == c,
    ensures
        find_first(s, c) == (if i < s.len() {
            Some(i)
        } else {
            None::<int>
        }),
    decreases s.len(),
{
    if s.len() > 0 && i > 0 {
        lemma_find_first(s.drop_first(), c, i - 1);
    }
}

/// A position found by a backward scan is the one `find_last` names.
pub proof fn lemma_find_last(s: Seq<char>, c: char, i: int)
    requires
        -1 <= i < s.len(),
        forall|j: int| i < j < s.len() ==> s[j] != c,
        i >= 0 ==> s[i] == c,
    ensures
        find_last(s, c) == (if i >= 0 {
            Some(i)
        } else {
            None::<int>
        }),
    decreases s.len(),
{
    if s.len() > 0 && i < s.len() - 1 {
        lemma_find_last(s.drop_last(), c, i);
    }
}

/// How many characters at the front of `s` are white space.
pub open spec fn leading_whitespace(s: Seq<char>) -> int
    decreases s.len(),
{
    if s.len() > 0 && is_whitespace(s[0]) {
        1 + leading_whitespace(s.drop_first())
    } else {
        0
    }
}

/// How many characters at the end of `s` are white space.
pub open spec fn trailing_whitespace(s: Seq<char>) -> int
    decreases s.len(),
{
    if s.len() > 0 && is_whitespace(s.last()) {
        1 + trailing_whitespace(s.drop_last())
    } else {
        0
    }
}

/// std's `str::trim_start`.
pub open spec fn trim_start(s: Seq<char>) -> Seq<char> {
    s.subrange(leading_whitespace(s), s.len() as int)
}

/// std's `str::trim`.
pub open spec fn trim(s: Seq<char>) -> Seq<char> {
    let t = trim_start(s);
    t.subrange(0, t.len() - trailing_whitespace(t))
}

pub proof fn lemma_leading_whitespace(s: Seq<char>, i: int)
    requires
        0 <= i <= s.len(),
        forall|j: int| 0 <= j < i ==> is_whitespace(#[trigger] s[j]),
        i < s.len() ==> !is_whitespace(s[i]),
    ensures
        leading_whitespace(s) == i,
    decreases s.len(),
{
    if s.len() > 0 && i > 0 {
        assert(is_whitespace(s[0]));
        assert forall|j: int| 0 <= j < i - 1 implies is_whitespace(#[trigger] s.drop_first()[j]) by {
            assert(is_whitespace(s[j + 1]));
        }
        lemma_leading_whitespace(s.drop_first(), i - 1);
    }
}

pub proof fn lemma_trailing_whitespace(s: Seq<char>, i: int)
    requires
        0 <= i <= s.len(),
        forall|j: int| i <= j < s.len() ==> is_whitespace(#[trigger] s[j]),
        i > 0 ==> !is_whitespace(s[i - 1]),
    ensures
        trailing_whitespace(s) == s.len() - i,
    decreases s.len(),
{
    if s.len() > 0 && i < s.len() {
        assert(is_whitespace(s[s.len() - 1]));
        assert forall|j: int| i <= j < s.len() - 1 implies is_whitespace(
            #[trigger] s.drop_last()[j],
        ) by {
            assert(is_whitespace(s[j]));
        }
        lemma_trailing_whitespace(s.drop_last(), i);
    }
}

/// The bounds of `v[from..to]` once trimmed on both sides, as std's
/// `str::trim` leaves it.
pub fn trim_bounds(v: &[char], from: usize, to: usize) -> (r: (usize, usize))
    requires
        from <= to <= v@.len(),
    ensures
        from <= r.0 <= r.1 <= to,
        v@.subrange(r.0 as int, r.1 as int) == trim(v@.subrange(from as int, to as int)),
        v@.subrange(r.0 as int, to as int) == trim_start(v@.subrange(from as int, to as int)),
{
    let start = skip_whitespace(v, from, to);
    let end = skip_whitespace_back(v, start, to);
    proof {
        let s = v@.subrange(from as int, to as int);
        assert forall|j: int| 0 <= j < start - from implies is_whitespace(#[trigger] s[j]) by {
            assert(s[j] == v@[from + j]);
        }
        if start < to {
            assert(s[start - from] == v@[start as int]);
        }
        lemma_leading_whitespace(s, start - from);
        let t = trim_start(s);
        assert(t =~= v@.subrange(start as int, to as int));
        assert forall|j: int| end - start <= j < t.len() implies is_whitespace(#[trigger] t[j]) by {
            assert(t[j] == v@[start + j]);
        }
        if end > start {
            assert(t[end - start - 1] == v@[end - 1]);
        }
        lemma_trailing_whitespace(t, end - start);
        assert(t.subrange(0, t.len() - trailing_whitespace(t)) =~= v@.subrange(
            start as int,
            end as int,
        ));
    }
    (start, end)
}

/// How many copies of `c` stand at the front of `s`.
pub open spec fn leading_count(s: Seq<char>, c: char) -> int
    decreases s.len(),
{
    if s.len() > 0 && s[0] == c {
        1 + leading_count(s.drop_first(), c)
    } else {
        0
    }
}

pub proof fn lemma_leading_count(s: Seq<char>, c: char, i: int)
    requires
        0 <= i <= s.len(),
        forall|j: int| 0 <= j < i ==> s[j] == c,
        i < s.len() ==> s[i] != c,
    ensures
        leading_count(s, c) == i,
    decreases s.len(),
{
    if s.len() > 0 && i > 0 {
        lemma_leading_count(s.drop_first(), c, i - 1);
    }
}

/// The first position in `v[from..to]` that is not `c`, or `to`.
pub fn skip_char(v: &[char], from: usize, to: usize, c: char) -> (r: usize)
    requires
        from <= to <= v@.len(),
    ensures
        from <= r <= to,
        leading_count(v@.subrange(from as int, to as int), c) == r - from,
{
    let mut i = from;
    while i < to && v[i] == c
        invariant
            from <= i <= to,
            to <= v@.len(),
            forall|j: int| from <= j < i ==> v@[j] == c,
        decreases to - i,
    {
        i = i + 1;
    }
    proof {
        let s = v@.subrange(from as int, to as int);
        assert forall|j: int| 0 <= j < i - from implies s[j] == c by {
            assert(s[j] == v@[from + j]);
        }
        if i < to {
            assert(s[i - from] == v@[i as int]);
        }
        lemma_leading_count(s, c, i - from);
    }
    i
}

/// The first `c` in `v[from..to]`, as `find_first` names it.
pub fn find_first_in(v: &[char], from: usize, to: usize, c: char) -> (r: Option<usize>)
    requires
        from <= to <= v@.len(),
    ensures
        match r {
            Some(i) => from <= i < to && find_first(v@.subrange(from as int, to as int), c) == Some(
                i - from,
            ),
            None => find_first(v@.subrange(from as int, to as int), c) == None::<int>,
        },
{
    let r = find_char(v, from, to, c);
    proof {
        let s = v@.subrange(from as int, to as int);
        match r {
            Some(i) => {
                assert forall|j: int| 0 <= j < i - from implies s[j] != c by {
                    assert(s[j] == v@[from + j]);
                }
                assert(s[i - from] == v@[i as int]);
                lemma_find_first(s, c, i - from);
            },
            None => {
                assert forall|j: int| 0 <= j < s.len() implies s[j] != c by {
                    assert(s[j] == v@[from + j]);
                }
                lemma_find_first(s, c, s.len() as int);
            },
        }
    }
    r
}

/// The last `c` in `v[from..to]`, as `find_last` names it.
pub fn find_last_in(v: &[char], from: usize, to: usize, c: char) -> (r: Option<usize>)
    requires
        from <= to <= v@.len(),
    ensures
        match r {
            Some(i) => from <= i < to && find_last(v@.subrange(from as int, to as int), c) == Some(
                i - from,
            ),
            None => find_last(v@.subrange(from as int, to as int), c) == None::<int>,
        },
{
    let r = rfind_char(v, from, to, c);
    proof {
        let s = v@.subrange(from as int, to as int);
        match r {
            Some(i) => {
                assert forall|j: int| i - from < j < s.len() implies s[j] != c by {
                    assert(s[j] == v@[from + j]);
                }
                assert(s[i - from] == v@[i as int]);
                lemma_find_last(s, c, i - from);
            },
            None => {
                assert forall|j: int| -1 < j < s.len() implies s[j] != c by {
                    assert(s[j] == v@[from + j]);
                }
                lemma_find_last(s, c, -1);
            },
        }
    }
    r
}

/// Whether `s` begins with `pat`.
pub open spec fn starts_with(s: Seq<char>, pat: Seq<char>) -> bool {
    pat.len() <= s.len() && s.subrange(0, pat.len() as int) == pat
}

/// `s` with every occurrence of `pat` taken out, scanning from the left as
/// std's `str::replace(pat, "")` does: a match is removed and the scan resumes
/// after it.
pub open spec fn remove_all(s: Seq<char>, pat: Seq<char>) -> Seq<char>
    decreases s.len(),
{
    if s.len() == 0 {
        s
    } else if pat.len() > 0 && starts_with(s, pat) {
        remove_all(s.subrange(pat.len() as int, s.len() as int), pat)
    } else {
        seq![s[0]] + remove_all(s.drop_first(), pat)
    }
}

/// `v[from..to]` with every occurrence of `pat` taken out.
pub fn remove_all_in(v: &[char], from: usize, to: usize, pat: &[char]) -> (r: Vec<char>)
    requires
        from <= to <= v@.len(),
    ensures
        r@ == remove_all(v@.subrange(from as int, to as int), pat@),
{
    let mut out: Vec<char> = Vec::new();
    let mut i = from;
    while i < to
        invariant
            from <= i <= to,
            to <= v@.len(),
            remove_all(v@.subrange(from as int, to as int), pat@) == out@ + remove_all(
                v@.subrange(i as int, to as int),
                pat@,
            ),
        decreases to - i,
    {
        let ghost rest = v@.subrange(i as int, to as int);
        let hit = pat.len() > 0 && pat.len() <= to - i && matches_at(v, i, pat);
        if hit {
            proof {
                assert(rest.subrange(0, pat@.len() as int) =~= v@.subrange(
                    i as int,
                    i + pat@.len(),
                ));
                assert(rest.subrange(pat@.len() as int, rest.len() as int) =~= v@.subrange(
                    i + pat@.len(),
                    to as int,
                ));
            }
            i = i + pat.len();
        } else {
            proof {
                if pat@.len() > 0 && pat@.len() <= rest.len() {
                    assert(rest.subrange(0, pat@.len() as int) =~= v@.subrange(
                        i as int,
                        i + pat@.len(),
                    ));
                }
                assert(rest.drop_first() =~= v@.subrange(i + 1, to as int));
                assert(out@.push(v@[i as int]) + remove_all(rest.drop_first(), pat@) =~= out@ + (
                seq![rest[0]] + remove_all(rest.drop_first(), pat@)));
            }
            out.push(v[i]);
            i = i + 1;
        }
    }
    proof {
        assert(out@ + remove_all(v@.subrange(i as int, to as int), pat@) =~= out@);
    }
    out
}

} // verus!

//! Text primitives: byte lengths, white space, decimal numbers, prefixes,
//! substrings and truncation, each stated over the characters of the text.

use vstd::prelude::*;
use vstd::utf8::{decode_utf8, encode_utf8, valid_utf8};

verus! {

/// `String::push`: the character is appended to the text.
pub assume_specification[ String::push ](s: &mut String, c: char)
    ensures
        final(s)@ == old(s)@.push(c),
;

/// Number of bytes that `s` takes in UTF-8.
pub open spec fn utf8_len(s: Seq<char>) -> nat {
    encode_utf8(s).len()
}

/// Number of bytes of one character in UTF-8.
pub open spec fn char_len(c: char) -> nat {
    if (c as u32) < 0x80 {
        1
    } else if (c as u32) < 0x800 {
        2
    } else if (c as u32) < 0x1_0000 {
        3
    } else {
        4
    }
}

/// The length of a text is the sum of the lengths of its characters, taken
/// from the end.
pub proof fn lemma_utf8_len_push(s: Seq<char>, c: char)
    ensures
        utf8_len(s.push(c)) == utf8_len(s) + char_len(c),
    decreases s.len(),
{
    if s.len() == 0 {
        assert(s.push(c).drop_first() =~= Seq::<char>::empty());
        reveal_with_fuel(encode_utf8, 2);
    } else {
        lemma_utf8_len_push(s.drop_first(), c);
        assert(s.push(c).drop_first() =~= s.drop_first().push(c));
    }
}

/// Concatenation adds byte lengths.
pub proof fn lemma_utf8_len_concat(a: Seq<char>, b: Seq<char>)
    ensures
        utf8_len(a + b) == utf8_len(a) + utf8_len(b),
    decreases b.len(),
{
    if b.len() == 0 {
        assert(a + b =~= a);
    } else {
        lemma_utf8_len_concat(a, b.drop_last());
        assert(a + b =~= (a + b.drop_last()).push(b.last()));
        assert(b =~= b.drop_last().push(b.last()));
        lemma_utf8_len_push(a + b.drop_last(), b.last());
        lemma_utf8_len_push(b.drop_last(), b.last());
    }
}

/// Every character takes at least one byte.
pub proof fn lemma_utf8_len_at_least_chars(s: Seq<char>)
    ensures
        s.len() <= utf8_len(s) <= 4 * s.len(),
    decreases s.len(),
{
    if s.len() > 0 {
        lemma_utf8_len_at_least_chars(s.drop_last());
        assert(s =~= s.drop_last().push(s.last()));
        lemma_utf8_len_push(s.drop_last(), s.last());
    }
}

/// ASCII text takes one byte for each character.
pub proof fn lemma_ascii_len(s: Seq<char>)
    requires
        forall|i: int| 0 <= i < s.len() ==> (#[trigger] s[i] as u32) < 0x80,
    ensures
        utf8_len(s) == s.len(),
    decreases s.len(),
{
    if s.len() > 0 {
        let rest = s.drop_last();
        assert forall|i: int| 0 <= i < rest.len() implies (#[trigger] rest[i] as u32) < 0x80 by {
            assert(rest[i] == s[i]);
        }
        lemma_ascii_len(rest);
        assert(s[s.len() - 1] == s.last());
        assert(s =~= rest.push(s.last()));
        lemma_utf8_len_push(rest, s.last());
    }
}

/// Byte length of `s`.
pub fn byte_len(s: &str) -> (n: usize)
    ensures
        n == utf8_len(s@),
{
    s.as_bytes().len()
}

/// The characters of `s`.
pub fn chars_of(s: &str) -> (v: Vec<char>)
    ensures
        v@ == s@,
{
    let mut out: Vec<char> = Vec::new();
    for c in it: s.chars()
        invariant
            out@ == s@.take(it.index() as int),
            it.seq() == s@,
    {
        out.push(c);
        proof {
            assert(s@.take(it.index() + 1) =~= s@.take(it.index() as int).push(c));
        }
    }
    proof {
        assert(s@.take(s@.len() as int) =~= s@);
    }
    out
}

/// The text of the characters `v[from..to]`.
pub fn text_of(v: &Vec<char>, from: usize, to: usize) -> (s: String)
    requires
        from <= to <= v@.len(),
    ensures
        s@ == v@.subrange(from as int, to as int),
{
    let mut out = String::new();
    let mut i: usize = from;
    while i < to
        invariant
            from <= i <= to <= v@.len(),
            out@ == v@.subrange(from as int, i as int),
        decreases to - i,
    {
        out.push(v[i]);
        proof {
            assert(v@.subrange(from as int, i + 1) =~= v@.subrange(from as int, i as int).push(v@[i as int]));
        }
        i += 1;
    }
    out
}


/// Two byte strings are equal.
pub fn bytes_equal(a: &[u8], b: &[u8]) -> (same: bool)
    ensures
        same == (a@ == b@),
{
    if a.len() != b.len() {
        return false;
    }
    let mut i: usize = 0;
    while i < a.len()
        invariant
            i <= a@.len(),
            a@.len() == b@.len(),
            forall|j: int| 0 <= j < i ==> a@[j] == b@[j],
        decreases a.len() - i,
    {
        if a[i] != b[i] {
            return false;
        }
        i += 1;
    }
    proof {
        assert(a@ =~= b@);
    }
    true
}

/// Two texts are equal.
pub fn text_equal(a: &str, b: &str) -> (same: bool)
    ensures
        same == (a@ == b@),
{
    let same = bytes_equal(a.as_bytes(), b.as_bytes());
    proof {
        vstd::utf8::encode_utf8_decode_utf8(a@);
        vstd::utf8::encode_utf8_decode_utf8(b@);
    }
    same
}

/// Unicode white space.
pub open spec fn white_space(c: char) -> bool {
    let n = c as u32;
    ||| 0x09 <= n <= 0x0d
    ||| n == 0x20
    ||| n == 0x85
    ||| n == 0xa0
    ||| n == 0x1680
    ||| 0x2000 <= n <= 0x200a
    ||| n == 0x2028
    ||| n == 0x2029
    ||| n == 0x202f
    ||| n == 0x205f
    ||| n == 0x3000
}

/// Whether `c` is Unicode white space.
pub fn is_white_space(c: char) -> (r: bool)
    ensures
        r == white_space(c),
{
    let n: u32 = c as u32;
    (0x09 <= n && n <= 0x0d) || n == 0x20 || n == 0x85 || n == 0xa0 || n == 0x1680 || (0x2000 <= n
        && n <= 0x200a) || n == 0x2028 || n == 0x2029 || n == 0x202f || n == 0x205f || n == 0x3000
}

/// A text with no visible character: trimming leaves nothing of it.
pub open spec fn blank(s: Seq<char>) -> bool {
    forall|i: int| 0 <= i < s.len() ==> white_space(#[trigger] s[i])
}

/// Whether nothing is left of `s` once it is trimmed.
pub fn is_blank(s: &str) -> (r: bool)
    ensures
        r == blank(s@),
{
    let v = chars_of(s);
    let mut i: usize = 0;
    while i < v.len()
        invariant
            i <= v@.len(),
            v@ == s@,
            forall|j: int| 0 <= j < i ==> white_space(#[trigger] s@[j]),
        decreases v.len() - i,
    {
        if !is_white_space(v[i]) {
            proof {
                assert(!white_space(s@[i as int]));
            }
            return false;
        }
        i += 1;
    }
    true
}

/// The character of a decimal digit.
pub open spec fn digit_char(d: nat) -> char {
    ('0' as u32 + d) as char
}

/// `n` in decimal, without leading zeros.
pub open spec fn decimal(n: nat) -> Seq<char>
    decreases n,
{
    if n < 10 {
        seq![digit_char(n)]
    } else {
        decimal(n / 10).push(digit_char(n % 10))
    }
}

/// The decimal digit `d` as a character.
fn digit(d: u8) -> (c: char)
    requires
        d < 10,
    ensures
        c == digit_char(d as nat),
{
    (48u8 + d) as char
}

/// Appends `n` in decimal.
pub fn push_decimal(out: &mut String, n: u64)
    ensures
        final(out)@ == old(out)@ + decimal(n as nat),
    decreases n,
{
    if n >= 10 {
        push_decimal(out, n / 10);
    }
    let last: u8 = (n % 10) as u8;
    out.push(digit(last));
    proof {
        assert(out@ =~= old(out)@ + decimal(n as nat));
    }
}

/// The value of a decimal digit.
pub open spec fn digit_value(c: char) -> nat {
    (c as u32 - '0' as u32) as nat
}

/// A decimal digit.
pub open spec fn is_digit(c: char) -> bool {
    '0' as u32 <= c as u32 <= '9' as u32
}

/// A text of decimal digits.
pub open spec fn all_digits(s: Seq<char>) -> bool {
    forall|i: int| 0 <= i < s.len() ==> is_digit(#[trigger] s[i])
}

/// The number that a text of decimal digits writes.
pub open spec fn digits_value(s: Seq<char>) -> nat
    decreases s.len(),
{
    if s.len() == 0 {
        0
    } else {
        10 * digits_value(s.drop_last()) + digit_value(s.last())
    }
}

/// The digits that remain of a number once a leading plus sign is dropped.
pub open spec fn unsigned_digits(s: Seq<char>) -> Seq<char> {
    if s.len() > 0 && s[0] == '+' {
        s.drop_first()
    } else {
        s
    }
}

/// The number that `s` writes: decimal digits, one at least, after an optional
/// plus sign, with a value that fits 32 bits.
pub open spec fn number_u32(s: Seq<char>) -> Option<u32> {
    let d = unsigned_digits(s);
    if d.len() > 0 && all_digits(d) && digits_value(d) <= u32::MAX {
        Some(digits_value(d) as u32)
    } else {
        None
    }
}

proof fn lemma_digits_value_prefix(s: Seq<char>, k: int)
    requires
        0 <= k <= s.len(),
    ensures
        digits_value(s.take(k)) <= digits_value(s),
    decreases s.len(),
{
    if k == s.len() {
        assert(s.take(k) =~= s);
    } else {
        lemma_digits_value_prefix(s.drop_last(), k);
        assert(s.drop_last().take(k) =~= s.take(k));
    }
}

/// Parses an unsigned 32-bit number.
pub fn parse_u32(s: &str) -> (r: Option<u32>)
    ensures
        r == number_u32(s@),
{
    let v = chars_of(s);
    let start: usize = if v.len() > 0 && v[0] == '+' {
        1
    } else {
        0
    };
    let ghost d = unsigned_digits(s@);
    proof {
        assert(d =~= s@.skip(start as int));
    }
    if start == v.len() {
        return None;
    }
    let mut n: u32 = 0;
    let mut i: usize = start;
    while i < v.len()
        invariant
            start <= i <= v@.len(),
            v@ == s@,
            d == s@.skip(start as int),
            d == unsigned_digits(s@),
            forall|j: int| 0 <= j < i - start ==> is_digit(#[trigger] d[j]),
            n == digits_value(d.take(i - start)),
        decreases v.len() - i,
    {
        let c: u32 = v[i] as u32;
        proof {
            assert(d[i - start] == v@[i as int]);
            assert(d.take(i - start + 1).drop_last() =~= d.take(i - start));
            assert(d.take(i - start + 1).last() == v@[i as int]);
        }
        if c < 48 || c > 57 {
            proof {
                assert(!is_digit(d[i - start]));
            }
            return None;
        }
        let next: u64 = 10 * (n as u64) + ((c - 48) as u64);
        if next > u32::MAX as u64 {
            proof {
                lemma_digits_value_prefix(d, i - start + 1);
            }
            return None;
        }
        n = next as u32;
        i += 1;
    }
    proof {
        assert(d.take(d.len() as int) =~= d);
    }
    Some(n)
}

/// Decimal text writes the number that it was made from.
pub proof fn lemma_decimal_digits(n: nat)
    ensures
        decimal(n).len() > 0,
        all_digits(decimal(n)),
        digits_value(decimal(n)) == n,
    decreases n,
{
    if n < 10 {
        let s = seq![digit_char(n)];
        assert(s.drop_last() =~= Seq::<char>::empty());
        assert(digits_value(Seq::<char>::empty()) == 0);
        assert(digits_value(s) == n);
    } else {
        lemma_decimal_digits(n / 10);
        let s = decimal(n);
        assert(s.drop_last() =~= decimal(n / 10));
        assert(s.last() == digit_char(n % 10));
    }
}

/// Parsing decimal text gives back the number.
pub proof fn lemma_number_of_decimal(n: u32)
    ensures
        number_u32(decimal(n as nat)) == Some(n),
{
    lemma_decimal_digits(n as nat);
    let s = decimal(n as nat);
    assert(is_digit(s[0]));
    assert(unsigned_digits(s) == s);
}

/// `needle` stands in `hay` at position `i`.
pub open spec fn occurs_at(hay: Seq<char>, needle: Seq<char>, i: int) -> bool {
    0 <= i && i + needle.len() <= hay.len() && hay.subrange(i, i + needle.len()) == needle
}

/// `needle` is a substring of `hay`.
pub open spec fn has_substring(hay: Seq<char>, needle: Seq<char>) -> bool {
    exists|i: int| occurs_at(hay, needle, i)
}

/// Whether `needle` stands in `hay` at position `at`.
pub(crate) fn matches_at(hay: &Vec<char>, needle: &Vec<char>, at: usize) -> (r: bool)
    ensures
        r == occurs_at(hay@, needle@, at as int),
{
    if at > hay.len() || hay.len() - at < needle.len() {
        return false;
    }
    let mut j: usize = 0;
    while j < needle.len()
        invariant
            j <= needle@.len(),
            at + needle.len() <= hay.len(),
            forall|k: int| 0 <= k < j ==> hay@[at + k] == needle@[k],
        decreases needle.len() - j,
    {
        if hay[at + j] != needle[j] {
            proof {
                assert(hay@.subrange(at as int, at + needle@.len())[j as int] != needle@[j as int]);
            }
            return false;
        }
        j += 1;
    }
    proof {
        assert(hay@.subrange(at as int, at + needle@.len()) =~= needle@);
    }
    true
}

/// Whether `needle` is a substring of the characters `hay`.
pub fn contains_text(hay: &Vec<char>, needle: &str) -> (r: bool)
    ensures
        r == has_substring(hay@, needle@),
{
    let n = chars_of(needle);
    let mut i: usize = 0;
    while i < hay.len()
        invariant
            i <= hay@.len(),
            n@ == needle@,
            forall|k: int| 0 <= k < i ==> !occurs_at(hay@, needle@, k),
        decreases hay.len() - i,
    {
        if matches_at(hay, &n, i) {
            return true;
        }
        i += 1;
    }
    matches_at(hay, &n, i)
}

/// Whether `s` starts with `prefix`.
pub fn starts_with_text(s: &str, prefix: &str) -> (r: bool)
    ensures
        r == prefix@.is_prefix_of(s@),
{
    let hay = chars_of(s);
    let n = chars_of(prefix);
    matches_at(&hay, &n, 0)
}

/// An ASCII capital turned into its small letter.
pub open spec fn ascii_lower(c: char) -> char {
    if 'A' as u32 <= c as u32 <= 'Z' as u32 {
        (c as u32 + 32) as char
    } else {
        c
    }
}

/// `s` with its ASCII capitals turned into small letters.
pub open spec fn ascii_lowercase(s: Seq<char>) -> Seq<char> {
    s.map_values(|c: char| ascii_lower(c))
}

/// The small letter of an ASCII capital, and any other character unchanged.
pub fn to_ascii_lower(c: char) -> (r: char)
    ensures
        r == ascii_lower(c),
{
    let n: u32 = c as u32;
    if 65 <= n && n <= 90 {
        ((n + 32) as u8) as char
    } else {
        c
    }
}

/// The characters of `s`, ASCII capitals turned into small letters.
pub fn lowercase_chars(s: &str) -> (v: Vec<char>)
    ensures
        v@ == ascii_lowercase(s@),
{
    let chars = chars_of(s);
    let mut out: Vec<char> = Vec::new();
    let mut i: usize = 0;
    while i < chars.len()
        invariant
            i <= chars@.len(),
            chars@ == s@,
            out@ == ascii_lowercase(s@.take(i as int)),
        decreases chars.len() - i,
    {
        out.push(to_ascii_lower(chars[i]));
        proof {
            assert(ascii_lowercase(s@.take(i + 1)) =~= ascii_lowercase(s@.take(i as int)).push(
                ascii_lower(s@[i as int]),
            ));
        }
        i += 1;
    }
    proof {
        assert(s@.take(s@.len() as int) =~= s@);
    }
    out
}

/// The longest prefix of `s` that takes at most `max` bytes.
pub open spec fn longest_prefix(s: Seq<char>, max: nat) -> Seq<char>
    decreases s.len(),
{
    if utf8_len(s) <= max || s.len() == 0 {
        s
    } else {
        longest_prefix(s.drop_last(), max)
    }
}

/// The longest suffix of `s` that takes at most `max` bytes.
pub open spec fn longest_suffix(s: Seq<char>, max: nat) -> Seq<char>
    decreases s.len(),
{
    if utf8_len(s) <= max || s.len() == 0 {
        s
    } else {
        longest_suffix(s.drop_first(), max)
    }
}

/// A longest prefix is a prefix within the limit.
pub proof fn lemma_longest_prefix(s: Seq<char>, max: nat)
    ensures
        longest_prefix(s, max).is_prefix_of(s),
        utf8_len(longest_prefix(s, max)) <= max,
    decreases s.len(),
{
    if s.len() == 0 {
        lemma_utf8_len_at_least_chars(s);
    } else if utf8_len(s) > max {
        lemma_longest_prefix(s.drop_last(), max);
    }
}

/// A longest suffix stays within the limit.
pub proof fn lemma_longest_suffix(s: Seq<char>, max: nat)
    ensures
        longest_suffix(s, max).is_suffix_of(s),
        utf8_len(longest_suffix(s, max)) <= max,
    decreases s.len(),
{
    if s.len() == 0 {
        lemma_utf8_len_at_least_chars(s);
    } else if utf8_len(s) > max {
        lemma_longest_suffix(s.drop_first(), max);
    }
}

proof fn lemma_prefix_len(s: Seq<char>, k: int)
    requires
        0 <= k <= s.len(),
    ensures
        utf8_len(s) == utf8_len(s.take(k)) + utf8_len(s.skip(k)),
{
    lemma_utf8_len_concat(s.take(k), s.skip(k));
    assert(s.take(k) + s.skip(k) =~= s);
}

proof fn lemma_longest_prefix_is(s: Seq<char>, k: int, max: nat)
    requires
        0 <= k <= s.len(),
        utf8_len(s.take(k)) <= max,
        k < s.len() ==> utf8_len(s.take(k + 1)) > max,
    ensures
        longest_prefix(s, max) == s.take(k),
    decreases s.len(),
{
    if k == s.len() {
        assert(s.take(k) =~= s);
    } else {
        lemma_prefix_len(s, k + 1);
        assert(s.drop_last().take(k) =~= s.take(k));
        if k < s.len() - 1 {
            assert(s.drop_last().take(k + 1) =~= s.take(k + 1));
        }
        lemma_longest_prefix_is(s.drop_last(), k, max);
    }
}

proof fn lemma_longest_suffix_is(s: Seq<char>, k: int, max: nat)
    requires
        0 <= k <= s.len(),
        utf8_len(s.skip(k)) <= max,
        k > 0 ==> utf8_len(s.skip(k - 1)) > max,
    ensures
        longest_suffix(s, max) == s.skip(k),
    decreases s.len(),
{
    if k == 0 {
        assert(s.skip(0) =~= s);
    } else {
        lemma_prefix_len(s, k - 1);
        assert(s.drop_first().skip(k - 1) =~= s.skip(k));
        if k > 1 {
            assert(s.drop_first().skip(k - 2) =~= s.skip(k - 1));
        }
        lemma_longest_suffix_is(s.drop_first(), k - 1, max);
    }
}

/// Bytes that `c` takes in UTF-8.
fn char_bytes(c: char) -> (n: usize)
    ensures
        n == char_len(c),
{
    let u: u32 = c as u32;
    if u < 0x80 {
        1
    } else if u < 0x800 {
        2
    } else if u < 0x1_0000 {
        3
    } else {
        4
    }
}

/// The longest prefix of `s` within `max` bytes that does not split a
/// character.
pub fn truncate_to_char_boundary(s: &str, max: usize) -> (r: String)
    ensures
        r@ == longest_prefix(s@, max as nat),
{
    let v = chars_of(s);
    let mut used: usize = 0;
    let mut k: usize = 0;
    proof {
        assert(s@.take(0) =~= Seq::<char>::empty());
    }
    while k < v.len()
        invariant
            k <= v@.len(),
            v@ == s@,
            used == utf8_len(s@.take(k as int)),
            used <= max,
        decreases v.len() - k,
    {
        let n = char_bytes(v[k]);
        proof {
            assert(s@.take(k + 1) =~= s@.take(k as int).push(s@[k as int]));
            lemma_utf8_len_push(s@.take(k as int), s@[k as int]);
        }
        if n > max - used {
            proof {
                lemma_longest_prefix_is(s@, k as int, max as nat);
            }
            return text_of(&v, 0, k);
        }
        used += n;
        k += 1;
    }
    proof {
        lemma_longest_prefix_is(s@, k as int, max as nat);
    }
    text_of(&v, 0, k)
}

/// The longest suffix of `s` within `max` bytes that does not split a
/// character.
pub fn truncate_from_start(s: &str, max: usize) -> (r: String)
    ensures
        r@ == longest_suffix(s@, max as nat),
{
    let v = chars_of(s);
    let len = v.len();
    let mut used: usize = 0;
    let mut k: usize = len;
    proof {
        assert(s@.skip(len as int) =~= Seq::<char>::empty());
    }
    while k > 0
        invariant
            k <= len,
            len == v@.len(),
            v@ == s@,
            used == utf8_len(s@.skip(k as int)),
            used <= max,
        decreases k,
    {
        let n = char_bytes(v[k - 1]);
        proof {
            let c = s@[k - 1];
            assert(s@.skip(k - 1) =~= seq![c] + s@.skip(k as int));
            lemma_utf8_len_concat(seq![c], s@.skip(k as int));
            assert(seq![c] =~= Seq::<char>::empty().push(c));
            lemma_utf8_len_push(Seq::<char>::empty(), c);
        }
        if n > max - used {
            proof {
                lemma_longest_suffix_is(s@, k as int, max as nat);
                assert(s@.subrange(k as int, len as int) =~= s@.skip(k as int));
            }
            return text_of(&v, k, len);
        }
        used += n;
        k -= 1;
    }
    proof {
        lemma_longest_suffix_is(s@, 0, max as nat);
        assert(s@.subrange(0, len as int) =~= s@.skip(0));
    }
    text_of(&v, 0, len)
}

/// The texts `parts`, one after the other, `sep` between them.
pub open spec fn joined(parts: Seq<Seq<char>>, sep: Seq<char>) -> Seq<char>
    decreases parts.len(),
{
    if parts.len() == 0 {
        Seq::empty()
    } else if parts.len() == 1 {
        parts[0]
    } else {
        joined(parts.drop_last(), sep) + sep + parts.last()
    }
}

/// The characters of each text.
pub open spec fn texts(parts: Seq<String>) -> Seq<Seq<char>> {
    parts.map_values(|p: String| p@)
}

/// Joins `parts` with `sep` between them.
pub fn join(parts: &Vec<String>, sep: &str) -> (r: String)
    ensures
        r@ == joined(texts(parts@), sep@),
{
    let mut out = String::new();
    let mut i: usize = 0;
    while i < parts.len()
        invariant
            i <= parts@.len(),
            out@ == joined(texts(parts@).take(i as int), sep@),
        decreases parts.len() - i,
    {
        let ghost before = texts(parts@).take(i as int);
        if i > 0 {
            out.append(sep);
        }
        out.append(parts[i].as_str());
        proof {
            let all = texts(parts@).take(i + 1);
            assert(all.drop_last() =~= before);
            assert(all.last() == parts@[i as int]@);
            if i == 0 {
                assert(out@ =~= all[0]);
            } else {
                assert(out@ =~= joined(before, sep@) + sep@ + all.last());
            }
        }
        i += 1;
    }
    proof {
        assert(texts(parts@).take(parts@.len() as int) =~= texts(parts@));
    }
    out
}

/// `header` and `body` where both fit `cap` bytes; else `header`, `notice` and as
/// much of the end of `body` as still fits.
pub open spec fn framed(header: Seq<char>, notice: Seq<char>, body: Seq<char>, cap: nat) -> Seq<
    char,
> {
    if utf8_len(header) + utf8_len(body) <= cap {
        header + body
    } else {
        let used = utf8_len(header) + utf8_len(notice);
        header + notice + longest_suffix(
            body,
            if used <= cap {
                (cap - used) as nat
            } else {
                0
            },
        )
    }
}

/// A framed text fits its cap wherever header and notice do.
pub proof fn lemma_framed_fits(header: Seq<char>, notice: Seq<char>, body: Seq<char>, cap: nat)
    requires
        utf8_len(header) + utf8_len(notice) <= cap,
    ensures
        utf8_len(framed(header, notice, body, cap)) <= cap,
        header.is_prefix_of(framed(header, notice, body, cap)),
{
    let used = utf8_len(header) + utf8_len(notice);
    let tail = longest_suffix(body, (cap - used) as nat);
    lemma_utf8_len_concat(header, body);
    lemma_utf8_len_concat(header, notice);
    lemma_utf8_len_concat(header + notice, tail);
    lemma_longest_suffix(body, (cap - used) as nat);
    assert((header + body).subrange(0, header.len() as int) =~= header);
    assert((header + notice + tail).subrange(0, header.len() as int) =~= header);
}

/// Puts `body` under `header`, within `cap` bytes: a body that does not fit loses
/// its beginning, and `notice` says so.
pub fn frame_body(header: &str, notice: &str, body: &str, cap: usize) -> (s: String)
    ensures
        s@ == framed(header@, notice@, body@, cap as nat),
{
    let head = byte_len(header);
    let note = byte_len(notice);
    let rest = byte_len(body);
    let mut out = header.to_owned();
    if head <= cap && rest <= cap - head {
        out.append(body);
    } else {
        let room: usize = if head <= cap && note <= cap - head {
            cap - head - note
        } else {
            0
        };
        out.append(notice);
        out.append(truncate_from_start(body, room).as_str());
    }
    out
}

/// Text that is cut at the end loses no more than it must: what is kept is a prefix, it
/// takes at most `max` bytes, and no longer prefix does.
pub proof fn law_longest_prefix_is_longest(s: Seq<char>, max: nat, k: int)
    requires
        0 <= k <= s.len(),
    ensures
        longest_prefix(s, max) == s.take(longest_prefix(s, max).len() as int),
        utf8_len(longest_prefix(s, max)) <= max,
        utf8_len(s.take(k)) <= max ==> k <= longest_prefix(s, max).len(),
        utf8_len(s) <= max ==> longest_prefix(s, max) == s,
    decreases s.len(),
{
    lemma_longest_prefix(s, max);
    let kept = longest_prefix(s, max);
    assert(kept =~= s.take(kept.len() as int));
    if s.len() > 0 && utf8_len(s) > max {
        let rest = s.drop_last();
        if k < s.len() {
            assert(rest.take(k) =~= s.take(k));
            law_longest_prefix_is_longest(rest, max, k);
        } else {
            assert(s.take(k) =~= s);
        }
    }
}

/// Text that is cut at the start loses no more than it must: what is kept is a suffix, it
/// takes at most `max` bytes, and no longer suffix does.
pub proof fn law_longest_suffix_is_longest(s: Seq<char>, max: nat, k: int)
    requires
        0 <= k <= s.len(),
    ensures
        longest_suffix(s, max) == s.skip(s.len() - longest_suffix(s, max).len()),
        utf8_len(longest_suffix(s, max)) <= max,
        utf8_len(s.skip(k)) <= max ==> s.len() - k <= longest_suffix(s, max).len(),
        utf8_len(s) <= max ==> longest_suffix(s, max) == s,
    decreases s.len(),
{
    lemma_longest_suffix(s, max);
    let kept = longest_suffix(s, max);
    assert(kept =~= s.skip(s.len() - kept.len()));
    if s.len() > 0 && utf8_len(s) > max {
        let rest = s.drop_first();
        if k > 0 {
            assert(rest.skip(k - 1) =~= s.skip(k));
            law_longest_suffix_is_longest(rest, max, k - 1);
        } else {
            assert(s.skip(0) =~= s);
        }
    }
}

/// A framed text is its header and the end of its body. Where both fit, that is all of the
/// body; where they do not, the notice stands between them and no more of the body is lost
/// than must be.
pub proof fn law_framing_keeps_the_end(
    header: Seq<char>,
    notice: Seq<char>,
    body: Seq<char>,
    cap: nat,
    k: int,
)
    requires
        utf8_len(header) + utf8_len(notice) <= cap,
        0 <= k <= body.len(),
    ensures
        utf8_len(framed(header, notice, body, cap)) <= cap,
        utf8_len(header) + utf8_len(body) <= cap ==> framed(header, notice, body, cap) == header
            + body,
        utf8_len(header) + utf8_len(body) > cap ==> exists|n: int|
            {
                &&& 0 <= n <= body.len()
                &&& framed(header, notice, body, cap) == header + notice + #[trigger] body.skip(n)
                &&& utf8_len(header) + utf8_len(notice) + utf8_len(body.skip(k)) <= cap ==> n <= k
            },
{
    let room = (cap - utf8_len(header) - utf8_len(notice)) as nat;
    lemma_framed_fits(header, notice, body, cap);
    law_longest_suffix_is_longest(body, room, k);
    lemma_longest_suffix(body, room);
    let n = body.len() - longest_suffix(body, room).len();
    assert(longest_suffix(body, room) == body.skip(n));
    if utf8_len(header) + utf8_len(body) > cap {
        assert(framed(header, notice, body, cap) == header + notice + body.skip(n));
    }
}

/// Joined texts are all there, each of them whole.
pub proof fn law_joining_keeps_the_parts(parts: Seq<Seq<char>>, sep: Seq<char>, i: int)
    requires
        0 <= i < parts.len(),
    ensures
        has_substring(joined(parts, sep), parts[i]),
    decreases parts.len(),
{
    let all = joined(parts, sep);
    let part = parts[i];
    if parts.len() == 1 {
        assert(all.subrange(0, 0 + part.len() as int) =~= part);
        assert(occurs_at(all, part, 0));
    } else {
        let before = joined(parts.drop_last(), sep);
        if i == parts.len() - 1 {
            let p = (before + sep).len() as int;
            assert(all.subrange(p, p + part.len()) =~= part);
            assert(occurs_at(all, part, p));
        } else {
            assert(parts.drop_last()[i] == part);
            law_joining_keeps_the_parts(parts.drop_last(), sep, i);
            let p = choose|p: int| occurs_at(before, part, p);
            assert(all.subrange(p, p + part.len()) =~= before.subrange(p, p + part.len()));
            assert(occurs_at(all, part, p));
        }
    }
}

/// Joining adds the separators between the parts and nothing else.
pub proof fn law_joining_adds_separators(parts: Seq<Seq<char>>, sep: Seq<char>, more: Seq<char>)
    ensures
        joined(seq![more], sep) == more,
        parts.len() > 0 ==> joined(parts.push(more), sep) == joined(parts, sep) + sep + more,
{
    assert(parts.push(more).drop_last() =~= parts);
}

/// `a` followed by `b`.
pub fn text2(a: &str, b: &str) -> (s: String)
    ensures
        s@ == a@ + b@,
{
    let mut out = a.to_owned();
    out.append(b);
    out
}

/// `a`, `b` and `c`, one after the other.
pub fn text3(a: &str, b: &str, c: &str) -> (s: String)
    ensures
        s@ == a@ + b@ + c@,
{
    let mut out = text2(a, b);
    out.append(c);
    out
}

/// `a`, `b`, `c` and `d`, one after the other.
pub fn text4(a: &str, b: &str, c: &str, d: &str) -> (s: String)
    ensures
        s@ == a@ + b@ + c@ + d@,
{
    let mut out = text3(a, b, c);
    out.append(d);
    out
}

/// `a`, the decimal form of `n` and `b`, one after the other.
pub fn text_number(a: &str, n: usize, b: &str) -> (s: String)
    ensures
        s@ == a@ + decimal(n as nat) + b@,
{
    let mut out = a.to_owned();
    push_decimal(&mut out, n as u64);
    out.append(b);
    out
}

/// `a` comes before `b` in the order of texts: character by character, and a
/// proper prefix first.
pub open spec fn text_lt(a: Seq<char>, b: Seq<char>) -> bool
    decreases a.len(),
{
    if b.len() == 0 {
        false
    } else if a.len() == 0 {
        true
    } else if a[0] != b[0] {
        (a[0] as int) < (b[0] as int)
    } else {
        text_lt(a.drop_first(), b.drop_first())
    }
}

/// Of two different texts, exactly one comes before the other.
pub proof fn lemma_text_lt_total(a: Seq<char>, b: Seq<char>)
    ensures
        !(text_lt(a, b) && text_lt(b, a)),
        a != b ==> text_lt(a, b) || text_lt(b, a),
        a == b ==> !text_lt(a, b),
    decreases a.len(),
{
    if a.len() > 0 && b.len() > 0 && a[0] == b[0] {
        lemma_text_lt_total(a.drop_first(), b.drop_first());
        if a.drop_first() == b.drop_first() {
            assert(a.len() == b.len());
            assert forall|i: int| 0 <= i < a.len() implies a[i] == b[i] by {
                if i > 0 {
                    assert(a[i] == a.drop_first()[i - 1]);
                    assert(b[i] == b.drop_first()[i - 1]);
                }
            }
            assert(a =~= b);
        }
    } else if a.len() == 0 && b.len() == 0 {
        assert(a =~= b);
    }
}

/// The order of texts is transitive.
pub proof fn lemma_text_lt_trans(a: Seq<char>, b: Seq<char>, c: Seq<char>)
    requires
        text_lt(a, b),
        text_lt(b, c),
    ensures
        text_lt(a, c),
    decreases a.len(),
{
    if a.len() > 0 && a[0] == b[0] && b[0] == c[0] {
        lemma_text_lt_trans(a.drop_first(), b.drop_first(), c.drop_first());
    }
}

fn char_before(c: char, d: char) -> (r: bool)
    ensures
        r == ((c as int) < (d as int)),
{
    (c as u32) < (d as u32)
}

/// Whether `a` comes before `b`.
pub fn text_before(a: &str, b: &str) -> (r: bool)
    ensures
        r == text_lt(a@, b@),
{
    let x = chars_of(a);
    let y = chars_of(b);
    let mut i: usize = 0;
    proof {
        assert(x@.skip(0) =~= x@);
        assert(y@.skip(0) =~= y@);
    }
    while i < x.len() && i < y.len()
        invariant
            i <= x@.len(),
            i <= y@.len(),
            x@ == a@,
            y@ == b@,
            text_lt(a@, b@) == text_lt(x@.skip(i as int), y@.skip(i as int)),
        decreases x.len() - i,
    {
        proof {
            assert(x@.skip(i as int).drop_first() =~= x@.skip(i + 1));
            assert(y@.skip(i as int).drop_first() =~= y@.skip(i + 1));
        }
        if x[i] != y[i] {
            return char_before(x[i], y[i]);
        }
        i += 1;
    }
    i < y.len()
}

/// The words of `s`: its longest runs of characters that are not white space.
pub open spec fn words(s: Seq<char>) -> Seq<Seq<char>>
    decreases s.len(),
{
    if s.len() == 0 {
        Seq::empty()
    } else {
        let before = words(s.drop_last());
        if white_space(s.last()) {
            before
        } else if s.len() > 1 && !white_space(s[s.len() - 2]) && before.len() > 0 {
            before.drop_last().push(before.last().push(s.last()))
        } else {
            before.push(seq![s.last()])
        }
    }
}

/// Splits `s` into its words.
pub fn split_words(s: &str) -> (r: Vec<String>)
    ensures
        texts(r@) == words(s@),
{
    let chars = chars_of(s);
    let mut out: Vec<String> = Vec::new();
    let mut current = String::new();
    let mut in_word = false;
    let mut i: usize = 0;
    proof {
        assert(texts(out@) =~= words(s@.take(0)));
    }
    while i < chars.len()
        invariant
            i <= chars@.len(),
            chars@ == s@,
            in_word == (i > 0 && !white_space(s@[i - 1])),
            !in_word ==> current@.len() == 0,
            words(s@.take(i as int)) == if in_word {
                texts(out@).push(current@)
            } else {
                texts(out@)
            },
        decreases chars.len() - i,
    {
        let ghost before = s@.take(i as int);
        let ghost after = s@.take(i + 1);
        let ghost had = current@;
        let ghost done = texts(out@);
        proof {
            assert(after.drop_last() =~= before);
            assert(after.last() == s@[i as int]);
            if i > 0 {
                assert(after[after.len() - 2] == s@[i - 1]);
            }
        }
        let c = chars[i];
        if is_white_space(c) {
            if in_word {
                out.push(current);
                current = String::new();
                proof {
                    assert(texts(out@) =~= done.push(had));
                }
            }
            in_word = false;
        } else {
            current.push(c);
            proof {
                if in_word {
                    assert(done.push(had).drop_last() =~= done);
                } else {
                    assert(current@ =~= seq![c]);
                }
            }
            in_word = true;
        }
        i += 1;
    }
    let ghost had = current@;
    let ghost done = texts(out@);
    if in_word {
        out.push(current);
        proof {
            assert(texts(out@) =~= done.push(had));
        }
    }
    proof {
        assert(s@.take(s@.len() as int) =~= s@);
    }
    out
}

/// `String::from_utf8`: the text that `bytes` encode, and nothing where they are
/// not UTF-8.
#[verifier::external_body]
pub(crate) fn text_of_utf8(bytes: Vec<u8>) -> (r: Option<String>)
    ensures
        match r {
            Some(s) => valid_utf8(bytes@) && s@ == decode_utf8(bytes@),
            None => !valid_utf8(bytes@),
        },
{
    String::from_utf8(bytes).ok()
}

/// What `String::from_utf8_lossy` makes of bytes.
pub uninterp spec fn lossy_text(bytes: Seq<u8>) -> Seq<char>;

/// `String::from_utf8_lossy`: the text that `bytes` encode. What is not UTF-8 in
/// them is replaced, by a rule that depends on the bytes alone.
#[verifier::external_body]
pub(crate) fn text_of_lossy(bytes: &Vec<u8>) -> (s: String)
    ensures
        s@ == lossy_text(bytes@),
        valid_utf8(bytes@) ==> s@ == decode_utf8(bytes@),
{
    String::from_utf8_lossy(bytes).into_owned()
}

/// Texts are ordered as in a dictionary: by the first character in which they differ, and a
/// text before all that it begins.
pub proof fn law_texts_are_in_dictionary_order(
    head: Seq<char>,
    c: char,
    d: char,
    x: Seq<char>,
    y: Seq<char>,
)
    requires
        (c as int) < (d as int),
    ensures
        text_lt(head + seq![c] + x, head + seq![d] + y),
        text_lt(head, head + seq![d] + y),
    decreases head.len(),
{
    let a = head + seq![c] + x;
    let b = head + seq![d] + y;
    if head.len() > 0 {
        let rest = head.drop_first();
        assert(a.drop_first() =~= rest + seq![c] + x);
        assert(b.drop_first() =~= rest + seq![d] + y);
        law_texts_are_in_dictionary_order(rest, c, d, x, y);
        assert(a[0] == head[0] && b[0] == head[0]);
    } else {
        assert(a[0] == c && b[0] == d);
    }
}

proof fn lemma_ends_in_a_word(s: Seq<char>)
    requires
        s.len() > 0,
        !white_space(s.last()),
    ensures
        words(s).len() > 0,
{
}

/// A text without white space is one word, and one without characters none.
pub proof fn law_unbroken_text_is_one_word(s: Seq<char>)
    requires
        forall|i: int| 0 <= i < s.len() ==> !white_space(#[trigger] s[i]),
    ensures
        s.len() > 0 ==> words(s) == seq![s],
        s.len() == 0 ==> words(s).len() == 0,
    decreases s.len(),
{
    if s.len() > 0 {
        let rest = s.drop_last();
        assert forall|i: int| 0 <= i < rest.len() implies !white_space(#[trigger] rest[i]) by {
            assert(rest[i] == s[i]);
        }
        law_unbroken_text_is_one_word(rest);
        assert(s[s.len() - 1] == s.last());
        if rest.len() > 0 {
            assert(s[s.len() - 2] == rest.last());
            assert(rest.push(s.last()) =~= s);
            assert(words(s) =~= seq![s]);
        } else {
            assert(seq![s.last()] =~= s);
            assert(words(s) =~= seq![s]);
        }
    }
}

/// White space parts words: the words of two texts with white space between them are those of
/// the one and those of the other.
pub proof fn law_white_space_parts_words(a: Seq<char>, c: char, b: Seq<char>)
    requires
        white_space(c),
    ensures
        words(a.push(c) + b) == words(a) + words(b),
    decreases b.len(),
{
    let s = a.push(c) + b;
    if b.len() == 0 {
        assert(s =~= a.push(c));
        assert(s.drop_last() =~= a);
        assert(words(a) + words(b) =~= words(a));
    } else {
        let less = b.drop_last();
        law_white_space_parts_words(a, c, less);
        assert(s.drop_last() =~= a.push(c) + less);
        assert(s.last() == b.last());
        let before = words(s.drop_last());
        if !white_space(b.last()) {
            if b.len() > 1 && !white_space(b[b.len() - 2]) {
                assert(less.last() == b[b.len() - 2]);
                lemma_ends_in_a_word(less);
                assert(s[s.len() - 2] == b[b.len() - 2]);
                assert(before.last() == words(less).last());
                assert(words(s) =~= words(a) + words(b));
            } else {
                assert(white_space(s[s.len() - 2])) by {
                    if b.len() == 1 {
                        assert(s[s.len() - 2] == c);
                    } else {
                        assert(s[s.len() - 2] == b[b.len() - 2]);
                    }
                }
                assert(words(s) =~= words(a) + words(b));
            }
        } else {
            assert(words(s) =~= words(a) + words(b));
        }
    }
}

/// Where header and notice alone fill the cap, nothing of a body that does not fit is kept.
pub proof fn law_framing_without_room_keeps_no_body(
    header: Seq<char>,
    notice: Seq<char>,
    body: Seq<char>,
    cap: nat,
)
    requires
        utf8_len(header) + utf8_len(body) > cap,
        utf8_len(header) + utf8_len(notice) >= cap,
    ensures
        framed(header, notice, body, cap) == header + notice,
{
    let tail = longest_suffix(body, 0);
    lemma_longest_suffix(body, 0);
    lemma_utf8_len_at_least_chars(tail);
    assert(framed(header, notice, body, cap) =~= header + notice);
}

} // verus!

use vstd::prelude::*;
use vstd::utf8::{
    char_is_scalar, encode_scalar, encode_utf8, encode_utf8_first_scalar, encode_utf8_valid_utf8,
    is_char_boundary, pop_first_scalar,
};

verus! {

/// Whether `n` is a Unicode scalar value, that is the code of some `char`.
pub open spec fn is_scalar_value(n: u32) -> bool {
    n <= 0xD7FF || (0xE000 <= n && n <= 0x10FFFF)
}

/// What `char::is_alphanumeric` answers for `c`: membership in the Unicode
/// categories of letters and numbers.
pub uninterp spec fn alphanumeric(c: char) -> bool;

/// What `char::is_whitespace` answers for `c`: the Unicode `White_Space`
/// property.
pub uninterp spec fn whitespace(c: char) -> bool;

/// Whether `c` is one of the ASCII letters and digits.
pub open spec fn ascii_alphanumeric(c: char) -> bool {
    ||| 0x30 <= c as u32 <= 0x39
    ||| 0x41 <= c as u32 <= 0x5A
    ||| 0x61 <= c as u32 <= 0x7A
}

/// Whether `c` is one of the ASCII characters with the property
/// `White_Space`: the space, and the five from the tab to the carriage
/// return.
pub open spec fn ascii_whitespace(c: char) -> bool {
    c as u32 == 0x20 || 0x09 <= c as u32 <= 0x0D
}

/// Whether `c` is a letter or a digit: for an ASCII character one of the
/// ASCII letters and digits, and else what Unicode says.
pub open spec fn letter_or_digit(c: char) -> bool {
    if (c as u32) < 0x80 {
        ascii_alphanumeric(c)
    } else {
        alphanumeric(c)
    }
}

/// Whether `c` is white space: for an ASCII character one of the six of
/// `ascii_whitespace`, and else what Unicode says.
pub open spec fn blank(c: char) -> bool {
    if (c as u32) < 0x80 {
        ascii_whitespace(c)
    } else {
        whitespace(c)
    }
}

/// Calls `char::is_alphanumeric`. The answer is a fixed property of the
/// character, known here by its name `alphanumeric`; of the ASCII
/// characters exactly the letters and the digits have it.
#[verifier::external_body]
fn alphanumeric_char(c: char) -> (r: bool)
    ensures
        r == alphanumeric(c),
        (c as u32) < 0x80 ==> r == ascii_alphanumeric(c),
{
    c.is_alphanumeric()
}

/// Calls `char::is_whitespace`. The answer is a fixed property of the
/// character, known here by its name `whitespace`; of the ASCII characters
/// exactly the space and the five from the tab to the carriage return have
/// it.
#[verifier::external_body]
fn whitespace_char(c: char) -> (r: bool)
    ensures
        r == whitespace(c),
        (c as u32) < 0x80 ==> r == ascii_whitespace(c),
{
    c.is_whitespace()
}

/// Whether `c` is a letter or a digit.
pub fn is_alphanumeric(c: char) -> (r: bool)
    ensures
        r == letter_or_digit(c),
{
    alphanumeric_char(c)
}

/// Whether `c` is white space.
pub fn is_whitespace(c: char) -> (r: bool)
    ensures
        r == blank(c),
{
    whitespace_char(c)
}

/// The `Debug` form of a text: the text between double quotes, with an
/// escape in place of each character that cannot stand there as it is.
pub uninterp spec fn quoted(s: Seq<char>) -> Seq<char>;

/// Formats `s` with `format!` and `{:?}`, that is with `<str as Debug>::fmt`.
/// The text depends on `s` alone, and is known here only by its name
/// `quoted`.
#[verifier::external_body]
pub(crate) fn quote(s: &str) -> (r: String)
    ensures
        r@ == quoted(s@),
{
    format!("{:?}", s)
}

/// Calls `char::from_u32`, which gives the character with code `n` when `n`
/// is a Unicode scalar value and nothing otherwise.
#[verifier::external_body]
pub(crate) fn char_from_code(n: u32) -> (r: Option<char>)
    ensures
        is_scalar_value(n) ==> r == Some(n as char),
        !is_scalar_value(n) ==> r.is_none(),
{
    char::from_u32(n)
}

/// Collects the characters of `chars` into a `String` through `String`'s
/// `FromIterator<char>`: the string holds exactly those characters, in order.
#[verifier::external_body]
fn collected(chars: &[char]) -> (r: String)
    ensures
        r@ == chars@,
{
    chars.iter().collect()
}

/// The string of the characters `chars[from..to]`.
pub(crate) fn string_from(chars: &[char], from: usize, to: usize) -> (r: String)
    requires
        from <= to <= chars@.len(),
    ensures
        r@ == chars@.subrange(from as int, to as int),
{
    collected(vstd::slice::slice_subrange(chars, from, to))
}

/// The characters of a string slice, in order.
pub fn to_chars(s: &str) -> (v: Vec<char>)
    ensures
        v@ == s@,
{
    let mut v: Vec<char> = Vec::new();
    for c in it: s.chars()
        invariant
            v@ == it.seq().take(it.index@),
    {
        v.push(c);
    }
    v
}

/// The value of `c` as a digit in the given radix: `0`-`9`, then the letters
/// of either case counting from ten. `None` when `c` is no such digit.
pub open spec fn digit_of(c: char, radix: u32) -> Option<u32> {
    let n = c as u32;
    let v: u32 = if 0x30 <= n && n <= 0x39 {
        (n - 0x30) as u32
    } else if 0x61 <= n && n <= 0x7A {
        (n - 0x61 + 10) as u32
    } else if 0x41 <= n && n <= 0x5A {
        (n - 0x41 + 10) as u32
    } else {
        radix
    };
    if v < radix {
        Some(v)
    } else {
        None
    }
}

pub fn digit_value(c: char, radix: u32) -> (r: Option<u32>)
    ensures
        r == digit_of(c, radix),
{
    let n: u32 = c as u32;
    let v: u32 = if 0x30 <= n && n <= 0x39 {
        n - 0x30
    } else if 0x61 <= n && n <= 0x7A {
        n - 0x61 + 10
    } else if 0x41 <= n && n <= 0x5A {
        n - 0x41 + 10
    } else {
        radix
    };
    if v < radix {
        Some(v)
    } else {
        None
    }
}

/// Whether `c` is one of the ten ASCII digits.
pub open spec fn is_decimal_digit(c: char) -> bool {
    0x30 <= c as u32 && c as u32 <= 0x39
}

/// Whether the characters `a[from..to]` spell `word`.
pub fn spells(a: &[char], from: usize, to: usize, word: &str) -> (r: bool)
    requires
        from <= to <= a@.len(),
    ensures
        r == (a@.subrange(from as int, to as int) == word@),
{
    let n = word.unicode_len();
    if n != to - from {
        return false;
    }
    let mut i: usize = 0;
    while i < n
        invariant
            from <= to <= a@.len(),
            n == to - from,
            n == word@.len(),
            i <= n,
            forall|j: int| 0 <= j < i ==> a@[from + j] == word@[j],
        decreases n - i,
    {
        if a[from + i] != word.get_char(i) {
            assert(a@.subrange(from as int, to as int)[i as int] != word@[i as int]);
            return false;
        }
        i += 1;
    }
    assert(a@.subrange(from as int, to as int) =~= word@);
    true
}

/// How many bytes the character `c` takes in UTF-8.
pub open spec fn width(c: char) -> nat {
    if (c as u32) < 0x80 {
        1
    } else if (c as u32) < 0x800 {
        2
    } else if (c as u32) < 0x10000 {
        3
    } else {
        4
    }
}

/// How many bytes the text `s` takes in UTF-8.
pub open spec fn byte_len(s: Seq<char>) -> nat {
    encode_utf8(s).len()
}

/// A character takes as many bytes as its encoding has.
pub proof fn lemma_width(c: char)
    ensures
        encode_scalar(c as u32).len() == width(c),
        1 <= width(c) <= 4,
{
    char_is_scalar(c);
}

/// A text takes the bytes of its first character and those of the rest.
pub proof fn lemma_byte_len_first(s: Seq<char>)
    requires
        s.len() > 0,
    ensures
        byte_len(s) == width(s[0]) + byte_len(s.drop_first()),
{
    lemma_width(s[0]);
}

/// Two texts in a row take the bytes of both.
pub proof fn lemma_byte_len_concat(a: Seq<char>, b: Seq<char>)
    ensures
        byte_len(a + b) == byte_len(a) + byte_len(b),
    decreases a.len(),
{
    if a.len() == 0 {
        assert(a + b =~= b);
    } else {
        assert((a + b).drop_first() =~= a.drop_first() + b);
        lemma_byte_len_first(a + b);
        lemma_byte_len_first(a);
        lemma_byte_len_concat(a.drop_first(), b);
    }
}

/// A part of a text takes the bytes of its two halves, wherever it is cut.
pub proof fn lemma_byte_len_split(s: Seq<char>, i: int, j: int, k: int)
    requires
        0 <= i <= j <= k <= s.len(),
    ensures
        byte_len(s.subrange(i, k)) == byte_len(s.subrange(i, j)) + byte_len(s.subrange(j, k)),
{
    assert(s.subrange(i, k) =~= s.subrange(i, j) + s.subrange(j, k));
    lemma_byte_len_concat(s.subrange(i, j), s.subrange(j, k));
}

/// A text takes at least one byte for each character, and four at most.
pub proof fn lemma_byte_len_bounds(s: Seq<char>)
    ensures
        s.len() <= byte_len(s) <= 4 * s.len(),
    decreases s.len(),
{
    if s.len() > 0 {
        lemma_byte_len_first(s);
        lemma_width(s[0]);
        lemma_byte_len_bounds(s.drop_first());
    }
}

/// The bytes of the first characters of a text end where a character of
/// the text ends: at a character boundary of its bytes.
pub proof fn lemma_byte_len_is_boundary(s: Seq<char>, k: int)
    requires
        0 <= k <= s.len(),
    ensures
        byte_len(s.subrange(0, k)) <= byte_len(s),
        is_char_boundary(encode_utf8(s), byte_len(s.subrange(0, k)) as int),
    decreases k,
{
    lemma_byte_len_split(s, 0, k, s.len() as int);
    assert(s.subrange(0, s.len() as int) =~= s);
    encode_utf8_valid_utf8(s);
    if k == 0 {
        assert(s.subrange(0, 0) =~= Seq::<char>::empty());
    } else {
        let bytes = encode_utf8(s);
        let rest = s.drop_first();
        encode_utf8_first_scalar(s);
        lemma_width(s[0]);
        assert(pop_first_scalar(bytes) =~= encode_utf8(rest));
        lemma_byte_len_first(s.subrange(0, k));
        assert(s.subrange(0, k).drop_first() =~= rest.subrange(0, k - 1));
        lemma_byte_len_is_boundary(rest, k - 1);
    }
}

/// How many bytes the character `c` takes in UTF-8.
pub fn width_of(c: char) -> (r: usize)
    ensures
        r == width(c),
{
    let n: u32 = c as u32;
    if n < 0x80 {
        1
    } else if n < 0x800 {
        2
    } else if n < 0x10000 {
        3
    } else {
        4
    }
}

/// How many bytes the characters `chars[from..to]` take in UTF-8.
pub fn byte_length(chars: &[char], from: usize, to: usize) -> (r: usize)
    requires
        from <= to <= chars@.len(),
        byte_len(chars@.subrange(from as int, to as int)) <= usize::MAX,
    ensures
        r == byte_len(chars@.subrange(from as int, to as int)),
{
    let mut r: usize = 0;
    let mut k: usize = from;
    proof {
        assert(chars@.subrange(from as int, from as int) =~= Seq::<char>::empty());
    }
    while k < to
        invariant
            from <= k <= to <= chars@.len(),
            r == byte_len(chars@.subrange(from as int, k as int)),
            byte_len(chars@.subrange(from as int, to as int)) <= usize::MAX,
        decreases to - k,
    {
        proof {
            lemma_byte_len_split(chars@, from as int, k as int, k + 1);
            lemma_byte_len_split(chars@, from as int, k + 1, to as int);
            assert(chars@.subrange(k as int, k + 1) =~= seq![chars@[k as int]]);
            lemma_byte_len_first(chars@.subrange(k as int, k + 1));
            assert(chars@.subrange(k as int, k + 1).drop_first() =~= Seq::<char>::empty());
        }
        r += width_of(chars[k]);
        k += 1;
    }
    r
}

} // verus!

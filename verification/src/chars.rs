use vstd::prelude::*;

verus! {

broadcast use vstd::string::axiom_spec_iter;

/// Number of bytes that UTF-8 uses for `c` (what `char::len_utf8` returns).
pub open spec fn utf8_len(c: char) -> nat {
    if (c as u32) < 0x80 {
        1
    } else if (c as u32) < 0x800 {
        2
    } else if (c as u32) < 0x10000 {
        3
    } else {
        4
    }
}

/// Byte offset, in the UTF-8 encoding of `chars`, of the character at index `i`.
pub open spec fn byte_pos(chars: Seq<char>, i: int) -> nat
    decreases i,
{
    if i <= 0 || i > chars.len() {
        0
    } else {
        byte_pos(chars, i - 1) + utf8_len(chars[i - 1])
    }
}

pub proof fn lemma_byte_pos_bounds(chars: Seq<char>, i: int)
    requires
        0 <= i <= chars.len(),
    ensures
        i <= byte_pos(chars, i) <= 4 * i,
    decreases i,
{
    if i > 0 {
        lemma_byte_pos_bounds(chars, i - 1);
    }
}

pub proof fn lemma_byte_pos_monotone(chars: Seq<char>, i: int, j: int)
    requires
        0 <= i <= j <= chars.len(),
    ensures
        byte_pos(chars, i) <= byte_pos(chars, j),
    decreases j,
{
    if i < j {
        lemma_byte_pos_monotone(chars, i, j - 1);
    }
}

pub fn char_len_utf8(c: char) -> (n: usize)
    ensures
        n as nat == utf8_len(c),
{
    let v = c as u32;
    if v < 0x80 {
        1
    } else if v < 0x800 {
        2
    } else if v < 0x10000 {
        3
    } else {
        4
    }
}

/// The characters of `s`, in order.
pub fn str_chars(s: &str) -> (v: Vec<char>)
    ensures
        v@ == s@,
{
    let mut v: Vec<char> = Vec::new();
    for c in iter: s.chars()
        invariant
            v@ == iter.seq().take(iter.index() as int),
            iter.seq() == s@,
    {
        v.push(c);
    }
    v
}

/// A string holding exactly the characters of `cs`.
pub fn string_from_chars(cs: &Vec<char>) -> (s: String)
    ensures
        s@ == cs@,
{
    let mut s = String::new();
    let mut i: usize = 0;
    while i < cs.len()
        invariant
            i <= cs.len(),
            s@ == cs@.take(i as int),
        decreases cs.len() - i,
    {
        s.push(cs[i]);
        proof {
            assert(cs@.take(i as int).push(cs@[i as int]) =~= cs@.take(i + 1));
        }
        i = i + 1;
    }
    proof {
        assert(cs@.take(cs.len() as int) =~= cs@);
    }
    s
}

pub open spec fn is_ascii_digit(c: char) -> bool {
    '0' <= c && c <= '9'
}

pub open spec fn is_ascii_letter(c: char) -> bool {
    ('a' <= c && c <= 'z') || ('A' <= c && c <= 'Z')
}

/// What `char::is_ascii_digit` returns.
pub fn char_is_ascii_digit(c: char) -> (r: bool)
    ensures
        r == is_ascii_digit(c),
{
    '0' <= c && c <= '9'
}

/// Whether `c` has the Unicode `Alphabetic` property.
pub uninterp spec fn unicode_alphabetic(c: char) -> bool;

/// Whether `c` has the Unicode `Alphabetic` property or a numeric general category.
pub uninterp spec fn unicode_alphanumeric(c: char) -> bool;

/// Calls `char::is_alphabetic`, whose result depends on `c` alone. Its
/// documentation gives, for ASCII characters, exactly the letters a-z and
/// A-Z; the Unicode tables for the rest are left unstated.
#[verifier::external_body]
pub fn char_is_alphabetic(c: char) -> (r: bool)
    ensures
        r == unicode_alphabetic(c),
        (c as u32) < 128 ==> (r <==> is_ascii_letter(c)),
{
    c.is_alphabetic()
}

/// Calls `char::is_alphanumeric`, which is documented as `is_alphabetic() ||
/// is_numeric()`; for ASCII that is exactly the letters and the digits 0-9.
#[verifier::external_body]
pub fn char_is_alphanumeric(c: char) -> (r: bool)
    ensures
        r == unicode_alphanumeric(c),
        unicode_alphabetic(c) ==> r,
        (c as u32) < 128 ==> (r <==> (is_ascii_letter(c) || is_ascii_digit(c))),
{
    c.is_alphanumeric()
}

} // verus!

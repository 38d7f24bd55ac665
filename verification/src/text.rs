use vstd::prelude::*;

verus! {

/// `String::push` appends one character.
pub assume_specification[ String::push ](s: &mut String, ch: char)
    ensures
        final(s)@ == old(s)@.push(ch),
;

/// The decimal digit character for `d` (0 to 9).
pub open spec fn digit_char(d: nat) -> char {
    if d == 0 { '0' }
    else if d == 1 { '1' }
    else if d == 2 { '2' }
    else if d == 3 { '3' }
    else if d == 4 { '4' }
    else if d == 5 { '5' }
    else if d == 6 { '6' }
    else if d == 7 { '7' }
    else if d == 8 { '8' }
    else { '9' }
}

/// The decimal text of a natural number, without leading zeros.
pub open spec fn nat_text(n: nat) -> Seq<char>
    decreases n,
{
    if n < 10 {
        seq![digit_char(n)]
    } else {
        nat_text(n / 10).push(digit_char(n % 10))
    }
}

/// The decimal text of a number has at least one digit.
pub proof fn lemma_nat_text_len(n: nat)
    ensures
        nat_text(n).len() >= 1,
        n >= 10 ==> nat_text(n).len() >= 2,
    decreases n,
{
    if n >= 10 {
        lemma_nat_text_len(n / 10);
    }
}

/// Different numbers have different decimal texts.
pub proof fn lemma_nat_text_injective(a: nat, b: nat)
    requires
        nat_text(a) == nat_text(b),
    ensures
        a == b,
    decreases a + b,
{
    lemma_nat_text_len(a);
    lemma_nat_text_len(b);
    if a < 10 && b < 10 {
        assert(nat_text(a)[0] == digit_char(a) && nat_text(b)[0] == digit_char(b));
    } else if a >= 10 && b >= 10 {
        lemma_nat_text_len(a / 10);
        lemma_nat_text_len(b / 10);
        assert(nat_text(a).last() == digit_char(a % 10));
        assert(nat_text(b).last() == digit_char(b % 10));
        assert(a % 10 == b % 10);
        assert(nat_text(a / 10) =~= nat_text(a).drop_last());
        assert(nat_text(b / 10) =~= nat_text(b).drop_last());
        lemma_nat_text_injective(a / 10, b / 10);
    } else {
        assert(nat_text(a).len() != nat_text(b).len());
    }
}

/// The decimal text of an integer, with a leading '-' when negative.
pub open spec fn int_text(n: int) -> Seq<char> {
    if n < 0 {
        seq!['-'] + nat_text((-n) as nat)
    } else {
        nat_text(n as nat)
    }
}

pub fn digit_to_char(d: u64) -> (c: char)
    requires
        d < 10,
    ensures
        c == digit_char(d as nat),
{
    if d == 0 { '0' }
    else if d == 1 { '1' }
    else if d == 2 { '2' }
    else if d == 3 { '3' }
    else if d == 4 { '4' }
    else if d == 5 { '5' }
    else if d == 6 { '6' }
    else if d == 7 { '7' }
    else if d == 8 { '8' }
    else { '9' }
}

/// The decimal text of `n`.
pub fn u64_to_string(n: u64) -> (s: String)
    ensures
        s@ == nat_text(n as nat),
    decreases n,
{
    if n < 10 {
        let mut s = String::new();
        s.push(digit_to_char(n));
        proof {
            assert(s@ =~= seq![digit_char(n as nat)]);
        }
        s
    } else {
        let mut s = u64_to_string(n / 10);
        s.push(digit_to_char(n % 10));
        s
    }
}

/// The decimal text of `n`.
pub fn usize_to_string(n: usize) -> (s: String)
    ensures
        s@ == nat_text(n as nat),
{
    u64_to_string(n as u64)
}

/// The decimal text of `n`, with a leading '-' when negative.
pub fn i64_to_string(n: i64) -> (s: String)
    ensures
        s@ == int_text(n as int),
{
    if n < 0 {
        let m: u64 = (0i128 - n as i128) as u64;
        let t = u64_to_string(m);
        let mut s = String::from_str("-");
        s.append(t.as_str());
        proof {
            reveal_strlit("-");
            assert(s@ =~= seq!['-'] + nat_text((-n) as nat));
        }
        s
    } else {
        u64_to_string(n as u64)
    }
}

/// A prefix of `a` is a prefix of `a` with more text after it.
pub proof fn lemma_prefix_extend(p: Seq<char>, a: Seq<char>, b: Seq<char>)
    requires
        p.is_prefix_of(a),
    ensures
        p.is_prefix_of(a + b),
{
    assert((a + b).subrange(0, p.len() as int) =~= a.subrange(0, p.len() as int));
}

/// A prefix of `a` is a prefix of `a` with one more character.
pub proof fn lemma_prefix_push(p: Seq<char>, a: Seq<char>, c: char)
    requires
        p.is_prefix_of(a),
    ensures
        p.is_prefix_of(a.push(c)),
{
    assert(a.push(c).subrange(0, p.len() as int) =~= a.subrange(0, p.len() as int));
}

pub proof fn lemma_prefix_trans(a: Seq<char>, b: Seq<char>, c: Seq<char>)
    requires
        a.is_prefix_of(b),
        b.is_prefix_of(c),
    ensures
        a.is_prefix_of(c),
{
    assert(c.subrange(0, a.len() as int) =~= b.subrange(0, a.len() as int));
}

} // verus!

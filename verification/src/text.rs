//! Text building blocks: decimal rendering and character filtering.

use vstd::prelude::*;
use vstd::string::*;

verus! {

/// Appends one character to a string (`String::push`).
#[verifier::external_body]
pub(crate) fn push_char(s: &mut String, c: char)
    ensures
        final(s)@ == old(s)@.push(c),
{
    s.push(c);
}

/// The character of a decimal digit.
pub open spec fn digit_char(d: nat) -> char {
    if d == 0 { '0' }
    else if d == 1 { '1' }
    else if d == 2 { '2' }
    else if d == 3 { '3' }
    else if d == 4 { '4' }
    else if d == 5 { '5' }
    else if d == 6 { '6' }
    else if d == 7 { '7' }
    else if d == 8 { '8' }
    else { '9' }
}

/// The decimal digits of `n`, most significant first, without leading zeros.
pub open spec fn decimal(n: nat) -> Seq<char>
    decreases n,
{
    if n < 10 {
        seq![digit_char(n)]
    } else {
        decimal(n / 10).push(digit_char(n % 10))
    }
}

/// `n` in decimal, padded with leading zeros to at least two digits (`{:02}`).
pub open spec fn decimal_two(n: nat) -> Seq<char> {
    if n < 10 {
        seq!['0', digit_char(n)]
    } else {
        decimal(n)
    }
}

/// `n` in decimal with a leading `-` when it is negative (`{}` on a signed integer).
pub open spec fn signed_decimal(n: int) -> Seq<char> {
    if n < 0 {
        seq!['-'] + decimal((-n) as nat)
    } else {
        decimal(n as nat)
    }
}

/// `s` with every occurrence of `c` taken out, the other characters kept in order.
pub open spec fn without_char(s: Seq<char>, c: char) -> Seq<char>
    decreases s.len(),
{
    if s.len() == 0 {
        seq![]
    } else if s.last() == c {
        without_char(s.drop_last(), c)
    } else {
        without_char(s.drop_last(), c).push(s.last())
    }
}

/// Taking out `c` leaves no `c` behind.
pub proof fn lemma_without_char_has_none(s: Seq<char>, c: char)
    ensures
        !without_char(s, c).contains(c),
    decreases s.len(),
{
    if s.len() > 0 {
        let prev = without_char(s.drop_last(), c);
        lemma_without_char_has_none(s.drop_last(), c);
        if s.last() != c {
            assert(!prev.push(s.last()).contains(c)) by {
                if prev.push(s.last()).contains(c) {
                    let i = choose|i: int| 0 <= i < prev.len() + 1 && prev.push(s.last())[i] == c;
                    assert(prev[i] == c);
                }
            }
        }
    }
}

/// Taking out `c` keeps exactly the characters other than `c`, in order: it
/// is the filter of `s` by `x != c`. A string without `c` comes back
/// unchanged, and the length drops by the number of `c`s.
pub proof fn lemma_without_char_is_filter(s: Seq<char>, c: char)
    ensures
        without_char(s, c) == s.filter(|x: char| x != c),
        !s.contains(c) ==> without_char(s, c) == s,
        without_char(s, c).len() + s.filter(|x: char| x == c).len() == s.len(),
    decreases s.len(),
{
    reveal_with_fuel(Seq::<char>::filter, 1);
    if s.len() > 0 {
        let prev = s.drop_last();
        lemma_without_char_is_filter(prev, c);
        if !s.contains(c) {
            assert(!prev.contains(c)) by {
                if prev.contains(c) {
                    let i = choose|i: int| 0 <= i < prev.len() && prev[i] == c;
                    assert(s[i] == c);
                }
            }
            assert(s.last() != c) by {
                assert(s[s.len() - 1] == s.last());
            }
            assert(prev.push(s.last()) == s);
        }
    }
}

fn digit(d: u64) -> (c: char)
    requires
        d < 10,
    ensures
        c == digit_char(d as nat),
{
    if d == 0 { '0' }
    else if d == 1 { '1' }
    else if d == 2 { '2' }
    else if d == 3 { '3' }
    else if d == 4 { '4' }
    else if d == 5 { '5' }
    else if d == 6 { '6' }
    else if d == 7 { '7' }
    else if d == 8 { '8' }
    else { '9' }
}

/// Appends the decimal digits of `n`.
pub fn push_decimal(s: &mut String, n: u64)
    ensures
        final(s)@ == old(s)@ + decimal(n as nat),
    decreases n,
{
    if n >= 10 {
        push_decimal(s, n / 10);
    }
    let d = digit(n % 10);
    push_char(s, d);
}

/// Appends `n` in decimal, padded to at least two digits.
pub fn push_decimal_two(s: &mut String, n: u32)
    ensures
        final(s)@ == old(s)@ + decimal_two(n as nat),
{
    if n < 10 {
        push_char(s, '0');
    }
    push_decimal(s, n as u64);
}

/// Appends `n` in decimal, with a leading `-` when it is negative.
pub fn push_signed_decimal(s: &mut String, n: i32)
    ensures
        final(s)@ == old(s)@ + signed_decimal(n as int),
{
    if n < 0 {
        push_char(s, '-');
        let magnitude: i64 = -(n as i64);
        push_decimal(s, magnitude as u64);
    } else {
        push_decimal(s, n as u64);
    }
}

/// A copy of `s` without any occurrence of `c`.
pub fn remove_char(s: &str, c: char) -> (r: String)
    ensures
        r@ == without_char(s@, c),
        r@ == s@.filter(|x: char| x != c),
        !s@.contains(c) ==> r@ == s@,
        !r@.contains(c),
{
    proof {
        lemma_without_char_has_none(s@, c);
        lemma_without_char_is_filter(s@, c);
    }
    let mut r = String::new();
    for x in it: s.chars()
        invariant
            it.seq() == s@,
            r@ == without_char(s@.take(it.index() as int), c),
    {
        assert(s@.take(it.index() + 1).drop_last() == s@.take(it.index() as int));
        if x != c {
            push_char(&mut r, x);
        }
    }
    assert(s@.take(s@.len() as int) == s@);
    r
}

} // verus!

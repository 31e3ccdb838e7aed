//! Character-level text helpers.
//!
//! The crate does its string work over `Vec<char>`, converting from and
//! to `String` at the edges through two thin std wrappers.

use vstd::prelude::*;

verus! {

/// Relies on `str::chars`: the characters of the string, in order.
#[verifier::external_body]
pub fn chars_of(s: &str) -> (v: Vec<char>)
    ensures
        v@ == s@,
{
    s.chars().collect()
}

/// Relies on `String::from_iter`: the string of these characters, in
/// order.
#[verifier::external_body]
pub fn string_of(v: &Vec<char>) -> (s: String)
    ensures
        s@ == v@,
{
    v.iter().collect()
}

/// Appends all of `src` to `dst`.
pub fn extend_chars(dst: &mut Vec<char>, src: &Vec<char>)
    ensures
        final(dst)@ == old(dst)@ + src@,
{
    let mut i: usize = 0;
    while i < src.len()
        invariant
            i <= src@.len(),
            dst@ == old(dst)@ + src@.take(i as int),
        decreases src@.len() - i,
    {
        dst.push(src[i]);
        proof {
            assert(old(dst)@ + src@.take(i + 1) =~= (old(dst)@ + src@.take(i as int)).push(
                src@[i as int],
            ));
        }
        i = i + 1;
    }
    proof {
        assert(src@.take(src@.len() as int) =~= src@);
    }
}

/// The character of one decimal digit.
pub open spec fn digit_char(d: int) -> char {
    if d == 0 { '0' } else if d == 1 { '1' } else if d == 2 { '2' } else if d == 3 { '3' }
    else if d == 4 { '4' } else if d == 5 { '5' } else if d == 6 { '6' } else if d == 7 { '7' }
    else if d == 8 { '8' } else { '9' }
}

/// The decimal representation of a nonnegative number, without leading
/// zeros (a single `'0'` for zero).
pub open spec fn dec_rep(n: int) -> Seq<char>
    decreases n,
{
    if n < 10 {
        seq![digit_char(n)]
    } else {
        dec_rep(n / 10).push(digit_char(n % 10))
    }
}

/// One decimal digit as a character.
pub fn digit_char_exec(d: u64) -> (c: char)
    requires
        d < 10,
    ensures
        c == digit_char(d as int),
{
    match d {
        0 => '0',
        1 => '1',
        2 => '2',
        3 => '3',
        4 => '4',
        5 => '5',
        6 => '6',
        7 => '7',
        8 => '8',
        _ => '9',
    }
}

/// Writes a number in decimal.
pub fn to_decimal(n: u64) -> (v: Vec<char>)
    ensures
        v@ == dec_rep(n as int),
        v@.len() >= 1,
    decreases n,
{
    if n < 10 {
        let mut v: Vec<char> = Vec::new();
        v.push(digit_char_exec(n));
        proof {
            assert(v@ =~= seq![digit_char(n as int)]);
        }
        v
    } else {
        let mut v = to_decimal(n / 10);
        v.push(digit_char_exec(n % 10));
        v
    }
}

/// The decimal representation padded with leading zeros to `width`.
pub open spec fn dec_rep_pad(n: int, width: int) -> Seq<char>
    decreases width - dec_rep(n).len(),
{
    if dec_rep(n).len() >= width {
        dec_rep(n)
    } else {
        seq!['0'] + dec_rep_pad(n, width - 1)
    }
}

/// Writes a number in decimal, left-padded with zeros to `width`.
pub fn to_decimal_pad(n: u64, width: usize) -> (v: Vec<char>)
    requires
        width <= 8,
    ensures
        v@ == dec_rep_pad(n as int, width as int),
{
    let digits = to_decimal(n);
    let mut v: Vec<char> = Vec::new();
    let mut pad: usize = 0;
    proof {
        assert(dec_rep_pad(n as int, width as int).len() == if dec_rep(n as int).len() >= width {
            dec_rep(n as int).len() as int
        } else {
            width as int
        }) by {
            lemma_dec_rep_pad_len(n as int, width as int);
        }
    }
    if digits.len() < width {
        pad = width - digits.len();
    }
    let mut i: usize = 0;
    while i < pad
        invariant
            i <= pad,
            v@.len() == i,
            forall|k: int| #![trigger v@[k]] 0 <= k < i ==> v@[k] == '0',
        decreases pad - i,
    {
        v.push('0');
        i = i + 1;
    }
    extend_chars(&mut v, &digits);
    proof {
        lemma_dec_rep_pad_shape(n as int, width as int);
    }
    v
}

/// Padding never shortens, and the result is zeros followed by digits.
proof fn lemma_dec_rep_pad_len(n: int, width: int)
    ensures
        dec_rep_pad(n, width).len() == if dec_rep(n).len() >= width {
            dec_rep(n).len() as int
        } else {
            width
        },
    decreases width - dec_rep(n).len(),
{
    if dec_rep(n).len() < width {
        lemma_dec_rep_pad_len(n, width - 1);
    }
}

/// The padded form is a run of zeros followed by the bare digits.
proof fn lemma_dec_rep_pad_shape(n: int, width: int)
    ensures
        ({
            let pad = if dec_rep(n).len() >= width { 0int } else { width - dec_rep(n).len() };
            dec_rep_pad(n, width) =~= Seq::<char>::new(pad as nat, |k: int| '0') + dec_rep(n)
        }),
    decreases width - dec_rep(n).len(),
{
    if dec_rep(n).len() < width {
        lemma_dec_rep_pad_shape(n, width - 1);
        let pad = width - dec_rep(n).len();
        assert(Seq::<char>::new(pad as nat, |k: int| '0') =~= seq!['0'] + Seq::<char>::new(
            (pad - 1) as nat,
            |k: int| '0',
        ));
    }
}

} // verus!

//! Small text utilities shared by the parser and the renderer: building
//! strings character by character, converting between `&str` and `Vec<char>`,
//! and rendering numbers as (optionally zero-padded) decimal text.

use vstd::prelude::*;
use vstd::string::StrSliceExecFns;

verus! {

/// Relies on String::push: appends the given character to the end of the
/// string.
#[verifier::external_body]
pub fn push_char(s: &mut String, c: char)
    ensures
        final(s)@ == old(s)@.push(c),
{
    s.push(c);
}

/// A copy of a string with the same characters.
pub fn clone_string(s: &String) -> (r: String)
    ensures
        r@ == s@,
{
    s.clone()
}

/// The characters of `s`, as a vector.
pub fn chars_of(s: &str) -> (r: Vec<char>)
    ensures
        r@ == s@,
{
    let n = s.unicode_len();
    let mut r: Vec<char> = Vec::new();
    let mut i: usize = 0;
    while i < n
        invariant
            n == s@.len(),
            0 <= i <= n,
            r@ == s@.subrange(0, i as int),
        decreases n - i,
    {
        r.push(s.get_char(i));
        proof {
            assert(r@ =~= s@.subrange(0, i + 1));
        }
        i += 1;
    }
    proof {
        assert(r@ =~= s@);
    }
    r
}

/// A string holding exactly the characters `v[from..to]`.
pub fn string_from_range(v: &Vec<char>, from: usize, to: usize) -> (r: String)
    requires
        from <= to <= v@.len(),
    ensures
        r@ == v@.subrange(from as int, to as int),
{
    let mut r = String::new();
    let mut i = from;
    while i < to
        invariant
            from <= i <= to <= v@.len(),
            r@ == v@.subrange(from as int, i as int),
        decreases to - i,
    {
        push_char(&mut r, v[i]);
        proof {
            assert(r@ =~= v@.subrange(from as int, i + 1));
        }
        i += 1;
    }
    r
}

/// The decimal digit character for `d` (`d` is below ten).
pub open spec fn digit_char(d: nat) -> char {
    if d == 0 {
        '0'
    } else if d == 1 {
        '1'
    } else if d == 2 {
        '2'
    } else if d == 3 {
        '3'
    } else if d == 4 {
        '4'
    } else if d == 5 {
        '5'
    } else if d == 6 {
        '6'
    } else if d == 7 {
        '7'
    } else if d == 8 {
        '8'
    } else {
        '9'
    }
}

/// The decimal representation of `n`, most significant digit first, with no
/// leading zeros (a single `0` for zero).
pub open spec fn dec_rep(n: nat) -> Seq<char>
    decreases n,
{
    if n < 10 {
        seq![digit_char(n)]
    } else {
        dec_rep(n / 10).push(digit_char(n % 10))
    }
}

/// `dec_rep(n)` left-padded with `0` to at least `w` characters.
pub open spec fn dec_rep_pad(n: nat, w: nat) -> Seq<char>
    decreases w,
{
    if dec_rep(n).len() >= w {
        dec_rep(n)
    } else {
        seq!['0'] + dec_rep_pad(n, (w - 1) as nat)
    }
}

/// The decimal representation of the possibly negative `v`, zero-padded to
/// width `w`; a minus sign counts toward the width, as in `format!("{:0w$}")`.
pub open spec fn dec_rep_signed(v: int, w: nat) -> Seq<char> {
    if v >= 0 {
        dec_rep_pad(v as nat, w)
    } else {
        seq!['-'] + dec_rep_pad((-v) as nat, if w > 0 { (w - 1) as nat } else { 0 })
    }
}

/// The digit character for `d < 10`, as an executable function.
pub fn digit_char_exec(d: u64) -> (c: char)
    requires
        d < 10,
    ensures
        c == digit_char(d as nat),
{
    if d == 0 {
        '0'
    } else if d == 1 {
        '1'
    } else if d == 2 {
        '2'
    } else if d == 3 {
        '3'
    } else if d == 4 {
        '4'
    } else if d == 5 {
        '5'
    } else if d == 6 {
        '6'
    } else if d == 7 {
        '7'
    } else if d == 8 {
        '8'
    } else {
        '9'
    }
}

/// Appends the decimal representation of `n` to `out`.
pub fn push_dec(out: &mut String, n: u64)
    ensures
        final(out)@ == old(out)@ + dec_rep(n as nat),
    decreases n,
{
    if n >= 10 {
        push_dec(out, n / 10);
    }
    push_char(out, digit_char_exec(n % 10));
    proof {
        if n < 10 {
            assert(final(out)@ =~= old(out)@ + dec_rep(n as nat));
        } else {
            assert(final(out)@ =~= old(out)@ + dec_rep(n as nat));
        }
    }
}

/// The number of decimal digits of `n`, saturating at twenty (more digits
/// than any `u64` value has).
pub fn dec_len(n: u64) -> (r: u64)
    ensures
        1 <= r <= 20,
        r == dec_rep(n as nat).len() || (r == 20 && dec_rep(n as nat).len() >= 20),
    decreases n,
{
    if n < 10 {
        1
    } else {
        let r = dec_len(n / 10);
        if r >= 20 {
            20
        } else {
            r + 1
        }
    }
}

/// Appends the decimal representation of `n`, left-padded with `0` to at
/// least `w` characters, to `out`.
pub fn push_dec_pad(out: &mut String, n: u64, w: u64)
    requires
        w <= 20,
    ensures
        final(out)@ == old(out)@ + dec_rep_pad(n as nat, w as nat),
    decreases w,
{
    let len = dec_len(n);
    if len >= w {
        push_dec(out, n);
        proof {
            assert(final(out)@ =~= old(out)@ + dec_rep_pad(n as nat, w as nat));
        }
    } else {
        push_char(out, '0');
        push_dec_pad(out, n, w - 1);
        proof {
            assert(final(out)@ =~= old(out)@ + dec_rep_pad(n as nat, w as nat));
        }
    }
}

/// Appends the decimal representation of the signed `v`, zero-padded to
/// width `w` (the sign counts toward the width), to `out`.
pub fn push_dec_signed(out: &mut String, v: i64, w: u64)
    requires
        0 < w <= 20,
        i32::MIN <= v <= i32::MAX,
    ensures
        final(out)@ == old(out)@ + dec_rep_signed(v as int, w as nat),
{
    if v >= 0 {
        push_dec_pad(out, v as u64, w);
    } else {
        push_char(out, '-');
        push_dec_pad(out, (-v) as u64, w - 1);
        proof {
            assert(final(out)@ =~= old(out)@ + dec_rep_signed(v as int, w as nat));
        }
    }
}

} // verus!

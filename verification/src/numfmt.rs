//! Rendering of integer literals: decimal for `int` values, lowercase
//! `0x`-prefixed hexadecimal for `hex` values.
use crate::strutil::push_char;
use vstd::prelude::*;

verus! {

/// The character for the digit `d`, in lowercase base sixteen.
pub open spec fn digit_char(d: int) -> char {
    if d == 0 {
        '0'
    } else if d == 1 {
        '1'
    } else if d == 2 {
        '2'
    } else if d == 3 {
        '3'
    } else if d == 4 {
        '4'
    } else if d == 5 {
        '5'
    } else if d == 6 {
        '6'
    } else if d == 7 {
        '7'
    } else if d == 8 {
        '8'
    } else if d == 9 {
        '9'
    } else if d == 10 {
        'a'
    } else if d == 11 {
        'b'
    } else if d == 12 {
        'c'
    } else if d == 13 {
        'd'
    } else if d == 14 {
        'e'
    } else {
        'f'
    }
}

/// The decimal digits of `n`, most significant first, with no padding.
pub open spec fn spec_dec(n: nat) -> Seq<char>
    decreases n,
{
    if n < 10 {
        seq![digit_char(n as int)]
    } else {
        spec_dec((n / 10) as nat).push(digit_char((n % 10) as int))
    }
}

/// The decimal rendering of `i`: a minus sign for negative values, then
/// the digits.
pub open spec fn spec_dec_int(i: int) -> Seq<char> {
    if i < 0 {
        "-"@ + spec_dec((-i) as nat)
    } else {
        spec_dec(i as nat)
    }
}

/// The lowercase hexadecimal digits of `n`, most significant first, with
/// no padding and no prefix.
pub open spec fn spec_hex(n: nat) -> Seq<char>
    decreases n,
{
    if n < 16 {
        seq![digit_char(n as int)]
    } else {
        spec_hex((n / 16) as nat).push(digit_char((n % 16) as int))
    }
}

/// The digit character for `d`, executable form.
fn digit_to_char(d: u64) -> (c: char)
    requires
        d < 16,
    ensures
        c == digit_char(d as int),
{
    if d == 0 {
        '0'
    } else if d == 1 {
        '1'
    } else if d == 2 {
        '2'
    } else if d == 3 {
        '3'
    } else if d == 4 {
        '4'
    } else if d == 5 {
        '5'
    } else if d == 6 {
        '6'
    } else if d == 7 {
        '7'
    } else if d == 8 {
        '8'
    } else if d == 9 {
        '9'
    } else if d == 10 {
        'a'
    } else if d == 11 {
        'b'
    } else if d == 12 {
        'c'
    } else if d == 13 {
        'd'
    } else if d == 14 {
        'e'
    } else {
        'f'
    }
}

/// Turn a sequence of collected characters into a string.
fn chars_to_string(cs: &Vec<char>) -> (s: String)
    ensures
        s@ == cs@,
{
    let mut s = String::new();
    let mut i: usize = 0;
    while i < cs.len()
        invariant
            0 <= i <= cs.len(),
            s@ =~= cs@.take(i as int),
        decreases cs.len() - i,
    {
        push_char(&mut s, cs[i]);
        proof {
            assert(s@ =~= cs@.take(i + 1));
        }
        i = i + 1;
    }
    proof {
        assert(cs@.take(cs@.len() as int) =~= cs@);
    }
    s
}

/// The decimal digits of `n`, as a string.
pub fn format_dec(n: u64) -> (s: String)
    ensures
        s@ == spec_dec(n as nat),
{
    let mut digits: Vec<char> = Vec::new();
    let mut m: u64 = n;
    digits.insert(0, digit_to_char(m % 10));
    m = m / 10;
    proof {
        if m > 0 {
            assert(spec_dec(n as nat) =~= spec_dec(m as nat) + digits@);
        } else {
            assert(spec_dec(n as nat) =~= digits@);
        }
    }
    while m > 0
        invariant
            m > 0 ==> spec_dec(n as nat) =~= spec_dec(m as nat) + digits@,
            m == 0 ==> spec_dec(n as nat) =~= digits@,
        decreases m,
    {
        let ghost m0 = m as nat;
        let ghost ds0 = digits@;
        digits.insert(0, digit_to_char(m % 10));
        m = m / 10;
        proof {
            if m > 0 {
                assert(spec_dec(m0) =~= spec_dec(m as nat).push(digit_char((m0 % 10) as int)));
                assert(spec_dec(m as nat) + digits@ =~= (spec_dec(m as nat).push(
                    digit_char((m0 % 10) as int),
                )) + ds0);
            } else {
                assert(spec_dec(m0) =~= seq![digit_char(m0 as int)]);
                assert(digits@ =~= seq![digit_char(m0 as int)] + ds0);
            }
        }
    }
    chars_to_string(&digits)
}

/// The hexadecimal digits of `n`, as a string, lowercase, without prefix.
pub fn format_hex(n: u64) -> (s: String)
    ensures
        s@ == spec_hex(n as nat),
{
    let mut digits: Vec<char> = Vec::new();
    let mut m: u64 = n;
    digits.insert(0, digit_to_char(m % 16));
    m = m / 16;
    proof {
        if m > 0 {
            assert(spec_hex(n as nat) =~= spec_hex(m as nat) + digits@);
        } else {
            assert(spec_hex(n as nat) =~= digits@);
        }
    }
    while m > 0
        invariant
            m > 0 ==> spec_hex(n as nat) =~= spec_hex(m as nat) + digits@,
            m == 0 ==> spec_hex(n as nat) =~= digits@,
        decreases m,
    {
        let ghost m0 = m as nat;
        let ghost ds0 = digits@;
        digits.insert(0, digit_to_char(m % 16));
        m = m / 16;
        proof {
            if m > 0 {
                assert(spec_hex(m0) =~= spec_hex(m as nat).push(digit_char((m0 % 16) as int)));
                assert(spec_hex(m as nat) + digits@ =~= (spec_hex(m as nat).push(
                    digit_char((m0 % 16) as int),
                )) + ds0);
            } else {
                assert(spec_hex(m0) =~= seq![digit_char(m0 as int)]);
                assert(digits@ =~= seq![digit_char(m0 as int)] + ds0);
            }
        }
    }
    chars_to_string(&digits)
}

/// The decimal rendering of `i`, sign included.
pub fn format_int(i: i64) -> (s: String)
    ensures
        s@ == spec_dec_int(i as int),
{
    if i >= 0 {
        format_dec(i as u64)
    } else {
        let mag: u64 = if i == i64::MIN {
            9223372036854775808u64
        } else {
            (-i) as u64
        };
        proof {
            assert(mag as nat == (-(i as int)) as nat);
        }
        let mut s = "-".to_owned();
        let d = format_dec(mag);
        s.append(d.as_str());
        s
    }
}

} // verus!

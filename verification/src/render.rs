//! Rendering of 256-bit ring addresses: lower-case hex and base-10 decimal.

use vstd::prelude::*;
use vstd::string::StringExecFns;
use crate::u256::U256;

verus! {

/// 16 to the power `j`, for `j` from 0 to 15.
pub open spec fn nibble_scale(j: int) -> int {
    if j == 0 {
        1
    } else if j == 1 {
        0x10
    } else if j == 2 {
        0x100
    } else if j == 3 {
        0x1000
    } else if j == 4 {
        0x10000
    } else if j == 5 {
        0x100000
    } else if j == 6 {
        0x1000000
    } else if j == 7 {
        0x10000000
    } else if j == 8 {
        0x100000000
    } else if j == 9 {
        0x1000000000
    } else if j == 10 {
        0x10000000000
    } else if j == 11 {
        0x100000000000
    } else if j == 12 {
        0x1000000000000
    } else if j == 13 {
        0x10000000000000
    } else if j == 14 {
        0x100000000000000
    } else {
        0x1000000000000000
    }
}

/// The lower-case hex character of a digit value from 0 to 15.
pub open spec fn hex_char(d: int) -> char {
    if d == 0 {
        '0'
    } else if d == 1 {
        '1'
    } else if d == 2 {
        '2'
    } else if d == 3 {
        '3'
    } else if d == 4 {
        '4'
    } else if d == 5 {
        '5'
    } else if d == 6 {
        '6'
    } else if d == 7 {
        '7'
    } else if d == 8 {
        '8'
    } else if d == 9 {
        '9'
    } else if d == 10 {
        'a'
    } else if d == 11 {
        'b'
    } else if d == 12 {
        'c'
    } else if d == 13 {
        'd'
    } else if d == 14 {
        'e'
    } else {
        'f'
    }
}

/// Hex digit `j` of a limb, counted from the least significant digit.
pub open spec fn limb_hex(w: u64, j: int) -> char {
    hex_char(((w as int) / nibble_scale(j)) % 16)
}

/// Hex digit `i` of the whole value, big-endian: digit 0 is the most
/// significant.
pub open spec fn hex_digit_of(a: U256, i: int) -> char {
    if i < 16 {
        limb_hex(a.w3, 15 - i)
    } else if i < 32 {
        limb_hex(a.w2, 31 - i)
    } else if i < 48 {
        limb_hex(a.w1, 47 - i)
    } else {
        limb_hex(a.w0, 63 - i)
    }
}

fn nibble_scale_u64(j: usize) -> (r: u64)
    requires
        j < 16,
    ensures
        r == nibble_scale(j as int),
{
    if j == 0 {
        1
    } else if j == 1 {
        0x10
    } else if j == 2 {
        0x100
    } else if j == 3 {
        0x1000
    } else if j == 4 {
        0x10000
    } else if j == 5 {
        0x100000
    } else if j == 6 {
        0x1000000
    } else if j == 7 {
        0x10000000
    } else if j == 8 {
        0x100000000
    } else if j == 9 {
        0x1000000000
    } else if j == 10 {
        0x10000000000
    } else if j == 11 {
        0x100000000000
    } else if j == 12 {
        0x1000000000000
    } else if j == 13 {
        0x10000000000000
    } else if j == 14 {
        0x100000000000000
    } else {
        0x1000000000000000
    }
}

#[verifier::spinoff_prover]
fn push_hex_char(s: &mut String, d: u64)
    requires
        d < 16,
    ensures
        final(s)@ == old(s)@.push(hex_char(d as int)),
{
    proof {
        reveal_strlit("0");
        reveal_strlit("1");
        reveal_strlit("2");
        reveal_strlit("3");
        reveal_strlit("4");
        reveal_strlit("5");
        reveal_strlit("6");
        reveal_strlit("7");
        reveal_strlit("8");
        reveal_strlit("9");
        reveal_strlit("a");
        reveal_strlit("b");
        reveal_strlit("c");
        reveal_strlit("d");
        reveal_strlit("e");
        reveal_strlit("f");
    }
    let ghost pre = s@;
    if d == 0 {
        s.append("0");
    } else if d == 1 {
        s.append("1");
    } else if d == 2 {
        s.append("2");
    } else if d == 3 {
        s.append("3");
    } else if d == 4 {
        s.append("4");
    } else if d == 5 {
        s.append("5");
    } else if d == 6 {
        s.append("6");
    } else if d == 7 {
        s.append("7");
    } else if d == 8 {
        s.append("8");
    } else if d == 9 {
        s.append("9");
    } else if d == 10 {
        s.append("a");
    } else if d == 11 {
        s.append("b");
    } else if d == 12 {
        s.append("c");
    } else if d == 13 {
        s.append("d");
    } else if d == 14 {
        s.append("e");
    } else {
        s.append("f");
    }
    proof {
        assert(s@ =~= pre.push(hex_char(d as int)));
    }
}

#[verifier::spinoff_prover]
fn push_limb_hex(s: &mut String, w: u64)
    ensures
        final(s)@.len() == old(s)@.len() + 16,
        forall|i: int| 0 <= i < old(s)@.len() ==> #[trigger] final(s)@[i] == old(s)@[i],
        forall|k: int| 0 <= k < 16 ==> final(s)@[old(s)@.len() + k] == #[trigger] limb_hex(w, 15 - k),
{
    let mut j: usize = 0;
    let ghost pre = s@;
    while j < 16
        invariant
            j <= 16,
            s@.len() == pre.len() + j,
            forall|i: int| 0 <= i < pre.len() ==> #[trigger] s@[i] == pre[i],
            forall|k: int| 0 <= k < j ==> s@[pre.len() + k] == #[trigger] limb_hex(w, 15 - k),
        decreases 16 - j,
    {
        let scale = nibble_scale_u64(15 - j);
        let d = (w / scale) % 16;
        push_hex_char(s, d);
        j += 1;
    }
}

/// The 64 lower-case hex digits of a value, most significant first.
pub fn u256_hex(a: &U256) -> (r: String)
    ensures
        r@.len() == 64,
        forall|i: int| 0 <= i < 64 ==> r@[i] == hex_digit_of(*a, i),
{
    let mut s = String::new();
    push_limb_hex(&mut s, a.w3);
    push_limb_hex(&mut s, a.w2);
    push_limb_hex(&mut s, a.w1);
    push_limb_hex(&mut s, a.w0);
    proof {
        assert forall|i: int| 0 <= i < 64 implies s@[i] == hex_digit_of(*a, i) by {
            if i < 16 {
                assert(s@[0 + i] == limb_hex(a.w3, 15 - i));
            } else if i < 32 {
                assert(s@[16 + (i - 16)] == limb_hex(a.w2, 15 - (i - 16)));
            } else if i < 48 {
                assert(s@[32 + (i - 32)] == limb_hex(a.w1, 15 - (i - 32)));
            } else {
                assert(s@[48 + (i - 48)] == limb_hex(a.w0, 15 - (i - 48)));
            }
        }
    }
    s
}

/// The decimal digit character of a value from 0 to 9.
pub open spec fn dec_char(d: int) -> char {
    if d == 0 {
        '0'
    } else if d == 1 {
        '1'
    } else if d == 2 {
        '2'
    } else if d == 3 {
        '3'
    } else if d == 4 {
        '4'
    } else if d == 5 {
        '5'
    } else if d == 6 {
        '6'
    } else if d == 7 {
        '7'
    } else if d == 8 {
        '8'
    } else {
        '9'
    }
}

/// The base-10 digits of a value, most significant first, with no leading
/// zeroes; the single digit "0" for zero.
pub open spec fn dec_digits(n: int) -> Seq<char>
    recommends
        n >= 0,
    decreases n,
{
    if n < 10 {
        seq![dec_char(n)]
    } else {
        dec_digits(n / 10).push(dec_char(n % 10))
    }
}

#[verifier::spinoff_prover]
fn push_dec_char(s: &mut String, d: u64)
    requires
        d < 10,
    ensures
        final(s)@ == old(s)@.push(dec_char(d as int)),
{
    proof {
        reveal_strlit("0");
        reveal_strlit("1");
        reveal_strlit("2");
        reveal_strlit("3");
        reveal_strlit("4");
        reveal_strlit("5");
        reveal_strlit("6");
        reveal_strlit("7");
        reveal_strlit("8");
        reveal_strlit("9");
    }
    let ghost pre = s@;
    if d == 0 {
        s.append("0");
    } else if d == 1 {
        s.append("1");
    } else if d == 2 {
        s.append("2");
    } else if d == 3 {
        s.append("3");
    } else if d == 4 {
        s.append("4");
    } else if d == 5 {
        s.append("5");
    } else if d == 6 {
        s.append("6");
    } else if d == 7 {
        s.append("7");
    } else if d == 8 {
        s.append("8");
    } else {
        s.append("9");
    }
    proof {
        assert(s@ =~= pre.push(dec_char(d as int)));
    }
}

/// Appends the base-10 digits of a value, most significant first, by
/// recurring on the quotient before writing the low digit.
#[verifier::spinoff_prover]
fn append_decimal(x: &U256, s: &mut String)
    ensures
        final(s)@ == old(s)@ + dec_digits(x.as_int()),
    decreases x.as_int(),
{
    let (q, rem) = x.div_rem_u64(10);
    if q == (U256 { w0: 0, w1: 0, w2: 0, w3: 0 }) {
        proof {
            assert(x.as_int() < 10);
            assert(rem == x.as_int());
        }
        push_dec_char(s, rem);
        proof {
            assert(s@ =~= old(s)@ + dec_digits(x.as_int()));
        }
    } else {
        proof {
            assert(x.as_int() >= 10);
            assert(q.as_int() < x.as_int());
        }
        append_decimal(&q, s);
        push_dec_char(s, rem);
        proof {
            assert(s@ =~= old(s)@ + dec_digits(x.as_int()));
        }
    }
}

/// The base-10 digits of a value, as a string.
pub fn u256_decimal(a: &U256) -> (r: String)
    ensures
        r@ == dec_digits(a.as_int()),
{
    let mut s = String::new();
    append_decimal(a, &mut s);
    proof {
        assert(s@ =~= dec_digits(a.as_int()));
    }
    s
}

} // verus!

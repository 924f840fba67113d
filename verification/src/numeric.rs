//! Verified radix parsing and decimal rendering of machine words.  The
//! parser follows the usual rules for unsigned integer literals: an optional
//! leading `+`, then one or more digits of the radix, rejecting anything else
//! and any value that does not fit in sixteen bits.

use vstd::prelude::*;


verus! {

/// The value of one digit character under the given radix, if it is one.
/// Letters count from ten onwards, in either case.
pub open spec fn digit_val(c: char, radix: u16) -> Option<u16> {
    let d: Option<int> = if '0' as u32 <= c as u32 && c as u32 <= '9' as u32 {
        Some(c as u32 - '0' as u32)
    } else if 'a' as u32 <= c as u32 && c as u32 <= 'z' as u32 {
        Some(c as u32 - 'a' as u32 + 10)
    } else if 'A' as u32 <= c as u32 && c as u32 <= 'Z' as u32 {
        Some(c as u32 - 'A' as u32 + 10)
    } else {
        None
    };
    match d {
        Some(v) => if v < radix as int {
            Some(v as u16)
        } else {
            None
        },
        None => None,
    }
}

pub fn digit_val_exec(c: char, radix: u16) -> (r: Option<u16>)
    ensures
        r == digit_val(c, radix),
{
    let d: Option<u32> = if '0' as u32 <= c as u32 && c as u32 <= '9' as u32 {
        Some(c as u32 - '0' as u32)
    } else if 'a' as u32 <= c as u32 && c as u32 <= 'z' as u32 {
        Some(c as u32 - 'a' as u32 + 10)
    } else if 'A' as u32 <= c as u32 && c as u32 <= 'Z' as u32 {
        Some(c as u32 - 'A' as u32 + 10)
    } else {
        None
    };
    match d {
        Some(v) => if v < radix as u32 {
            Some(v as u16)
        } else {
            None
        },
        None => None,
    }
}

/// The value of a digit string under the given radix; the empty string is
/// worth zero, and any non-digit makes the whole string worthless.
pub open spec fn digits_val(s: Seq<char>, radix: u16) -> Option<int>
    decreases s.len(),
{
    if s.len() == 0 {
        Some(0)
    } else {
        match (digits_val(s.drop_last(), radix), digit_val(s.last(), radix)) {
            (Some(v), Some(d)) => Some(v * radix + d),
            _ => None,
        }
    }
}

/// The numeric value of an unsigned integer literal: an optional leading
/// `+`, then at least one digit, small enough for a `u16`.
pub open spec fn parse_u16_radix(s: Seq<char>, radix: u16) -> Option<u16> {
    let t = if s.len() > 0 && s[0] == '+' {
        s.drop_first()
    } else {
        s
    };
    if t.len() == 0 {
        None
    } else {
        match digits_val(t, radix) {
            Some(v) => if v <= u16::MAX {
                Some(v as u16)
            } else {
                None
            },
            None => None,
        }
    }
}

/// A digit-string value never goes down when digits are appended.
proof fn lemma_digits_val_take(s: Seq<char>, radix: u16, i: int)
    requires
        0 <= i <= s.len(),
        digits_val(s, radix) is Some,
        radix >= 2,
    ensures
        digits_val(s.take(i), radix) is Some,
        digits_val(s.take(i), radix)->0 <= digits_val(s, radix)->0,
        digits_val(s, radix)->0 >= 0,
    decreases s.len(),
{
    if s.len() == 0 {
        assert(s.take(i) =~= s);
    } else if i == s.len() {
        assert(s.take(i) =~= s);
        lemma_digits_val_take(s.drop_last(), radix, s.len() - 1);
    } else {
        assert(s.take(s.len() - 1) =~= s.drop_last());
        lemma_digits_val_take(s.drop_last(), radix, i);
        assert(s.drop_last().take(i) =~= s.take(i));
        let v = digits_val(s.drop_last(), radix)->0;
        let d = digit_val(s.last(), radix)->0;
        assert(v * radix >= v * 2) by (nonlinear_arith)
            requires
                radix >= 2,
                v >= 0,
        ;
    }
}

/// A non-digit anywhere makes the whole string worthless.
proof fn lemma_digits_val_bad(s: Seq<char>, radix: u16, i: int)
    requires
        0 <= i < s.len(),
        digit_val(s[i], radix) is None,
    ensures
        digits_val(s, radix) is None,
    decreases s.len(),
{
    if i == s.len() - 1 {
    } else {
        assert(s.drop_last()[i] == s[i]);
        lemma_digits_val_bad(s.drop_last(), radix, i);
    }
}

/// The value of the digit string starting at position `start`, as an
/// unsigned integer literal of the given radix.
#[verifier::loop_isolation(false)]
pub fn parse_u16_exec(v: &Vec<char>, start: usize, radix: u16) -> (r: Option<u16>)
    requires
        start <= v@.len(),
        2 <= radix <= 16,
    ensures
        r == parse_u16_radix(v@.skip(start as int), radix),
{
    let ghost s = v@.skip(start as int);
    let mut i: usize = start;
    if i < v.len() && v[i] == '+' {
        i = i + 1;
        proof {
            assert(s.drop_first() =~= v@.skip(i as int));
        }
    }
    let ghost t = v@.skip(i as int);
    if i == v.len() {
        proof {
            assert(t.len() == 0);
        }
        return None;
    }
    let mut acc: u32 = 0;
    let mut j: usize = i;
    proof {
        assert(t.take(0) =~= Seq::<char>::empty());
    }
    while j < v.len()
        invariant
            i <= j <= v@.len(),
            acc <= 0xFFFF,
            t == v@.skip(i as int),
            digits_val(t.take(j - i), radix) == Some(acc as int),
        decreases v@.len() - j,
    {
        let d = match digit_val_exec(v[j], radix) {
            Some(d) => d,
            None => {
                proof {
                    assert(t[j - i] == v@[j as int]);
                    lemma_digits_val_bad(t, radix, j - i);
                }
                return None;
            },
        };
        proof {
            assert(acc * (radix as u32) <= 0xFFFF * 16) by (nonlinear_arith)
                requires
                    acc <= 0xFFFF,
                    radix <= 16,
            ;
        }
        let next: u32 = acc * (radix as u32) + (d as u32);
        proof {
            assert(t.take(j - i + 1).drop_last() =~= t.take(j - i));
            assert(t.take(j - i + 1).last() == v@[j as int]);
        }
        if next > 0xFFFF {
            proof {
                if digits_val(t, radix) is Some {
                    lemma_digits_val_take(t, radix, j - i + 1);
                }
            }
            return None;
        }
        acc = next;
        j = j + 1;
    }
    proof {
        assert(t.take(v@.len() - i) =~= t);
    }
    Some(acc as u16)
}

/// The character of one decimal digit.
pub open spec fn digit_char(d: int) -> char {
    (('0' as u32 + d as u32) as u8) as char
}

/// The decimal spelling of a number, most significant digit first.
pub open spec fn dec_str(n: nat) -> Seq<char>
    decreases n,
{
    if n < 10 {
        seq![digit_char(n as int)]
    } else {
        dec_str(n / 10).push(digit_char((n % 10) as int))
    }
}

/// Appends the decimal spelling of `n` to `out`.
pub fn push_dec(n: usize, out: &mut Vec<char>)
    ensures
        final(out)@ == old(out)@ + dec_str(n as nat),
    decreases n,
{
    if n >= 10 {
        push_dec(n / 10, out);
    }
    let d: u8 = ('0' as u32 + (n % 10) as u32) as u8;
    out.push(d as char);
    proof {
        if n < 10 {
            assert(old(out)@ + dec_str(n as nat) =~= old(out)@.push(digit_char(n as int)));
        } else {
            assert(old(out)@ + dec_str(n as nat) =~= (old(out)@ + dec_str((n as nat) / 10)).push(
                digit_char((n % 10) as int),
            ));
        }
    }
}

/// The decimal spelling of a machine word, as a string.
pub fn dec_string(n: usize) -> (s: String)
    ensures
        s@ == dec_str(n as nat),
{
    let mut v: Vec<char> = Vec::new();
    push_dec(n, &mut v);
    proof {
        assert(Seq::<char>::empty() + dec_str(n as nat) =~= dec_str(n as nat));
    }
    crate::text::string_of(&v)
}

/// Reading the decimal spelling of a number gives that number back, and the
/// spelling holds decimal digits only.
pub proof fn lemma_dec_str_val(n: nat)
    ensures
        dec_str(n).len() >= 1,
        forall|i: int|
            0 <= i < dec_str(n).len() ==> '0' as u32 <= (#[trigger] dec_str(n)[i]) as u32
                && dec_str(n)[i] as u32 <= '9' as u32,
        digits_val(dec_str(n), 10) == Some(n as int),
    decreases n,
{
    if n < 10 {
        assert(digits_val(dec_str(n).drop_last(), 10) == Some(0int)) by {
            assert(dec_str(n).drop_last() =~= Seq::<char>::empty());
        }
        assert(digit_val(digit_char(n as int), 10) == Some(n as u16));
    } else {
        lemma_dec_str_val(n / 10);
        assert(dec_str(n).drop_last() =~= dec_str(n / 10));
        assert(dec_str(n).last() == digit_char((n % 10) as int));
        assert(digit_val(digit_char((n % 10) as int), 10) == Some((n % 10) as u16));
        assert((n / 10) * 10 + (n % 10) == n) by (nonlinear_arith);
    }
}

} // verus!

//! Operands and their deferred, fallible interpretation.  An operand keeps
//! its raw spelling; parsing it as a register index or a 16-bit numeric
//! value happens on demand and can fail.

use vstd::prelude::*;

use crate::numeric::parse_u16_exec;
use crate::numeric::parse_u16_radix;
use crate::text::chars_of;

verus! {

/// The error of every failed parse, resolution or encoding step.
#[derive(Debug)]
pub struct ParseOperandError {
    pub message: String,
}

impl ParseOperandError {
    pub fn new(message: String) -> (r: Self)
        ensures
            r.message@ == message@,
    {
        Self { message }
    }
}

/// One argument of an instruction or directive: a raw textual spelling.
pub struct Operand {
    pub repr: String,
}

impl View for Operand {
    type V = Seq<char>;

    open spec fn view(&self) -> Seq<char> {
        self.repr@
    }
}

impl Clone for Operand {
    fn clone(&self) -> (r: Self)
        ensures
            r@ == self@,
    {
        Operand { repr: self.repr.clone() }
    }
}

/// The string with every leading repetition of `0x` removed.
pub open spec fn strip_hex_marks(s: Seq<char>) -> Seq<char>
    decreases s.len(),
{
    if s.len() >= 2 && s[0] == '0' && s[1] == 'x' {
        strip_hex_marks(s.skip(2))
    } else {
        s
    }
}

/// The string with every leading repetition of the given mark removed.
pub open spec fn strip_marks(s: Seq<char>, m: char) -> Seq<char>
    decreases s.len(),
{
    if s.len() >= 1 && s[0] == m {
        strip_marks(s.drop_first(), m)
    } else {
        s
    }
}

/// The 16-bit encoding value of a character: its scalar value, truncated.
pub open spec fn char_val16(c: char) -> u16 {
    ((c as u32 & 0xFFFF) as u16)
}

/// The value of a numeric literal: `0x`- or `#`-marked hexadecimal,
/// `%`-marked binary, a single-quoted character, or plain decimal.
pub open spec fn numeric_val(s: Seq<char>) -> Option<u16> {
    if (s.len() >= 2 && s[0] == '0' && s[1] == 'x') || (s.len() >= 1 && s[0] == '#') {
        parse_u16_radix(strip_marks(strip_hex_marks(s), '#'), 16)
    } else if s.len() >= 1 && s[0] == '%' {
        parse_u16_radix(strip_marks(s, '%'), 2)
    } else if s.len() >= 2 && s[0] == '\'' && s.last() == '\'' {
        Some(char_val16(s[1]))
    } else {
        parse_u16_radix(s, 10)
    }
}

/// Whether the spelling begins with the register marker letter.
pub open spec fn is_register_text(s: Seq<char>) -> bool {
    s.len() >= 1 && (s[0] == 'v' || s[0] == 'V')
}

/// The register index named by the spelling: the register marker letters
/// stripped, the rest read as hexadecimal, and at most fifteen.
pub open spec fn register_val(s: Seq<char>) -> Option<u16> {
    match parse_u16_radix(strip_marks(strip_marks(s, 'V'), 'v'), 16) {
        Some(n) => if n <= 15 {
            Some(n)
        } else {
            None
        },
        None => None,
    }
}

/// The value of an operand: a register index if it is spelled as a
/// register, a numeric literal otherwise.
pub open spec fn operand_val(s: Seq<char>) -> Option<u16> {
    if is_register_text(s) {
        register_val(s)
    } else {
        numeric_val(s)
    }
}

/// The position after the leading repetitions of `0x` in `v`.
#[verifier::loop_isolation(false)]
pub fn skip_hex_marks(v: &Vec<char>) -> (i: usize)
    ensures
        i <= v@.len(),
        strip_hex_marks(v@) == v@.skip(i as int),
{
    let mut i: usize = 0;
    proof {
        assert(v@.skip(0) =~= v@);
    }
    while v.len() - i >= 2 && v[i] == '0' && v[i + 1] == 'x'
        invariant
            i <= v@.len(),
            strip_hex_marks(v@) == strip_hex_marks(v@.skip(i as int)),
        decreases v@.len() - i,
    {
        proof {
            assert(v@.skip(i as int).skip(2) =~= v@.skip(i + 2 as int));
        }
        i = i + 2;
    }
    i
}

/// The position after the leading repetitions of the mark in `v@.skip(i)`.
#[verifier::loop_isolation(false)]
pub fn skip_marks(v: &Vec<char>, i: usize, m: char) -> (j: usize)
    requires
        i <= v@.len(),
    ensures
        i <= j <= v@.len(),
        strip_marks(v@.skip(i as int), m) == v@.skip(j as int),
    decreases v@.len() - i,
{
    let mut j: usize = i;
    while j < v.len() && v[j] == m
        invariant
            i <= j <= v@.len(),
            strip_marks(v@.skip(i as int), m) == strip_marks(v@.skip(j as int), m),
        decreases v@.len() - j,
    {
        proof {
            assert(v@.skip(j as int).drop_first() =~= v@.skip(j + 1 as int));
        }
        j = j + 1;
    }
    j
}

/// The numeric value of the characters of one literal.
pub fn numeric_val_exec(v: &Vec<char>) -> (r: Option<u16>)
    ensures
        r == numeric_val(v@),
{
    if (v.len() >= 2 && v[0] == '0' && v[1] == 'x') || (v.len() >= 1 && v[0] == '#') {
        let a = skip_hex_marks(v);
        let b = skip_marks(v, a, '#');
        parse_u16_exec(v, b, 16)
    } else if v.len() >= 1 && v[0] == '%' {
        proof {
            assert(v@.skip(0) =~= v@);
        }
        let b = skip_marks(v, 0, '%');
        parse_u16_exec(v, b, 2)
    } else if v.len() >= 2 && v[0] == '\'' && v[v.len() - 1] == '\'' {
        Some(((v[1] as u32) & 0xFFFF) as u16)
    } else {
        proof {
            assert(v@.skip(0) =~= v@);
        }
        parse_u16_exec(v, 0, 10)
    }
}

impl Operand {
    pub fn new(repr: String) -> (r: Operand)
        ensures
            r@ == repr@,
    {
        Operand { repr }
    }

    /// Reads a numeric literal, or reports the offending spelling.
    pub fn parse_numeric_str(value: String) -> (r: Result<u16, ParseOperandError>)
        ensures
            match r {
                Ok(n) => numeric_val(value@) == Some(n),
                Err(_) => numeric_val(value@) is None,
            },
    {
        let v = chars_of(value.as_str());
        let parsed: Option<u16> = numeric_val_exec(&v);
        match parsed {
            Some(n) => Ok(n),
            None => Err(
                ParseOperandError::new(String::from_str("Invalid number: ").concat(value.as_str())),
            ),
        }
    }

    /// Reads a register spelling, or reports why it is not one.
    pub fn parse_register_str(value: String) -> (r: Result<u16, ParseOperandError>)
        ensures
            match r {
                Ok(n) => register_val(value@) == Some(n),
                Err(_) => register_val(value@) is None,
            },
    {
        let v = chars_of(value.as_str());
        proof {
            assert(v@.skip(0) =~= v@);
        }
        let a = skip_marks(&v, 0, 'V');
        let b = skip_marks(&v, a, 'v');
        match parse_u16_exec(&v, b, 16) {
            Some(n) => {
                if n <= 15 {
                    Ok(n)
                } else {
                    let num = crate::numeric::dec_string(n as usize);
                    Err(
                        ParseOperandError::new(
                            String::from_str("Invalid register number: ").concat(num.as_str()),
                        ),
                    )
                }
            },
            None => Err(
                ParseOperandError::new(
                    String::from_str("Invalid register: ").concat(value.as_str()),
                ),
            ),
        }
    }

    /// Whether the operand is spelled as a register reference.  This is a
    /// syntactic check only; the index may still fail to parse.
    pub fn is_register(&self) -> (b: bool)
        ensures
            b == is_register_text(self@),
    {
        let v = chars_of(self.repr.as_str());
        v.len() >= 1 && (v[0] == 'v' || v[0] == 'V')
    }

    /// Reads the operand as a register index or a numeric value.
    pub fn parse(self) -> (r: Result<u16, ParseOperandError>)
        ensures
            match r {
                Ok(n) => operand_val(self@) == Some(n),
                Err(_) => operand_val(self@) is None,
            },
    {
        if self.is_register() {
            Operand::parse_register_str(self.repr)
        } else {
            Operand::parse_numeric_str(self.repr)
        }
    }
}

} // verus!

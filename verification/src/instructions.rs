//! The opcode encoder: an instruction's mnemonic and operand shape select a
//! fixed 16-bit base word, and the operand values are ORed in at fixed
//! nibble positions.

use vstd::prelude::*;

use crate::operand::is_register_text;
use crate::operand::operand_val;
use crate::operand::Operand;
use crate::operand::ParseOperandError;
use crate::text::to_upper;
use crate::text::to_upper_string;
use crate::units::Instruction;
use crate::units::InstrView;

verus! {

/// The model of an encoding descriptor: a base word and up to five operand
/// slots, each either unset or bound to an operand spelling.
pub ghost struct OpcodeView {
    pub base: u16,
    pub vx: Option<Seq<char>>,
    pub vy: Option<Seq<char>>,
    pub nnn: Option<Seq<char>>,
    pub kk: Option<Seq<char>>,
    pub n: Option<Seq<char>>,
}

/// The spelling bound to an optional operand slot.
pub open spec fn opt_view(o: Option<Operand>) -> Option<Seq<char>> {
    match o {
        Some(x) => Some(x@),
        None => None,
    }
}

/// An encoding descriptor with no slot bound.
pub open spec fn opv(base: u16) -> OpcodeView {
    OpcodeView { base, vx: None, vy: None, nnn: None, kk: None, n: None }
}

/// A base word with the first register slot bound.
pub open spec fn opv_vx(base: u16, vx: Seq<char>) -> OpcodeView {
    OpcodeView { base, vx: Some(vx), vy: None, nnn: None, kk: None, n: None }
}

/// A base word with both register slots bound.
pub open spec fn opv_vx_vy(base: u16, vx: Seq<char>, vy: Seq<char>) -> OpcodeView {
    OpcodeView { base, vx: Some(vx), vy: Some(vy), nnn: None, kk: None, n: None }
}

/// A base word with the first register and the byte slot bound.
pub open spec fn opv_vx_kk(base: u16, vx: Seq<char>, kk: Seq<char>) -> OpcodeView {
    OpcodeView { base, vx: Some(vx), vy: None, nnn: None, kk: Some(kk), n: None }
}

/// A base word with the address slot bound.
pub open spec fn opv_nnn(base: u16, nnn: Seq<char>) -> OpcodeView {
    OpcodeView { base, vx: None, vy: None, nnn: Some(nnn), kk: None, n: None }
}

/// A base word with the nibble slot bound.
pub open spec fn opv_n(base: u16, n: Seq<char>) -> OpcodeView {
    OpcodeView { base, vx: None, vy: None, nnn: None, kk: None, n: Some(n) }
}

/// A base word with both register slots and the nibble slot bound.
pub open spec fn opv_vx_vy_n(base: u16, vx: Seq<char>, vy: Seq<char>, n: Seq<char>) -> OpcodeView {
    OpcodeView { base, vx: Some(vx), vy: Some(vy), nnn: None, kk: None, n: Some(n) }
}

/// Whether a slot is either unset or bound to a parsable operand.
pub open spec fn slot_ok(o: Option<Seq<char>>) -> bool {
    o is Some ==> operand_val(o->0) is Some
}

/// The value bound to a slot, once it is known to parse.
pub open spec fn slot_val(o: Option<Seq<char>>) -> u16 {
    operand_val(o->0)->0
}

/// The 16-bit word of an encoding descriptor: every bound slot must parse,
/// and exactly one of the valid slot combinations must be bound.
pub open spec fn word_val(o: OpcodeView) -> Option<u16> {
    if !(slot_ok(o.nnn) && slot_ok(o.vx) && slot_ok(o.vy) && slot_ok(o.kk) && slot_ok(o.n)) {
        None
    } else if o.nnn is Some && o.vx is None && o.vy is None && o.kk is None && o.n is None {
        Some(o.base | slot_val(o.nnn))
    } else if o.nnn is None && o.vx is Some && o.vy is None && o.kk is None && o.n is None {
        Some(o.base | (slot_val(o.vx) << 8))
    } else if o.nnn is None && o.vx is Some && o.vy is Some && o.kk is None && o.n is None {
        Some(o.base | (slot_val(o.vx) << 8) | (slot_val(o.vy) << 4))
    } else if o.nnn is None && o.vx is Some && o.vy is None && o.kk is Some && o.n is None {
        Some(o.base | (slot_val(o.vx) << 8) | slot_val(o.kk))
    } else if o.nnn is None && o.vx is Some && o.vy is Some && o.kk is None && o.n is Some {
        Some(o.base | (slot_val(o.vx) << 8) | (slot_val(o.vy) << 4) | slot_val(o.n))
    } else if o.nnn is None && o.vx is None && o.vy is None && o.kk is None && o.n is Some {
        Some(o.base | slot_val(o.n))
    } else if o.nnn is None && o.vx is None && o.vy is None && o.kk is None && o.n is None {
        Some(o.base)
    } else {
        None
    }
}

/// The encoding descriptor of an instruction, selected by its uppercased
/// mnemonic and the count, register-vs-immediate classification and special
/// keyword spellings of its operands; `None` when no encoding fits.
pub open spec fn spec_from_instruction(m: Seq<char>, args: Seq<Seq<char>>) -> Option<OpcodeView> {
    let u = to_upper(m);
    if u == "CLS"@ {
        Some(opv(0x00E0))
    } else if u == "RET"@ {
        Some(opv(0x00EE))
    } else if u == "SYS"@ {
        if args.len() >= 1 {
            Some(opv_nnn(0x0000, args[0]))
        } else {
            None
        }
    } else if u == "JP"@ {
        if args.len() >= 1 && (args[0] == "V0"@ || args[0] == "v0"@) {
            if args.len() >= 2 {
                Some(opv_nnn(0xB000, args[1]))
            } else {
                None
            }
        } else if args.len() >= 1 {
            Some(opv_nnn(0x1000, args[0]))
        } else {
            None
        }
    } else if u == "CALL"@ {
        if args.len() >= 1 {
            Some(opv_nnn(0x2000, args[0]))
        } else {
            None
        }
    } else if u == "SE"@ {
        if args.len() >= 2 {
            if is_register_text(args[1]) {
                Some(opv_vx_vy(0x5000, args[0], args[1]))
            } else {
                Some(opv_vx_kk(0x3000, args[0], args[1]))
            }
        } else {
            None
        }
    } else if u == "SCD"@ {
        if args.len() >= 1 {
            Some(opv_n(0x00C0, args[0]))
        } else {
            None
        }
    } else if u == "SCR"@ {
        Some(opv(0x00FB))
    } else if u == "SCL"@ {
        Some(opv(0x00FC))
    } else if u == "EXIT"@ {
        Some(opv(0x00FD))
    } else if u == "LOW"@ {
        Some(opv(0x00FE))
    } else if u == "HIGH"@ {
        Some(opv(0x00FF))
    } else if u == "DRW"@ {
        if args.len() >= 3 {
            Some(opv_vx_vy_n(0xD000, args[0], args[1], args[2]))
        } else {
            None
        }
    } else if u == "LD"@ {
        spec_ld(args)
    } else if u == "SNE"@ {
        if args.len() >= 2 {
            if is_register_text(args[1]) {
                Some(opv_vx_vy(0x9000, args[0], args[1]))
            } else {
                Some(opv_vx_kk(0x4000, args[0], args[1]))
            }
        } else {
            None
        }
    } else if u == "ADD"@ {
        if args.len() >= 2 {
            if is_register_text(args[0]) && !is_register_text(args[1]) {
                Some(opv_vx_kk(0x7000, args[0], args[1]))
            } else if !is_register_text(args[0]) && is_register_text(args[1]) {
                Some(opv_vx(0xF01E, args[1]))
            } else {
                Some(opv_vx_vy(0x8004, args[0], args[1]))
            }
        } else {
            None
        }
    } else if u == "OR"@ {
        spec_two_regs(0x8001, args)
    } else if u == "AND"@ {
        spec_two_regs(0x8002, args)
    } else if u == "XOR"@ {
        spec_two_regs(0x8003, args)
    } else if u == "SUB"@ {
        spec_two_regs(0x8005, args)
    } else if u == "SHR"@ {
        spec_shift(0x8006, args)
    } else if u == "SUBN"@ {
        spec_two_regs(0x8007, args)
    } else if u == "SHL"@ {
        spec_shift(0x800E, args)
    } else if u == "RND"@ {
        if args.len() >= 2 {
            Some(opv_vx_kk(0xC000, args[0], args[1]))
        } else {
            None
        }
    } else if u == "SKP"@ {
        if args.len() >= 1 {
            Some(opv_vx(0xE09E, args[0]))
        } else {
            None
        }
    } else if u == "SKNP"@ {
        if args.len() >= 1 {
            Some(opv_vx(0xE0A1, args[0]))
        } else {
            None
        }
    } else {
        None
    }
}

/// An arithmetic or comparison encoding taking two register operands.
pub open spec fn spec_two_regs(base: u16, args: Seq<Seq<char>>) -> Option<OpcodeView> {
    if args.len() >= 2 {
        Some(opv_vx_vy(base, args[0], args[1]))
    } else {
        None
    }
}

/// A shift encoding: one register, or a register pair.
pub open spec fn spec_shift(base: u16, args: Seq<Seq<char>>) -> Option<OpcodeView> {
    if args.len() == 1 {
        Some(opv_vx(base, args[0]))
    } else if args.len() >= 2 {
        Some(opv_vx_vy(base, args[0], args[1]))
    } else {
        None
    }
}

/// The load family, selected by operand classification, special keyword
/// spellings and operand count, in the priority order of the encoder.
pub open spec fn spec_ld(args: Seq<Seq<char>>) -> Option<OpcodeView> {
    if args.len() < 2 {
        None
    } else {
        let r0 = is_register_text(args[0]);
        let r1 = is_register_text(args[1]);
        let n = args.len();
        if r0 && r1 && n == 2 {
            Some(opv_vx_vy(0x8000, args[0], args[1]))
        } else if r0 && args[1] == "R"@ && n == 2 {
            Some(opv_vx(0xF085, args[0]))
        } else if r0 && args[1] == "DT"@ && n == 2 {
            Some(opv_vx(0xF007, args[0]))
        } else if r0 && args[1] == "K"@ && n == 2 {
            Some(opv_vx(0xF00A, args[0]))
        } else if r0 && args[1] == "[I]"@ && n == 2 {
            Some(opv_vx(0xF065, args[0]))
        } else if r0 && n == 2 {
            Some(opv_vx_kk(0x6000, args[0], args[1]))
        } else if !r0 && r1 && args[0] == "HF"@ && n == 2 {
            Some(opv_vx(0xF030, args[1]))
        } else if !r0 && r1 && args[0] == "R"@ && n == 2 {
            Some(opv_vx(0xF075, args[1]))
        } else if !r0 && r1 && args[0] == "ST"@ && n == 2 {
            Some(opv_vx(0xF018, args[1]))
        } else if !r0 && r1 && args[0] == "F"@ && n == 2 {
            Some(opv_vx(0xF029, args[1]))
        } else if !r0 && r1 && args[0] == "B"@ && n == 2 {
            Some(opv_vx(0xF033, args[1]))
        } else if !r0 && r1 && args[0] == "[I]"@ && n == 2 {
            Some(opv_vx(0xF055, args[1]))
        } else if !r0 && !r1 && args[0] == "I"@ && n == 2 {
            Some(opv_nnn(0xA000, args[1]))
        } else if !r0 && r1 && n == 2 {
            Some(opv_vx(0xF015, args[1]))
        } else if r0 && r1 && n == 3 {
            if args[2] == "I"@ {
                Some(opv_vx_vy(0x5001, args[0], args[1]))
            } else {
                None
            }
        } else if !r0 && r1 && n == 3 {
            if args[0] == "I"@ {
                Some(opv_vx_vy(0x5002, args[1], args[2]))
            } else {
                None
            }
        } else {
            None
        }
    }
}

/// An ephemeral encoding descriptor: a fixed base word plus up to five
/// optional operand slots, bound while translating one instruction.
pub struct Opcode {
    pub base: u16,
    pub vx: Option<Operand>,
    pub vy: Option<Operand>,
    pub nnn: Option<Operand>,
    pub kk: Option<Operand>,
    pub n: Option<Operand>,
}

impl View for Opcode {
    type V = OpcodeView;

    open spec fn view(&self) -> OpcodeView {
        OpcodeView {
            base: self.base,
            vx: opt_view(self.vx),
            vy: opt_view(self.vy),
            nnn: opt_view(self.nnn),
            kk: opt_view(self.kk),
            n: opt_view(self.n),
        }
    }
}

impl Opcode {
    pub fn new(base: u16) -> (r: Self)
        ensures
            r@ == opv(base),
    {
        Self { base, vx: None, vy: None, nnn: None, kk: None, n: None }
    }

    pub fn set_vx(self, value: Operand) -> (r: Self)
        ensures
            r@ == (OpcodeView { vx: Some(value@), ..self@ }),
    {
        Opcode { vx: Some(value), base: self.base, vy: self.vy, nnn: self.nnn, kk: self.kk, n: self.n }
    }

    pub fn set_vy(self, value: Operand) -> (r: Self)
        ensures
            r@ == (OpcodeView { vy: Some(value@), ..self@ }),
    {
        Opcode { vy: Some(value), base: self.base, vx: self.vx, nnn: self.nnn, kk: self.kk, n: self.n }
    }

    pub fn set_nnn(self, value: Operand) -> (r: Self)
        ensures
            r@ == (OpcodeView { nnn: Some(value@), ..self@ }),
    {
        Opcode { nnn: Some(value), base: self.base, vx: self.vx, vy: self.vy, kk: self.kk, n: self.n }
    }

    pub fn set_kk(self, value: Operand) -> (r: Self)
        ensures
            r@ == (OpcodeView { kk: Some(value@), ..self@ }),
    {
        Opcode { kk: Some(value), base: self.base, vx: self.vx, vy: self.vy, nnn: self.nnn, n: self.n }
    }

    pub fn set_n(self, value: Operand) -> (r: Self)
        ensures
            r@ == (OpcodeView { n: Some(value@), ..self@ }),
    {
        Opcode { n: Some(value), base: self.base, vx: self.vx, vy: self.vy, nnn: self.nnn, kk: self.kk }
    }

    /// The final 16-bit word: every bound slot parsed and placed at its
    /// fixed position, if the bound slots form a valid combination.
    pub fn to_bytes(&self) -> (r: Result<u16, ParseOperandError>)
        ensures
            match r {
                Ok(w) => word_val(self@) == Some(w),
                Err(_) => word_val(self@) is None,
            },
    {
        let nnn: Option<u16> = match &self.nnn {
            Some(value) => match value.clone().parse() {
                Ok(x) => Some(x),
                Err(e) => {
                    return Err(e);
                },
            },
            None => None,
        };
        let vx: Option<u16> = match &self.vx {
            Some(value) => match value.clone().parse() {
                Ok(x) => Some(x),
                Err(e) => {
                    return Err(e);
                },
            },
            None => None,
        };
        let vy: Option<u16> = match &self.vy {
            Some(value) => match value.clone().parse() {
                Ok(x) => Some(x),
                Err(e) => {
                    return Err(e);
                },
            },
            None => None,
        };
        let kk: Option<u16> = match &self.kk {
            Some(value) => match value.clone().parse() {
                Ok(x) => Some(x),
                Err(e) => {
                    return Err(e);
                },
            },
            None => None,
        };
        let n: Option<u16> = match &self.n {
            Some(value) => match value.clone().parse() {
                Ok(x) => Some(x),
                Err(e) => {
                    return Err(e);
                },
            },
            None => None,
        };
        let word: u16 = match (nnn, vx, vy, kk, n) {
            (Some(nnn), None, None, None, None) => self.base | nnn,
            (None, Some(vx), None, None, None) => self.base | (vx << 8),
            (None, Some(vx), Some(vy), None, None) => self.base | (vx << 8) | (vy << 4),
            (None, Some(vx), None, Some(kk), None) => self.base | (vx << 8) | kk,
            (None, Some(vx), Some(vy), None, Some(n)) => self.base | (vx << 8) | (vy << 4) | n,
            (None, None, None, None, Some(n)) => self.base | n,
            (None, None, None, None, None) => self.base,
            _ => {
                return Err(
                    ParseOperandError::new(String::from_str("Invalid opcode slot combination")),
                );
            },
        };
        Ok(word)
    }

    /// The encoding descriptor of an instruction, or `None` when no
    /// encoding of the mnemonic fits its operands.
    pub fn from_instruction(instruction: Instruction) -> (r: Option<Opcode>)
        ensures
            match r {
                Some(op) => spec_from_instruction(instruction@.mnemonic, instruction@.args)
                    == Some(op@),
                None => spec_from_instruction(instruction@.mnemonic, instruction@.args) is None,
            },
    {
        let u = to_upper_string(&instruction.mnemonic);
        let args = instruction.args;
        let nargs = args.len();
        if u == String::from_str("CLS") {
            Some(Opcode::new(0x00E0))
        } else if u == String::from_str("RET") {
            Some(Opcode::new(0x00EE))
        } else if u == String::from_str("SYS") {
            if nargs >= 1 {
                Some(Opcode::new(0x0000).set_nnn(args[0].clone()))
            } else {
                None
            }
        } else if u == String::from_str("JP") {
            if nargs >= 1 && (args[0].repr == String::from_str("V0") || args[0].repr
                == String::from_str("v0")) {
                if nargs >= 2 {
                    Some(Opcode::new(0xB000).set_nnn(args[1].clone()))
                } else {
                    None
                }
            } else if nargs >= 1 {
                Some(Opcode::new(0x1000).set_nnn(args[0].clone()))
            } else {
                None
            }
        } else if u == String::from_str("CALL") {
            if nargs >= 1 {
                Some(Opcode::new(0x2000).set_nnn(args[0].clone()))
            } else {
                None
            }
        } else if u == String::from_str("SE") {
            if nargs >= 2 {
                if args[1].is_register() {
                    Some(Opcode::new(0x5000).set_vx(args[0].clone()).set_vy(args[1].clone()))
                } else {
                    Some(Opcode::new(0x3000).set_vx(args[0].clone()).set_kk(args[1].clone()))
                }
            } else {
                None
            }
        } else if u == String::from_str("SCD") {
            if nargs >= 1 {
                Some(Opcode::new(0x00C0).set_n(args[0].clone()))
            } else {
                None
            }
        } else if u == String::from_str("SCR") {
            Some(Opcode::new(0x00FB))
        } else if u == String::from_str("SCL") {
            Some(Opcode::new(0x00FC))
        } else if u == String::from_str("EXIT") {
            Some(Opcode::new(0x00FD))
        } else if u == String::from_str("LOW") {
            Some(Opcode::new(0x00FE))
        } else if u == String::from_str("HIGH") {
            Some(Opcode::new(0x00FF))
        } else if u == String::from_str("DRW") {
            if nargs >= 3 {
                Some(
                    Opcode::new(0xD000).set_vx(args[0].clone()).set_vy(args[1].clone()).set_n(
                        args[2].clone(),
                    ),
                )
            } else {
                None
            }
        } else if u == String::from_str("LD") {
            Opcode::load_encoding(&args)
        } else if u == String::from_str("SNE") {
            if nargs >= 2 {
                if args[1].is_register() {
                    Some(Opcode::new(0x9000).set_vx(args[0].clone()).set_vy(args[1].clone()))
                } else {
                    Some(Opcode::new(0x4000).set_vx(args[0].clone()).set_kk(args[1].clone()))
                }
            } else {
                None
            }
        } else if u == String::from_str("ADD") {
            if nargs >= 2 {
                if args[0].is_register() && !args[1].is_register() {
                    Some(Opcode::new(0x7000).set_vx(args[0].clone()).set_kk(args[1].clone()))
                } else if !args[0].is_register() && args[1].is_register() {
                    Some(Opcode::new(0xF01E).set_vx(args[1].clone()))
                } else {
                    Some(Opcode::new(0x8004).set_vx(args[0].clone()).set_vy(args[1].clone()))
                }
            } else {
                None
            }
        } else if u == String::from_str("OR") {
            Opcode::two_regs_encoding(0x8001, &args)
        } else if u == String::from_str("AND") {
            Opcode::two_regs_encoding(0x8002, &args)
        } else if u == String::from_str("XOR") {
            Opcode::two_regs_encoding(0x8003, &args)
        } else if u == String::from_str("SUB") {
            Opcode::two_regs_encoding(0x8005, &args)
        } else if u == String::from_str("SHR") {
            Opcode::shift_encoding(0x8006, &args)
        } else if u == String::from_str("SUBN") {
            Opcode::two_regs_encoding(0x8007, &args)
        } else if u == String::from_str("SHL") {
            Opcode::shift_encoding(0x800E, &args)
        } else if u == String::from_str("RND") {
            if nargs >= 2 {
                Some(Opcode::new(0xC000).set_vx(args[0].clone()).set_kk(args[1].clone()))
            } else {
                None
            }
        } else if u == String::from_str("SKP") {
            if nargs >= 1 {
                Some(Opcode::new(0xE09E).set_vx(args[0].clone()))
            } else {
                None
            }
        } else if u == String::from_str("SKNP") {
            if nargs >= 1 {
                Some(Opcode::new(0xE0A1).set_vx(args[0].clone()))
            } else {
                None
            }
        } else {
            None
        }
    }

    fn two_regs_encoding(base: u16, args: &Vec<Operand>) -> (r: Option<Opcode>)
        ensures
            match r {
                Some(op) => spec_two_regs(base, crate::units::operand_views(args@)) == Some(op@),
                None => spec_two_regs(base, crate::units::operand_views(args@)) is None,
            },
    {
        if args.len() >= 2 {
            Some(Opcode::new(base).set_vx(args[0].clone()).set_vy(args[1].clone()))
        } else {
            None
        }
    }

    fn shift_encoding(base: u16, args: &Vec<Operand>) -> (r: Option<Opcode>)
        ensures
            match r {
                Some(op) => spec_shift(base, crate::units::operand_views(args@)) == Some(op@),
                None => spec_shift(base, crate::units::operand_views(args@)) is None,
            },
    {
        if args.len() == 1 {
            Some(Opcode::new(base).set_vx(args[0].clone()))
        } else if args.len() >= 2 {
            Some(Opcode::new(base).set_vx(args[0].clone()).set_vy(args[1].clone()))
        } else {
            None
        }
    }

    fn load_encoding(args: &Vec<Operand>) -> (r: Option<Opcode>)
        ensures
            match r {
                Some(op) => spec_ld(crate::units::operand_views(args@)) == Some(op@),
                None => spec_ld(crate::units::operand_views(args@)) is None,
            },
    {
        if args.len() < 2 {
            return None;
        }
        let r0 = args[0].is_register();
        let r1 = args[1].is_register();
        let n = args.len();
        if r0 && r1 && n == 2 {
            Some(Opcode::new(0x8000).set_vx(args[0].clone()).set_vy(args[1].clone()))
        } else if r0 && args[1].repr == String::from_str("R") && n == 2 {
            Some(Opcode::new(0xF085).set_vx(args[0].clone()))
        } else if r0 && args[1].repr == String::from_str("DT") && n == 2 {
            Some(Opcode::new(0xF007).set_vx(args[0].clone()))
        } else if r0 && args[1].repr == String::from_str("K") && n == 2 {
            Some(Opcode::new(0xF00A).set_vx(args[0].clone()))
        } else if r0 && args[1].repr == String::from_str("[I]") && n == 2 {
            Some(Opcode::new(0xF065).set_vx(args[0].clone()))
        } else if r0 && n == 2 {
            Some(Opcode::new(0x6000).set_vx(args[0].clone()).set_kk(args[1].clone()))
        } else if !r0 && r1 && args[0].repr == String::from_str("HF") && n == 2 {
            Some(Opcode::new(0xF030).set_vx(args[1].clone()))
        } else if !r0 && r1 && args[0].repr == String::from_str("R") && n == 2 {
            Some(Opcode::new(0xF075).set_vx(args[1].clone()))
        } else if !r0 && r1 && args[0].repr == String::from_str("ST") && n == 2 {
            Some(Opcode::new(0xF018).set_vx(args[1].clone()))
        } else if !r0 && r1 && args[0].repr == String::from_str("F") && n == 2 {
            Some(Opcode::new(0xF029).set_vx(args[1].clone()))
        } else if !r0 && r1 && args[0].repr == String::from_str("B") && n == 2 {
            Some(Opcode::new(0xF033).set_vx(args[1].clone()))
        } else if !r0 && r1 && args[0].repr == String::from_str("[I]") && n == 2 {
            Some(Opcode::new(0xF055).set_vx(args[1].clone()))
        } else if !r0 && !r1 && args[0].repr == String::from_str("I") && n == 2 {
            Some(Opcode::new(0xA000).set_nnn(args[1].clone()))
        } else if !r0 && r1 && n == 2 {
            Some(Opcode::new(0xF015).set_vx(args[1].clone()))
        } else if r0 && r1 && n == 3 {
            if args[2].repr == String::from_str("I") {
                Some(Opcode::new(0x5001).set_vx(args[0].clone()).set_vy(args[1].clone()))
            } else {
                None
            }
        } else if !r0 && r1 && n == 3 {
            if args[0].repr == String::from_str("I") {
                Some(Opcode::new(0x5002).set_vx(args[1].clone()).set_vy(args[2].clone()))
            } else {
                None
            }
        } else {
            None
        }
    }
}

} // verus!

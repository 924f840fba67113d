//! A verified assembler core for a small fixed-width (16-bit opcode) virtual
//! machine.  Source lines are parsed into typed units (instructions, labels,
//! defines, directives), resolved over three passes (define substitution,
//! offset computation, label substitution), and emitted as a flat byte image.

pub mod assembly;
pub mod instructions;
pub mod loader;
pub mod numeric;
pub mod operand;
pub mod units;
pub mod text;

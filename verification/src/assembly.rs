//! The assembly model: an ordered sequence of source units with resolved
//! offsets.  Construction runs define substitution and offset computation;
//! label substitution runs once when the bytes are requested.

use vstd::prelude::*;

use crate::instructions::word_val;
use crate::instructions::spec_from_instruction;
use crate::instructions::Opcode;
use crate::numeric::dec_str;
use crate::numeric::dec_string;
use crate::operand::numeric_val;
use crate::operand::numeric_val_exec;
use crate::operand::Operand;
use crate::operand::ParseOperandError;
use crate::text::chars_of;
use crate::text::to_lower;
use crate::text::to_lower_string;
use crate::units::directive_size_ok;
use crate::units::operand_views;
use crate::units::string_views;
use crate::units::unit_size;
use crate::units::unit_size_ok;
use crate::units::AsmEnum;
use crate::units::Directive;
use crate::units::DirectiveView;
use crate::units::Instruction;
use crate::units::InstrView;
use crate::units::UnitView;

verus! {

// ---------------------------------------------------------------------
// Substitution tables
// ---------------------------------------------------------------------

/// The key/value pairs of every define, in order of appearance.
pub open spec fn define_table(units: Seq<UnitView>) -> Seq<(Seq<char>, Seq<char>)>
    decreases units.len(),
{
    if units.len() == 0 {
        Seq::empty()
    } else {
        let rest = define_table(units.drop_last());
        match units.last() {
            UnitView::Define(k, v) => rest.push((k, v)),
            _ => rest,
        }
    }
}

/// The value bound to a key in a table; the latest binding wins.
pub open spec fn table_lookup(t: Seq<(Seq<char>, Seq<char>)>, k: Seq<char>) -> Option<Seq<char>>
    decreases t.len(),
{
    if t.len() == 0 {
        None
    } else if t.last().0 == k {
        Some(t.last().1)
    } else {
        table_lookup(t.drop_last(), k)
    }
}

/// One verbatim substitution step: a field that spells a key becomes that
/// key's value text; anything else is untouched.
pub open spec fn subst_text(t: Seq<(Seq<char>, Seq<char>)>, s: Seq<char>) -> Seq<char> {
    match table_lookup(t, s) {
        Some(v) => v,
        None => s,
    }
}

/// The substitution applied to every field of an argument list.
pub open spec fn subst_args(t: Seq<(Seq<char>, Seq<char>)>, args: Seq<Seq<char>>) -> Seq<
    Seq<char>,
> {
    args.map_values(|a: Seq<char>| subst_text(t, a))
}

/// The define substitution applied to one unit: instruction operands and
/// directive arguments are replaced, everything else is untouched.
pub open spec fn apply_defines_unit(t: Seq<(Seq<char>, Seq<char>)>, u: UnitView) -> UnitView {
    match u {
        UnitView::Instr(iv) => UnitView::Instr(
            InstrView { mnemonic: iv.mnemonic, args: subst_args(t, iv.args) },
        ),
        UnitView::Directive(dv) => UnitView::Directive(
            DirectiveView { mnemonic: dv.mnemonic, args: subst_args(t, dv.args) },
        ),
        _ => u,
    }
}

/// The units of a sequence of (unit, offset) pairs.
pub open spec fn units_of(pairs: Seq<(UnitView, usize)>) -> Seq<UnitView> {
    pairs.map_values(|p: (UnitView, usize)| p.0)
}

/// The whole define pass over a unit sequence.
pub open spec fn resolve_defines(units: Seq<UnitView>) -> Seq<UnitView> {
    units.map_values(|u: UnitView| apply_defines_unit(define_table(units), u))
}

/// The name/offset pairs of every label, in order of appearance.
pub open spec fn label_table(pairs: Seq<(UnitView, usize)>) -> Seq<(Seq<char>, usize)>
    decreases pairs.len(),
{
    if pairs.len() == 0 {
        Seq::empty()
    } else {
        let rest = label_table(pairs.drop_last());
        match pairs.last().0 {
            UnitView::Label(name) => rest.push((name, pairs.last().1)),
            _ => rest,
        }
    }
}

/// The offset bound to a label name; the latest binding wins.
pub open spec fn label_lookup(t: Seq<(Seq<char>, usize)>, k: Seq<char>) -> Option<usize>
    decreases t.len(),
{
    if t.len() == 0 {
        None
    } else if t.last().0 == k {
        Some(t.last().1)
    } else {
        label_lookup(t.drop_last(), k)
    }
}

/// One label substitution step: an operand that spells a label name becomes
/// the decimal text of that label's offset.
pub open spec fn subst_label_text(t: Seq<(Seq<char>, usize)>, s: Seq<char>) -> Seq<char> {
    match label_lookup(t, s) {
        Some(off) => dec_str(off as nat),
        None => s,
    }
}

/// The label substitution applied to one unit: only instruction operands
/// are replaced.
pub open spec fn apply_labels_unit(t: Seq<(Seq<char>, usize)>, u: UnitView) -> UnitView {
    match u {
        UnitView::Instr(iv) => UnitView::Instr(
            InstrView {
                mnemonic: iv.mnemonic,
                args: iv.args.map_values(|a: Seq<char>| subst_label_text(t, a)),
            },
        ),
        _ => u,
    }
}

/// The whole label pass over (unit, offset) pairs: offsets are unchanged.
pub open spec fn resolve_labels(pairs: Seq<(UnitView, usize)>) -> Seq<(UnitView, usize)> {
    pairs.map_values(|p: (UnitView, usize)| (apply_labels_unit(label_table(pairs), p.0), p.1))
}

/// Define substitution is syntactic and single-level: a key whose value
/// text is itself some key's spelling becomes that value text verbatim,
/// never what the second key is bound to.
pub proof fn lemma_define_substitution_single_level(
    t: Seq<(Seq<char>, Seq<char>)>,
    k1: Seq<char>,
    k2: Seq<char>,
)
    requires
        table_lookup(t, k1) == Some(k2),
    ensures
        subst_text(t, k1) == k2,
{
}

/// A label offset written as its decimal spelling is read back as exactly
/// that offset by the operand parser: the round trip through label
/// substitution and operand parsing is value-exact for any address that
/// fits an opcode word.
pub proof fn lemma_label_offset_round_trip(off: usize)
    requires
        off <= u16::MAX as usize,
    ensures
        crate::operand::operand_val(dec_str(off as nat)) == Some(off as u16),
{
    let s = dec_str(off as nat);
    crate::numeric::lemma_dec_str_val(off as nat);
    assert(!crate::operand::is_register_text(s));
    assert(!(s.len() >= 2 && s[0] == '0' && s[1] == 'x'));
    assert(!(s.len() >= 1 && s[0] == '#'));
    assert(!(s.len() >= 1 && s[0] == '%'));
    assert(!(s.len() >= 2 && s[0] == '\'' && s.last() == '\''));
    assert(s[0] != '+');
}

// ---------------------------------------------------------------------
// Offsets
// ---------------------------------------------------------------------

/// The summed byte size of the first `i` units.
pub open spec fn prefix_size(units: Seq<UnitView>, i: int) -> nat
    decreases i,
{
    if i <= 0 {
        0
    } else {
        prefix_size(units, i - 1) + unit_size(units[i - 1])
    }
}

/// The summed byte size of all units.
pub open spec fn total_size(units: Seq<UnitView>) -> nat {
    prefix_size(units, units.len() as int)
}

/// Whether every unit has a defined byte size.
pub open spec fn all_sizes_ok(units: Seq<UnitView>) -> bool {
    forall|i: int| 0 <= i < units.len() ==> unit_size_ok(#[trigger] units[i])
}

/// No prefix is larger than the whole.
proof fn lemma_prefix_le_total(units: Seq<UnitView>, i: int)
    requires
        0 <= i <= units.len(),
    ensures
        prefix_size(units, i) <= total_size(units),
    decreases units.len() - i,
{
    if i < units.len() {
        lemma_prefix_le_total(units, i + 1);
    }
}

// ---------------------------------------------------------------------
// Emission
// ---------------------------------------------------------------------

/// The high byte of a word.
pub open spec fn byte_hi(w: u16) -> u8 {
    (w >> 8) as u8
}

/// The low byte of a word.
pub open spec fn byte_lo(w: u16) -> u8 {
    (w & 0xFF) as u8
}

/// The byte a character is emitted as: its scalar value, truncated.
pub open spec fn char_byte(c: char) -> u8 {
    ((c as u32) & 0xFF) as u8
}

/// The bytes of an encoded instruction, high byte first.
pub open spec fn emit_instr(iv: InstrView) -> Option<Seq<u8>> {
    match spec_from_instruction(iv.mnemonic, iv.args) {
        Some(op) => match word_val(op) {
            Some(w) => Some(seq![byte_hi(w), byte_lo(w)]),
            None => None,
        },
        None => None,
    }
}

/// The bytes of a `db` directive: one byte per argument.
pub open spec fn emit_db(args: Seq<Seq<char>>) -> Option<Seq<u8>>
    decreases args.len(),
{
    if args.len() == 0 {
        Some(Seq::empty())
    } else {
        match (emit_db(args.drop_last()), numeric_val(args.last())) {
            (Some(b), Some(n)) => Some(b.push(byte_lo(n))),
            _ => None,
        }
    }
}

/// The bytes of a `dw` directive: one big-endian word per argument.
pub open spec fn emit_dw(args: Seq<Seq<char>>) -> Option<Seq<u8>>
    decreases args.len(),
{
    if args.len() == 0 {
        Some(Seq::empty())
    } else {
        match (emit_dw(args.drop_last()), numeric_val(args.last())) {
            (Some(b), Some(n)) => Some(b.push(byte_hi(n)).push(byte_lo(n))),
            _ => None,
        }
    }
}

/// The bytes of one `text` argument: its characters, then one zero.
pub open spec fn text_bytes(a: Seq<char>) -> Seq<u8> {
    a.map_values(|c: char| char_byte(c)).push(0u8)
}

/// The bytes of a `text` directive: every argument terminated by a zero.
pub open spec fn emit_text(args: Seq<Seq<char>>) -> Seq<u8>
    decreases args.len(),
{
    if args.len() == 0 {
        Seq::empty()
    } else {
        emit_text(args.drop_last()) + text_bytes(args.last())
    }
}

/// The bytes of an `offset` directive: that many zero bytes of padding.
pub open spec fn emit_offset(args: Seq<Seq<char>>) -> Option<Seq<u8>> {
    if args.len() >= 1 {
        match numeric_val(args[0]) {
            Some(n) => Some(Seq::new(n as nat, |i: int| 0u8)),
            None => None,
        }
    } else {
        None
    }
}

/// The bytes of a directive, by its lower-cased mnemonic.
pub open spec fn emit_directive(m: Seq<char>, args: Seq<Seq<char>>) -> Option<Seq<u8>> {
    let lm = to_lower(m);
    if lm == "db"@ {
        emit_db(args)
    } else if lm == "dw"@ {
        emit_dw(args)
    } else if lm == "text"@ {
        Some(emit_text(args))
    } else if lm == "offset"@ {
        emit_offset(args)
    } else {
        Some(Seq::empty())
    }
}

/// The bytes one unit contributes to the image.
pub open spec fn emit_unit(u: UnitView) -> Option<Seq<u8>> {
    match u {
        UnitView::Instr(iv) => emit_instr(iv),
        UnitView::Directive(dv) => emit_directive(dv.mnemonic, dv.args),
        _ => Some(Seq::empty()),
    }
}

/// The bytes of a whole unit sequence, or nothing if any unit fails.
pub open spec fn emit_units(units: Seq<UnitView>) -> Option<Seq<u8>>
    decreases units.len(),
{
    if units.len() == 0 {
        Some(Seq::empty())
    } else {
        match (emit_units(units.drop_last()), emit_unit(units.last())) {
            (Some(a), Some(b)) => Some(a + b),
            _ => None,
        }
    }
}

// ---------------------------------------------------------------------
// Executable side tables
// ---------------------------------------------------------------------

/// The views of a define side table.
pub open spec fn table_views(t: Seq<(String, String)>) -> Seq<(Seq<char>, Seq<char>)> {
    t.map_values(|p: (String, String)| (p.0@, p.1@))
}

/// The views of a label side table.
pub open spec fn label_views(t: Seq<(String, usize)>) -> Seq<(Seq<char>, usize)> {
    t.map_values(|p: (String, usize)| (p.0@, p.1))
}

/// The value bound to a key in a define side table, latest binding first.
#[verifier::loop_isolation(false)]
fn lookup_define(table: &Vec<(String, String)>, key: &String) -> (r: Option<String>)
    ensures
        match r {
            Some(v) => table_lookup(table_views(table@), key@) == Some(v@),
            None => table_lookup(table_views(table@), key@) is None,
        },
{
    let mut i: usize = table.len();
    proof {
        assert(table_views(table@.take(i as int)) =~= table_views(table@));
    }
    while i > 0
        invariant
            i <= table@.len(),
            table_lookup(table_views(table@), key@) == table_lookup(
                table_views(table@.take(i as int)),
                key@,
            ),
        decreases i,
    {
        i = i - 1;
        proof {
            assert(table_views(table@.take(i + 1)).last() == (table@[i as int].0@, table@[
                i as int].1@));
            assert(table_views(table@.take(i + 1)).drop_last() =~= table_views(
                table@.take(i as int),
            ));
        }
        if table[i].0 == *key {
            return Some(table[i].1.clone());
        }
    }
    proof {
        assert(table_views(table@.take(0)) =~= Seq::<(Seq<char>, Seq<char>)>::empty());
    }
    None
}

/// The offset bound to a name in a label side table, latest binding first.
#[verifier::loop_isolation(false)]
fn lookup_label(table: &Vec<(String, usize)>, key: &String) -> (r: Option<usize>)
    ensures
        r == label_lookup(label_views(table@), key@),
{
    let mut i: usize = table.len();
    proof {
        assert(label_views(table@.take(i as int)) =~= label_views(table@));
    }
    while i > 0
        invariant
            i <= table@.len(),
            label_lookup(label_views(table@), key@) == label_lookup(
                label_views(table@.take(i as int)),
                key@,
            ),
        decreases i,
    {
        i = i - 1;
        proof {
            assert(label_views(table@.take(i + 1)).last() == (table@[i as int].0@, table@[
                i as int].1));
            assert(label_views(table@.take(i + 1)).drop_last() =~= label_views(
                table@.take(i as int),
            ));
        }
        if table[i].0 == *key {
            return Some(table[i].1);
        }
    }
    proof {
        assert(label_views(table@.take(0)) =~= Seq::<(Seq<char>, usize)>::empty());
    }
    None
}

/// Operand fields with the define substitution applied to each.
#[verifier::loop_isolation(false)]
fn subst_operands(table: &Vec<(String, String)>, args: &Vec<Operand>) -> (r: Vec<Operand>)
    ensures
        operand_views(r@) == subst_args(table_views(table@), operand_views(args@)),
{
    let ghost t = table_views(table@);
    let mut r: Vec<Operand> = Vec::new();
    let mut i: usize = 0;
    while i < args.len()
        invariant
            i <= args@.len(),
            r@.len() == i,
            forall|j: int|
                0 <= j < i ==> #[trigger] r@[j]@ == subst_text(t, args@[j]@),
        decreases args@.len() - i,
    {
        match lookup_define(table, &args[i].repr) {
            Some(v) => {
                r.push(Operand::new(v));
            },
            None => {
                r.push(args[i].clone());
            },
        }
        i = i + 1;
    }
    proof {
        assert(operand_views(r@) =~= subst_args(t, operand_views(args@)));
    }
    r
}

/// String fields with the define substitution applied to each.
#[verifier::loop_isolation(false)]
fn subst_strings(table: &Vec<(String, String)>, args: &Vec<String>) -> (r: Vec<String>)
    ensures
        string_views(r@) == subst_args(table_views(table@), string_views(args@)),
{
    let ghost t = table_views(table@);
    let mut r: Vec<String> = Vec::new();
    let mut i: usize = 0;
    while i < args.len()
        invariant
            i <= args@.len(),
            r@.len() == i,
            forall|j: int|
                0 <= j < i ==> #[trigger] r@[j]@ == subst_text(t, args@[j]@),
        decreases args@.len() - i,
    {
        match lookup_define(table, &args[i]) {
            Some(v) => {
                r.push(v);
            },
            None => {
                r.push(args[i].clone());
            },
        }
        i = i + 1;
    }
    proof {
        assert(string_views(r@) =~= subst_args(t, string_views(args@)));
    }
    r
}

/// Operand fields with the label substitution applied to each.
#[verifier::loop_isolation(false)]
fn subst_label_operands(table: &Vec<(String, usize)>, args: &Vec<Operand>) -> (r: Vec<Operand>)
    ensures
        operand_views(r@) == operand_views(args@).map_values(
            |a: Seq<char>| subst_label_text(label_views(table@), a),
        ),
{
    let ghost t = label_views(table@);
    let mut r: Vec<Operand> = Vec::new();
    let mut i: usize = 0;
    while i < args.len()
        invariant
            i <= args@.len(),
            r@.len() == i,
            forall|j: int|
                0 <= j < i ==> #[trigger] r@[j]@ == subst_label_text(t, args@[j]@),
        decreases args@.len() - i,
    {
        match lookup_label(table, &args[i].repr) {
            Some(off) => {
                r.push(Operand::new(dec_string(off)));
            },
            None => {
                r.push(args[i].clone());
            },
        }
        i = i + 1;
    }
    proof {
        assert(operand_views(r@) =~= operand_views(args@).map_values(
            |a: Seq<char>| subst_label_text(t, a),
        ));
    }
    r
}

// ---------------------------------------------------------------------
// The assembly
// ---------------------------------------------------------------------

/// The views of a sequence of units.
pub open spec fn unit_views(s: Seq<AsmEnum>) -> Seq<UnitView> {
    s.map_values(|u: AsmEnum| u@)
}

/// The views of a sequence of (unit, offset) pairs.
pub open spec fn pair_views(s: Seq<(AsmEnum, usize)>) -> Seq<(UnitView, usize)> {
    s.map_values(|p: (AsmEnum, usize)| (p.0@, p.1))
}

/// The ordered source units with their resolved byte offsets.
pub struct Assembly {
    pub instructions: Vec<(AsmEnum, usize)>,
}

impl View for Assembly {
    type V = Seq<(UnitView, usize)>;

    open spec fn view(&self) -> Seq<(UnitView, usize)> {
        pair_views(self.instructions@)
    }
}

impl Assembly {
    /// Define substitution: every instruction operand and directive
    /// argument whose exact spelling matches a define key becomes that
    /// key's value text, verbatim and only once.
    #[verifier::loop_isolation(false)]
    fn update_defines(&mut self)
        ensures
            final(self)@ == old(self)@.map_values(
                |p: (UnitView, usize)|
                    (apply_defines_unit(define_table(units_of(old(self)@)), p.0), p.1),
            ),
    {
        let ghost orig = self@;
        let ghost t = define_table(units_of(orig));
        let mut table: Vec<(String, String)> = Vec::new();
        let mut i: usize = 0;
        proof {
            assert(units_of(orig).take(0) =~= Seq::<UnitView>::empty());
            assert(table_views(table@) =~= define_table(units_of(orig).take(0)));
        }
        while i < self.instructions.len()
            invariant
                i <= self.instructions@.len(),
                self.instructions@ == old(self).instructions@,
                table_views(table@) == define_table(units_of(orig).take(i as int)),
            decreases self.instructions@.len() - i,
        {
            proof {
                assert(units_of(orig).take(i + 1).drop_last() =~= units_of(orig).take(i as int));
                assert(units_of(orig).take(i + 1).last() == orig[i as int].0);
            }
            match &self.instructions[i].0 {
                AsmEnum::Define(d) => {
                    let ghost tv0 = table_views(table@);
                    table.push((d.key.clone(), d.value.clone()));
                    proof {
                        assert(table_views(table@) =~= tv0.push((d.key@, d.value@)));
                    }
                },
                _ => {},
            }
            i = i + 1;
        }
        proof {
            assert(units_of(orig).take(orig.len() as int) =~= units_of(orig));
        }
        let mut work: Vec<(AsmEnum, usize)> = Vec::new();
        core::mem::swap(&mut work, &mut self.instructions);
        let mut out: Vec<(AsmEnum, usize)> = Vec::new();
        while work.len() > 0
            invariant
                out@.len() + work@.len() == orig.len(),
                table_views(table@) == t,
                pair_views(work@) =~= orig.skip(out@.len() as int),
                forall|j: int|
                    0 <= j < out@.len() ==> #[trigger] pair_views(out@)[j] == (
                    apply_defines_unit(t, orig[j].0),
                    orig[j].1,
                    ),
            decreases work@.len(),
        {
            let ghost k = out@.len() as int;
            proof {
                assert(pair_views(work@)[0] == orig[k]);
                assert(pair_views(work@.remove(0)) =~= pair_views(work@).drop_first());
                assert(pair_views(work@).drop_first() =~= orig.skip(k + 1));
            }
            let ghost out0 = out@;
            let p = work.remove(0);
            let q: AsmEnum = match p.0 {
                AsmEnum::Instruction(inst) => AsmEnum::Instruction(
                    Instruction {
                        mnemonic: inst.mnemonic,
                        args: subst_operands(&table, &inst.args),
                    },
                ),
                AsmEnum::Directive(d) => AsmEnum::Directive(
                    Directive { mnemonic: d.mnemonic, args: subst_strings(&table, &d.args) },
                ),
                other => other,
            };
            proof {
                assert(q@ == apply_defines_unit(t, orig[k].0));
            }
            out.push((q, p.1));
            proof {
                assert(pair_views(out@) =~= pair_views(out0).push((q@, p.1)));
            }
        }
        self.instructions = out;
        proof {
            assert(self@ =~= orig.map_values(
                |p: (UnitView, usize)| (apply_defines_unit(t, p.0), p.1),
            ));
        }
    }

    /// Label substitution: every instruction operand whose exact spelling
    /// matches a label name becomes the decimal text of that label's
    /// offset.
    #[verifier::loop_isolation(false)]
    fn update_labels(&mut self)
        ensures
            final(self)@ == resolve_labels(old(self)@),
    {
        let ghost orig = self@;
        let ghost t = label_table(orig);
        let mut table: Vec<(String, usize)> = Vec::new();
        let mut i: usize = 0;
        proof {
            assert(orig.take(0) =~= Seq::<(UnitView, usize)>::empty());
            assert(label_views(table@) =~= label_table(orig.take(0)));
        }
        while i < self.instructions.len()
            invariant
                i <= self.instructions@.len(),
                self.instructions@ == old(self).instructions@,
                label_views(table@) == label_table(orig.take(i as int)),
            decreases self.instructions@.len() - i,
        {
            proof {
                assert(orig.take(i + 1).drop_last() =~= orig.take(i as int));
                assert(orig.take(i + 1).last() == orig[i as int]);
            }
            let off = self.instructions[i].1;
            match &self.instructions[i].0 {
                AsmEnum::Label(l) => {
                    let ghost tv0 = label_views(table@);
                    table.push((l.name.clone(), off));
                    proof {
                        assert(label_views(table@) =~= tv0.push((l.name@, off)));
                    }
                },
                _ => {},
            }
            i = i + 1;
        }
        proof {
            assert(orig.take(orig.len() as int) =~= orig);
        }
        let mut work: Vec<(AsmEnum, usize)> = Vec::new();
        core::mem::swap(&mut work, &mut self.instructions);
        let mut out: Vec<(AsmEnum, usize)> = Vec::new();
        while work.len() > 0
            invariant
                out@.len() + work@.len() == orig.len(),
                label_views(table@) == t,
                pair_views(work@) =~= orig.skip(out@.len() as int),
                forall|j: int|
                    0 <= j < out@.len() ==> #[trigger] pair_views(out@)[j] == (
                    apply_labels_unit(t, orig[j].0),
                    orig[j].1,
                    ),
            decreases work@.len(),
        {
            let ghost k = out@.len() as int;
            proof {
                assert(pair_views(work@)[0] == orig[k]);
                assert(pair_views(work@.remove(0)) =~= pair_views(work@).drop_first());
                assert(pair_views(work@).drop_first() =~= orig.skip(k + 1));
            }
            let ghost out0 = out@;
            let p = work.remove(0);
            let q: AsmEnum = match p.0 {
                AsmEnum::Instruction(inst) => AsmEnum::Instruction(
                    Instruction {
                        mnemonic: inst.mnemonic,
                        args: subst_label_operands(&table, &inst.args),
                    },
                ),
                other => other,
            };
            proof {
                assert(q@ == apply_labels_unit(t, orig[k].0));
            }
            out.push((q, p.1));
            proof {
                assert(pair_views(out@) =~= pair_views(out0).push((q@, p.1)));
            }
        }
        self.instructions = out;
        proof {
            assert(self@ =~= resolve_labels(orig));
        }
    }

    /// Offset computation: each unit is assigned the caller-supplied base
    /// offset plus the summed byte sizes of the units before it.
    #[verifier::loop_isolation(false)]
    fn update_offsets(&mut self, offset: usize)
        requires
            all_sizes_ok(units_of(old(self)@)),
            offset + total_size(units_of(old(self)@)) <= usize::MAX,
        ensures
            final(self)@.len() == old(self)@.len(),
            forall|i: int|
                0 <= i < old(self)@.len() ==> #[trigger] final(self)@[i] == (
                old(self)@[i].0,
                (offset + prefix_size(units_of(old(self)@), i)) as usize,
                ),
    {
        let ghost orig = self@;
        let ghost units = units_of(orig);
        let mut work: Vec<(AsmEnum, usize)> = Vec::new();
        core::mem::swap(&mut work, &mut self.instructions);
        let mut out: Vec<(AsmEnum, usize)> = Vec::new();
        let mut running: usize = 0;
        while work.len() > 0
            invariant
                out@.len() + work@.len() == orig.len(),
                pair_views(work@) =~= orig.skip(out@.len() as int),
                running as nat == prefix_size(units, out@.len() as int),
                forall|j: int|
                    0 <= j < out@.len() ==> #[trigger] pair_views(out@)[j] == (
                    orig[j].0,
                    (offset + prefix_size(units, j)) as usize,
                    ),
            decreases work@.len(),
        {
            let ghost k = out@.len() as int;
            proof {
                assert(pair_views(work@)[0] == orig[k]);
                assert(pair_views(work@.remove(0)) =~= pair_views(work@).drop_first());
                assert(pair_views(work@).drop_first() =~= orig.skip(k + 1));
                assert(units[k] == orig[k].0);
                lemma_prefix_le_total(units, k + 1);
            }
            let ghost out0 = out@;
            let p = work.remove(0);
            let sz = p.0.get_byte_size();
            out.push((p.0, running + offset));
            running = running + sz;
            proof {
                assert(pair_views(out@) =~= pair_views(out0).push(pair_views(out@).last()));
            }
        }
        self.instructions = out;
    }

    /// Whether every unit's byte size is defined and the whole image,
    /// placed at the given base offset, fits the machine.
    #[verifier::loop_isolation(false)]
    fn sizes_fit(&self, offset: usize) -> (b: bool)
        ensures
            b == (all_sizes_ok(units_of(self@)) && offset + total_size(units_of(self@))
                <= usize::MAX),
    {
        let ghost units = units_of(self@);
        let mut total: usize = 0;
        let mut i: usize = 0;
        while i < self.instructions.len()
            invariant
                i <= self.instructions@.len(),
                total as nat == prefix_size(units, i as int),
                forall|j: int| 0 <= j < i ==> unit_size_ok(#[trigger] units[j]),
            decreases self.instructions@.len() - i,
        {
            proof {
                assert(units[i as int] == self.instructions@[i as int].0@);
            }
            if !crate::units::unit_size_ok_exec(&self.instructions[i].0) {
                return false;
            }
            let sz = self.instructions[i].0.get_byte_size();
            if usize::MAX - total < sz {
                proof {
                    lemma_prefix_le_total(units, i + 1);
                }
                return false;
            }
            total = total + sz;
            i = i + 1;
        }
        offset <= usize::MAX - total
    }

    /// Builds the assembly from a fully loaded unit list: define
    /// substitution runs first, then every unit gets its offset.  Rejected
    /// when some unit's byte size is undefined after substitution (an
    /// `offset` directive whose count does not parse, or a `text` or
    /// `offset` directive without arguments) or the image does not fit.
    #[verifier::loop_isolation(false)]
    pub fn new(instructions: Vec<AsmEnum>, offset: usize) -> (r: Result<
        Assembly,
        ParseOperandError,
    >)
        ensures
            ({
                let su = resolve_defines(unit_views(instructions@));
                match r {
                    Ok(a) => all_sizes_ok(su) && offset + total_size(su) <= usize::MAX && a@.len()
                        == su.len() && (forall|i: int|
                        0 <= i < su.len() ==> #[trigger] a@[i] == (
                        su[i],
                        (offset + prefix_size(su, i)) as usize,
                        )),
                    Err(_) => !(all_sizes_ok(su) && offset + total_size(su) <= usize::MAX),
                }
            }),
    {
        let ghost uv = unit_views(instructions@);
        let ghost su = resolve_defines(uv);
        let mut work = instructions;
        let mut pairs: Vec<(AsmEnum, usize)> = Vec::new();
        while work.len() > 0
            invariant
                pairs@.len() + work@.len() == uv.len(),
                unit_views(work@) =~= uv.skip(pairs@.len() as int),
                forall|j: int|
                    0 <= j < pairs@.len() ==> #[trigger] pair_views(pairs@)[j] == (uv[j], 0usize),
            decreases work@.len(),
        {
            let ghost k = pairs@.len() as int;
            proof {
                assert(unit_views(work@)[0] == uv[k]);
                assert(unit_views(work@.remove(0)) =~= unit_views(work@).drop_first());
                assert(unit_views(work@).drop_first() =~= uv.skip(k + 1));
            }
            let ghost p0 = pairs@;
            let u = work.remove(0);
            pairs.push((u, 0));
            proof {
                assert(pair_views(pairs@) =~= pair_views(p0).push((u@, 0usize)));
            }
        }
        let mut a = Assembly { instructions: pairs };
        proof {
            assert(units_of(a@) =~= uv);
            assert(define_table(units_of(a@)) == define_table(uv));
        }
        a.update_defines();
        proof {
            assert(units_of(a@) =~= su);
        }
        if !a.sizes_fit(offset) {
            return Err(
                ParseOperandError::new(
                    String::from_str("Invalid unit size or image too large for base offset"),
                ),
            );
        }
        a.update_offsets(offset);
        proof {
            assert(forall|i: int|
                0 <= i < su.len() ==> units_of(a@)[i] == #[trigger] a@[i].0);
        }
        Ok(a)
    }
}

// ---------------------------------------------------------------------
// Executable emission
// ---------------------------------------------------------------------

/// An unparsable argument anywhere spoils a `db` directive.
proof fn lemma_emit_db_bad(args: Seq<Seq<char>>, i: int)
    requires
        0 <= i < args.len(),
        numeric_val(args[i]) is None,
    ensures
        emit_db(args) is None,
    decreases args.len(),
{
    if i < args.len() - 1 {
        assert(args.drop_last()[i] == args[i]);
        lemma_emit_db_bad(args.drop_last(), i);
    }
}

/// An unparsable argument anywhere spoils a `dw` directive.
proof fn lemma_emit_dw_bad(args: Seq<Seq<char>>, i: int)
    requires
        0 <= i < args.len(),
        numeric_val(args[i]) is None,
    ensures
        emit_dw(args) is None,
    decreases args.len(),
{
    if i < args.len() - 1 {
        assert(args.drop_last()[i] == args[i]);
        lemma_emit_dw_bad(args.drop_last(), i);
    }
}

/// A unit that fails to emit anywhere spoils the whole sequence.
proof fn lemma_emit_units_bad(units: Seq<UnitView>, i: int)
    requires
        0 <= i < units.len(),
        emit_unit(units[i]) is None,
    ensures
        emit_units(units) is None,
    decreases units.len(),
{
    if i < units.len() - 1 {
        assert(units.drop_last()[i] == units[i]);
        lemma_emit_units_bad(units.drop_last(), i);
    }
}

/// The bytes of a `db` directive: each argument read as a numeric literal,
/// its low byte emitted.
#[verifier::loop_isolation(false)]
fn emit_db_exec(args: &Vec<String>) -> (r: Result<Vec<u8>, ParseOperandError>)
    ensures
        match r {
            Ok(b) => emit_db(string_views(args@)) == Some(b@),
            Err(_) => emit_db(string_views(args@)) is None,
        },
{
    let ghost sv = string_views(args@);
    let mut out: Vec<u8> = Vec::new();
    let mut i: usize = 0;
    proof {
        assert(sv.take(0) =~= Seq::<Seq<char>>::empty());
    }
    while i < args.len()
        invariant
            i <= args@.len(),
            emit_db(sv.take(i as int)) == Some(out@),
        decreases args@.len() - i,
    {
        proof {
            assert(sv.take(i + 1).drop_last() =~= sv.take(i as int));
            assert(sv.take(i + 1).last() == args@[i as int]@);
        }
        let v = chars_of(args[i].as_str());
        match numeric_val_exec(&v) {
            Some(n) => {
                out.push((n & 0xFF) as u8);
            },
            None => {
                proof {
                    lemma_emit_db_bad(sv, i as int);
                }
                return Err(
                    ParseOperandError::new(
                        String::from_str("Unable to convert to bytes: ").concat(args[i].as_str()),
                    ),
                );
            },
        }
        i = i + 1;
    }
    proof {
        assert(sv.take(sv.len() as int) =~= sv);
    }
    Ok(out)
}

/// The bytes of a `dw` directive: each argument read as a numeric literal,
/// emitted big-endian.
#[verifier::loop_isolation(false)]
fn emit_dw_exec(args: &Vec<String>) -> (r: Result<Vec<u8>, ParseOperandError>)
    ensures
        match r {
            Ok(b) => emit_dw(string_views(args@)) == Some(b@),
            Err(_) => emit_dw(string_views(args@)) is None,
        },
{
    let ghost sv = string_views(args@);
    let mut out: Vec<u8> = Vec::new();
    let mut i: usize = 0;
    proof {
        assert(sv.take(0) =~= Seq::<Seq<char>>::empty());
    }
    while i < args.len()
        invariant
            i <= args@.len(),
            emit_dw(sv.take(i as int)) == Some(out@),
        decreases args@.len() - i,
    {
        proof {
            assert(sv.take(i + 1).drop_last() =~= sv.take(i as int));
            assert(sv.take(i + 1).last() == args@[i as int]@);
        }
        let v = chars_of(args[i].as_str());
        match numeric_val_exec(&v) {
            Some(n) => {
                out.push((n >> 8) as u8);
                out.push((n & 0xFF) as u8);
            },
            None => {
                proof {
                    lemma_emit_dw_bad(sv, i as int);
                }
                return Err(
                    ParseOperandError::new(
                        String::from_str("Unable to convert to bytes: ").concat(args[i].as_str()),
                    ),
                );
            },
        }
        i = i + 1;
    }
    proof {
        assert(sv.take(sv.len() as int) =~= sv);
    }
    Ok(out)
}

/// The bytes of a `text` directive: each argument's characters, truncated
/// to bytes, followed by one zero terminator.
#[verifier::loop_isolation(false)]
fn emit_text_exec(args: &Vec<String>) -> (r: Vec<u8>)
    ensures
        r@ == emit_text(string_views(args@)),
{
    let ghost sv = string_views(args@);
    let mut out: Vec<u8> = Vec::new();
    let mut i: usize = 0;
    proof {
        assert(sv.take(0) =~= Seq::<Seq<char>>::empty());
        assert(out@ =~= emit_text(sv.take(0)));
    }
    while i < args.len()
        invariant
            i <= args@.len(),
            out@ == emit_text(sv.take(i as int)),
        decreases args@.len() - i,
    {
        proof {
            assert(sv.take(i + 1).drop_last() =~= sv.take(i as int));
            assert(sv.take(i + 1).last() == args@[i as int]@);
        }
        let ghost base = out@;
        let v = chars_of(args[i].as_str());
        let mut k: usize = 0;
        while k < v.len()
            invariant
                k <= v@.len(),
                out@ == base + v@.take(k as int).map_values(|c: char| char_byte(c)),
            decreases v@.len() - k,
        {
            out.push(((v[k] as u32) & 0xFF) as u8);
            proof {
                assert(v@.take(k + 1).map_values(|c: char| char_byte(c)) =~= v@.take(
                    k as int,
                ).map_values(|c: char| char_byte(c)).push(char_byte(v@[k as int])));
                assert(out@ =~= base + v@.take(k + 1).map_values(|c: char| char_byte(c)));
            }
            k = k + 1;
        }
        out.push(0);
        proof {
            assert(v@.take(v@.len() as int) =~= v@);
            assert(out@ =~= base + text_bytes(args@[i as int]@));
            assert(out@ =~= emit_text(sv.take(i + 1)));
        }
        i = i + 1;
    }
    proof {
        assert(sv.take(sv.len() as int) =~= sv);
    }
    out
}

/// The bytes of an `offset` directive: that many zero bytes.
#[verifier::loop_isolation(false)]
fn emit_offset_exec(args: &Vec<String>) -> (r: Result<Vec<u8>, ParseOperandError>)
    ensures
        match r {
            Ok(b) => emit_offset(string_views(args@)) == Some(b@),
            Err(_) => emit_offset(string_views(args@)) is None,
        },
{
    let ghost sv = string_views(args@);
    if args.len() == 0 {
        return Err(ParseOperandError::new(String::from_str("Missing padding count")));
    }
    let v = chars_of(args[0].as_str());
    match numeric_val_exec(&v) {
        Some(n) => {
            let mut out: Vec<u8> = Vec::new();
            let mut k: u16 = 0;
            proof {
                assert(out@ =~= Seq::new(0 as nat, |i: int| 0u8));
            }
            while k < n
                invariant
                    k <= n,
                    out@ == Seq::new(k as nat, |i: int| 0u8),
                decreases n - k,
            {
                out.push(0);
                proof {
                    assert(out@ =~= Seq::new((k + 1) as nat, |i: int| 0u8));
                }
                k = k + 1;
            }
            Ok(out)
        },
        None => Err(
            ParseOperandError::new(
                String::from_str("Unable to convert to bytes: ").concat(args[0].as_str()),
            ),
        ),
    }
}

/// The bytes one unit contributes, or the failure that spoils the image.
fn emit_unit_exec(u: &AsmEnum) -> (r: Result<Vec<u8>, ParseOperandError>)
    ensures
        match r {
            Ok(b) => emit_unit(u@) == Some(b@),
            Err(_) => emit_unit(u@) is None,
        },
{
    match u {
        AsmEnum::Instruction(inst) => {
            match Opcode::from_instruction(inst.clone()) {
                Some(op) => match op.to_bytes() {
                    Ok(w) => {
                        let mut b: Vec<u8> = Vec::new();
                        b.push((w >> 8) as u8);
                        b.push((w & 0xFF) as u8);
                        proof {
                            assert(b@ =~= seq![byte_hi(w), byte_lo(w)]);
                        }
                        Ok(b)
                    },
                    Err(e) => Err(
                        ParseOperandError::new(
                            String::from_str("Unable to convert to bytes: ").concat(
                                e.message.as_str(),
                            ),
                        ),
                    ),
                },
                None => Err(
                    ParseOperandError::new(
                        String::from_str("Invalid instruction: ").concat(inst.mnemonic.as_str()),
                    ),
                ),
            }
        },
        AsmEnum::Directive(d) => {
            let lm = to_lower_string(&d.mnemonic);
            if lm == String::from_str("db") {
                emit_db_exec(&d.args)
            } else if lm == String::from_str("dw") {
                emit_dw_exec(&d.args)
            } else if lm == String::from_str("text") {
                Ok(emit_text_exec(&d.args))
            } else if lm == String::from_str("offset") {
                emit_offset_exec(&d.args)
            } else {
                let b: Vec<u8> = Vec::new();
                proof {
                    assert(b@ =~= Seq::<u8>::empty());
                }
                Ok(b)
            }
        },
        _ => {
            let b: Vec<u8> = Vec::new();
            proof {
                assert(b@ =~= Seq::<u8>::empty());
            }
            Ok(b)
        },
    }
}

impl Assembly {
    /// Resolves every label to its offset, then serializes the whole unit
    /// sequence: instructions as big-endian opcode words, directives as
    /// their raw bytes, labels and defines as nothing.  Any encoding or
    /// parse failure aborts the whole operation.
    #[verifier::loop_isolation(false)]
    pub fn to_bytes(&mut self) -> (r: Result<Vec<u8>, ParseOperandError>)
        ensures
            final(self)@ == resolve_labels(old(self)@),
            match r {
                Ok(b) => emit_units(units_of(resolve_labels(old(self)@))) == Some(b@),
                Err(_) => emit_units(units_of(resolve_labels(old(self)@))) is None,
            },
    {
        self.update_labels();
        let ghost units = units_of(self@);
        let mut bytes: Vec<u8> = Vec::new();
        let mut i: usize = 0;
        proof {
            assert(units.take(0) =~= Seq::<UnitView>::empty());
        }
        while i < self.instructions.len()
            invariant
                i <= self.instructions@.len(),
                units == units_of(self@),
                emit_units(units.take(i as int)) == Some(bytes@),
            decreases self.instructions@.len() - i,
        {
            proof {
                assert(units.take(i + 1).drop_last() =~= units.take(i as int));
                assert(units.take(i + 1).last() == units[i as int]);
                assert(units[i as int] == self.instructions@[i as int].0@);
            }
            match emit_unit_exec(&self.instructions[i].0) {
                Ok(mut b) => {
                    bytes.append(&mut b);
                },
                Err(e) => {
                    proof {
                        lemma_emit_units_bad(units, i as int);
                    }
                    return Err(e);
                },
            }
            i = i + 1;
        }
        proof {
            assert(units.take(units.len() as int) =~= units);
        }
        Ok(bytes)
    }
}

} // verus!

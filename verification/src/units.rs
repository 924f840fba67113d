//! The typed source units: instructions, labels, defines and directives,
//! with their byte sizes and their line-level parsers.

use vstd::prelude::*;

use crate::operand::numeric_val;
use crate::operand::numeric_val_exec;
use crate::operand::Operand;
use crate::text::chars_of;
use crate::text::first_token;
use crate::text::is_space;
use crate::text::remove_char;
use crate::text::remove_char_exec;
use crate::text::rest_after_token;
use crate::text::skip_spaces;
use crate::text::space_char;
use crate::text::string_of;
use crate::text::to_lower;
use crate::text::to_lower_string;
use crate::text::token_end;
use crate::text::trim_chars;
use crate::text::trim_range;
use crate::text::trim_spec;

verus! {

/// Relies on `char::is_alphanumeric`: whether the character is a letter or
/// a digit.  On the ASCII range those are exactly the decimal digits and the
/// letters of either case.
pub uninterp spec fn is_alnum_char(c: char) -> bool;

/// Relies on `char::is_alphanumeric`, as named by `is_alnum_char`.
#[verifier::external_body]
pub fn alnum_char(c: char) -> (b: bool)
    ensures
        b == is_alnum_char(c),
        (c as u32) < 128 ==> b == (('0' as u32 <= c as u32 && c as u32 <= '9' as u32) || ('a' as u32
            <= c as u32 && c as u32 <= 'z' as u32) || ('A' as u32 <= c as u32 && c as u32
            <= 'Z' as u32)),
{
    c.is_alphanumeric()
}

/// The model of an instruction: its mnemonic and its operand spellings.
pub ghost struct InstrView {
    pub mnemonic: Seq<char>,
    pub args: Seq<Seq<char>>,
}

/// The model of a directive: its mnemonic and its argument spellings.
pub ghost struct DirectiveView {
    pub mnemonic: Seq<char>,
    pub args: Seq<Seq<char>>,
}

/// The model of one source unit.
pub ghost enum UnitView {
    Instr(InstrView),
    Label(Seq<char>),
    Define(Seq<char>, Seq<char>),
    Directive(DirectiveView),
}

/// The spellings of a sequence of operands.
pub open spec fn operand_views(s: Seq<Operand>) -> Seq<Seq<char>> {
    s.map_values(|o: Operand| o@)
}

/// The views of a sequence of strings.
pub open spec fn string_views(s: Seq<String>) -> Seq<Seq<char>> {
    s.map_values(|x: String| x@)
}

/// Instruction operand splitting: fields separated by commas or whitespace,
/// empty fields dropped.
pub open spec fn instr_args_go(s: Seq<char>, cur: Seq<char>, acc: Seq<Seq<char>>) -> Seq<Seq<char>>
    decreases s.len(),
{
    if s.len() == 0 {
        if cur.len() > 0 {
            acc.push(cur)
        } else {
            acc
        }
    } else if s[0] == ',' || is_space(s[0]) {
        instr_args_go(
            s.drop_first(),
            Seq::empty(),
            if cur.len() > 0 {
                acc.push(cur)
            } else {
                acc
            },
        )
    } else {
        instr_args_go(s.drop_first(), cur.push(s[0]), acc)
    }
}

/// The operand spellings of an instruction line remainder.
pub open spec fn instr_args(s: Seq<char>) -> Seq<Seq<char>> {
    instr_args_go(s, Seq::empty(), Seq::empty())
}

/// Directive argument splitting: commas and whitespace separate arguments,
/// except inside a double-quoted span; the quotes themselves are dropped;
/// each argument is trimmed; the last field is always kept, the others only
/// when non-empty.
pub open spec fn dir_args_go(
    s: Seq<char>,
    cur: Seq<char>,
    inq: bool,
    acc: Seq<Seq<char>>,
) -> Seq<Seq<char>>
    decreases s.len(),
{
    if s.len() == 0 {
        acc.push(trim_spec(cur))
    } else if s[0] == '"' {
        dir_args_go(s.drop_first(), cur, !inq, acc)
    } else if (s[0] == ',' || is_space(s[0])) && cur.len() > 0 && !inq {
        dir_args_go(s.drop_first(), Seq::empty(), inq, acc.push(trim_spec(cur)))
    } else {
        dir_args_go(s.drop_first(), cur.push(s[0]), inq, acc)
    }
}

/// The argument spellings of a directive line remainder.
pub open spec fn dir_args(s: Seq<char>) -> Seq<Seq<char>> {
    dir_args_go(s, Seq::empty(), false, Seq::empty())
}

/// The second whitespace-delimited token of a line.
pub open spec fn second_token(s: Seq<char>) -> Seq<char> {
    first_token(rest_after_token(s))
}

/// The third whitespace-delimited token of a line.
pub open spec fn third_token(s: Seq<char>) -> Seq<char> {
    first_token(rest_after_token(rest_after_token(s)))
}

/// The byte size of an instruction: two for an ordinary mnemonic, zero when
/// the mnemonic position holds a non-alphanumeric marker.
pub open spec fn instr_size(m: Seq<char>) -> nat {
    if m.len() > 0 && !is_alnum_char(m[0]) {
        0
    } else {
        2
    }
}

/// The byte size of a directive.
pub open spec fn directive_size(m: Seq<char>, args: Seq<Seq<char>>) -> nat {
    let lm = to_lower(m);
    if lm == "db"@ {
        args.len()
    } else if lm == "dw"@ {
        args.len() * 2
    } else if lm == "text"@ {
        if args.len() > 0 {
            args[0].len() + 1
        } else {
            0
        }
    } else if lm == "offset"@ {
        if args.len() > 0 {
            match numeric_val(args[0]) {
                Some(n) => n as nat,
                None => 0,
            }
        } else {
            0
        }
    } else {
        0
    }
}

/// When the byte size of a directive is defined: `text` and `offset` need a
/// first argument, an `offset` count must parse, and the size must fit the
/// machine.
pub open spec fn directive_size_ok(m: Seq<char>, args: Seq<Seq<char>>) -> bool {
    let lm = to_lower(m);
    if lm == "db"@ {
        true
    } else if lm == "dw"@ {
        2 * args.len() <= usize::MAX
    } else if lm == "text"@ {
        args.len() >= 1 && args[0].len() + 1 <= usize::MAX
    } else if lm == "offset"@ {
        args.len() >= 1 && numeric_val(args[0]) is Some
    } else {
        true
    }
}

/// Whether the byte size of the directive is defined, checked on the value.
pub fn directive_size_ok_exec(d: &Directive) -> (b: bool)
    ensures
        b == directive_size_ok(d@.mnemonic, d@.args),
{
    let lm = to_lower_string(&d.mnemonic);
    if lm == String::from_str("db") {
        true
    } else if lm == String::from_str("dw") {
        d.args.len() <= usize::MAX / 2
    } else if lm == String::from_str("text") {
        d.args.len() >= 1 && d.args[0].as_str().unicode_len() < usize::MAX
    } else if lm == String::from_str("offset") {
        if d.args.len() >= 1 {
            let v = chars_of(d.args[0].as_str());
            numeric_val_exec(&v).is_some()
        } else {
            false
        }
    } else {
        true
    }
}

/// A copy of `v@.subrange(i, j)`.
#[verifier::loop_isolation(false)]
pub fn copy_range(v: &Vec<char>, i: usize, j: usize) -> (r: Vec<char>)
    requires
        i <= j <= v@.len(),
    ensures
        r@ == v@.subrange(i as int, j as int),
{
    let mut r: Vec<char> = Vec::new();
    let mut k: usize = i;
    while k < j
        invariant
            i <= k <= j,
            r@ == v@.subrange(i as int, k as int),
        decreases j - k,
    {
        r.push(v[k]);
        proof {
            assert(v@.subrange(i as int, k + 1 as int) =~= v@.subrange(i as int, k as int).push(
                v@[k as int],
            ));
        }
        k = k + 1;
    }
    r
}

/// The operands of an instruction line, split from `v@.skip(start)`.
#[verifier::loop_isolation(false)]
pub fn parse_instr_args(v: &Vec<char>, start: usize) -> (r: Vec<Operand>)
    requires
        start <= v@.len(),
    ensures
        operand_views(r@) == instr_args(v@.skip(start as int)),
{
    let mut out: Vec<Operand> = Vec::new();
    let mut cur: Vec<char> = Vec::new();
    let mut j: usize = start;
    proof {
        assert(operand_views(out@) =~= Seq::<Seq<char>>::empty());
    }
    while j < v.len()
        invariant
            start <= j <= v@.len(),
            instr_args(v@.skip(start as int)) == instr_args_go(
                v@.skip(j as int),
                cur@,
                operand_views(out@),
            ),
        decreases v@.len() - j,
    {
        proof {
            assert(v@.skip(j as int).drop_first() =~= v@.skip(j + 1 as int));
        }
        let c = v[j];
        if c == ',' || space_char(c) {
            if cur.len() > 0 {
                let ghost out0 = operand_views(out@);
                out.push(Operand::new(string_of(&cur)));
                proof {
                    assert(operand_views(out@) =~= out0.push(cur@));
                }
                cur = Vec::new();
            }
            proof {
                assert(cur@ =~= Seq::<char>::empty());
            }
        } else {
            cur.push(c);
        }
        j = j + 1;
    }
    proof {
        assert(v@.skip(v@.len() as int) =~= Seq::<char>::empty());
    }
    if cur.len() > 0 {
        let ghost out0 = operand_views(out@);
        out.push(Operand::new(string_of(&cur)));
        proof {
            assert(operand_views(out@) =~= out0.push(cur@));
        }
    }
    out
}

/// The arguments of a directive line, split from `v@.skip(start)`.
#[verifier::loop_isolation(false)]
pub fn parse_dir_args(v: &Vec<char>, start: usize) -> (r: Vec<String>)
    requires
        start <= v@.len(),
    ensures
        string_views(r@) == dir_args(v@.skip(start as int)),
{
    let mut out: Vec<String> = Vec::new();
    let mut cur: Vec<char> = Vec::new();
    let mut inq: bool = false;
    let mut j: usize = start;
    proof {
        assert(string_views(out@) =~= Seq::<Seq<char>>::empty());
    }
    while j < v.len()
        invariant
            start <= j <= v@.len(),
            dir_args(v@.skip(start as int)) == dir_args_go(
                v@.skip(j as int),
                cur@,
                inq,
                string_views(out@),
            ),
        decreases v@.len() - j,
    {
        proof {
            assert(v@.skip(j as int).drop_first() =~= v@.skip(j + 1 as int));
        }
        let c = v[j];
        if c == '"' {
            inq = !inq;
        } else if (c == ',' || space_char(c)) && cur.len() > 0 && !inq {
            let ghost out0 = string_views(out@);
            out.push(string_of(&trim_chars(&cur)));
            proof {
                assert(string_views(out@) =~= out0.push(trim_spec(cur@)));
            }
            cur = Vec::new();
            proof {
                assert(cur@ =~= Seq::<char>::empty());
            }
        } else {
            cur.push(c);
        }
        j = j + 1;
    }
    proof {
        assert(v@.skip(v@.len() as int) =~= Seq::<char>::empty());
    }
    let ghost out0 = string_views(out@);
    out.push(string_of(&trim_chars(&cur)));
    proof {
        assert(string_views(out@) =~= out0.push(trim_spec(cur@)));
    }
    out
}

/// A source unit: something with a byte size that can be read from a line.
pub trait Asm: Sized {
    /// Whether the byte size of the unit is defined.
    spec fn size_ok(&self) -> bool;

    /// The byte size the unit contributes to the image.
    spec fn spec_byte_size(&self) -> nat;

    /// Whether a line is well-shaped for this unit kind.
    spec fn line_ok(line: Seq<char>) -> bool;

    /// How a parsed unit relates to the line it came from.
    spec fn from_line_rel(line: Seq<char>, r: &Self) -> bool;

    fn get_byte_size(&self) -> (n: usize)
        requires
            self.size_ok(),
        ensures
            n as nat == self.spec_byte_size(),
    ;

    fn from_line(line: String) -> (r: Self)
        requires
            Self::line_ok(line@),
        ensures
            Self::from_line_rel(line@, &r),
    ;
}

/// An instruction: a mnemonic and its ordered operands.
pub struct Instruction {
    pub mnemonic: String,
    pub args: Vec<Operand>,
}

impl View for Instruction {
    type V = InstrView;

    open spec fn view(&self) -> InstrView {
        InstrView { mnemonic: self.mnemonic@, args: operand_views(self.args@) }
    }
}

impl Instruction {
    pub fn new(mnemonic: String, args: Vec<String>) -> (r: Instruction)
        ensures
            r@.mnemonic == mnemonic@,
            r@.args == string_views(args@),
    {
        let mut ops: Vec<Operand> = Vec::new();
        let mut i: usize = 0;
        proof {
            assert(operand_views(ops@) =~= string_views(args@.take(0)));
        }
        while i < args.len()
            invariant
                i <= args@.len(),
                operand_views(ops@) == string_views(args@.take(i as int)),
            decreases args@.len() - i,
        {
            let ghost o0 = operand_views(ops@);
            ops.push(Operand::new(args[i].clone()));
            proof {
                assert(operand_views(ops@) =~= o0.push(args@[i as int]@));
                assert(string_views(args@.take(i + 1 as int)) =~= string_views(
                    args@.take(i as int),
                ).push(args@[i as int]@));
            }
            i = i + 1;
        }
        proof {
            assert(args@.take(args@.len() as int) =~= args@);
        }
        Instruction { mnemonic, args: ops }
    }
}

impl Clone for Instruction {
    fn clone(&self) -> (r: Self)
        ensures
            r@ == self@,
    {
        let mut ops: Vec<Operand> = Vec::new();
        let mut i: usize = 0;
        proof {
            assert(operand_views(ops@) =~= operand_views(self.args@.take(0)));
        }
        while i < self.args.len()
            invariant
                i <= self.args@.len(),
                operand_views(ops@) == operand_views(self.args@.take(i as int)),
            decreases self.args@.len() - i,
        {
            let ghost o0 = operand_views(ops@);
            ops.push(self.args[i].clone());
            proof {
                assert(operand_views(ops@) =~= o0.push(self.args@[i as int]@));
                assert(operand_views(self.args@.take(i + 1 as int)) =~= operand_views(
                    self.args@.take(i as int),
                ).push(self.args@[i as int]@));
            }
            i = i + 1;
        }
        proof {
            assert(self.args@.take(self.args@.len() as int) =~= self.args@);
        }
        let r = Instruction { mnemonic: self.mnemonic.clone(), args: ops };
        proof {
            assert(r@ =~= self@);
        }
        r
    }
}

impl Asm for Instruction {
    open spec fn size_ok(&self) -> bool {
        self@.mnemonic.len() > 0
    }

    open spec fn spec_byte_size(&self) -> nat {
        instr_size(self@.mnemonic)
    }

    open spec fn line_ok(line: Seq<char>) -> bool {
        first_token(line).len() > 0
    }

    open spec fn from_line_rel(line: Seq<char>, r: &Self) -> bool {
        &&& r@.mnemonic == first_token(line)
        &&& r@.args == instr_args(rest_after_token(line))
    }

    fn get_byte_size(&self) -> (n: usize)
    {
        let c = self.mnemonic.as_str().get_char(0);
        if !alnum_char(c) {
            0
        } else {
            2
        }
    }

    fn from_line(line: String) -> (r: Self)
    {
        let v = chars_of(line.as_str());
        let a = skip_spaces(&v, 0);
        let b = token_end(&v, a);
        proof {
            assert(v@.skip(0) =~= v@);
        }
        let mnemonic = string_of(&copy_range(&v, a, b));
        let args = parse_instr_args(&v, b);
        Instruction { mnemonic, args }
    }
}

/// A label: a symbolic name marking the offset where it stands.
pub struct Label {
    pub name: String,
}

impl View for Label {
    type V = Seq<char>;

    open spec fn view(&self) -> Seq<char> {
        self.name@
    }
}

impl Label {
    pub fn new(name: String) -> (r: Label)
        ensures
            r@ == name@,
    {
        Label { name }
    }
}

impl Asm for Label {
    open spec fn size_ok(&self) -> bool {
        true
    }

    open spec fn spec_byte_size(&self) -> nat {
        0
    }

    open spec fn line_ok(line: Seq<char>) -> bool {
        true
    }

    open spec fn from_line_rel(line: Seq<char>, r: &Self) -> bool {
        r@ == remove_char(line, ':')
    }

    fn get_byte_size(&self) -> (n: usize)
    {
        0
    }

    fn from_line(line: String) -> (r: Self)
    {
        let v = chars_of(line.as_str());
        Label { name: string_of(&remove_char_exec(&v, ':')) }
    }
}

/// A define: a key/value text substitution pair.
pub struct Define {
    pub key: String,
    pub value: String,
}

impl View for Define {
    type V = (Seq<char>, Seq<char>);

    open spec fn view(&self) -> (Seq<char>, Seq<char>) {
        (self.key@, self.value@)
    }
}

impl Define {
    pub fn new(key: String, value: String) -> (r: Define)
        ensures
            r@ == (key@, value@),
    {
        Define { key, value }
    }
}

impl Asm for Define {
    open spec fn size_ok(&self) -> bool {
        true
    }

    open spec fn spec_byte_size(&self) -> nat {
        0
    }

    open spec fn line_ok(line: Seq<char>) -> bool {
        second_token(line).len() > 0 && third_token(line).len() > 0
    }

    open spec fn from_line_rel(line: Seq<char>, r: &Self) -> bool {
        r@ == (second_token(line), third_token(line))
    }

    fn get_byte_size(&self) -> (n: usize)
    {
        0
    }

    fn from_line(line: String) -> (r: Self)
    {
        let v = chars_of(line.as_str());
        proof {
            assert(v@.skip(0) =~= v@);
        }
        let a0 = skip_spaces(&v, 0);
        let b0 = token_end(&v, a0);
        let a1 = skip_spaces(&v, b0);
        let b1 = token_end(&v, a1);
        let a2 = skip_spaces(&v, b1);
        let b2 = token_end(&v, a2);
        let key = string_of(&copy_range(&v, a1, b1));
        let value = string_of(&copy_range(&v, a2, b2));
        Define { key, value }
    }
}

/// A directive: raw data or padding (`db`, `dw`, `text`, `offset`).
pub struct Directive {
    pub mnemonic: String,
    pub args: Vec<String>,
}

impl View for Directive {
    type V = DirectiveView;

    open spec fn view(&self) -> DirectiveView {
        DirectiveView { mnemonic: self.mnemonic@, args: string_views(self.args@) }
    }
}

impl Directive {
    pub fn new(mnemonic: String, args: Vec<String>) -> (r: Directive)
        ensures
            r@.mnemonic == mnemonic@,
            r@.args == string_views(args@),
    {
        Directive { mnemonic, args }
    }
}

impl Asm for Directive {
    open spec fn size_ok(&self) -> bool {
        directive_size_ok(self@.mnemonic, self@.args)
    }

    open spec fn spec_byte_size(&self) -> nat {
        directive_size(self@.mnemonic, self@.args)
    }

    open spec fn line_ok(line: Seq<char>) -> bool {
        true
    }

    open spec fn from_line_rel(line: Seq<char>, r: &Self) -> bool {
        &&& r@.mnemonic == first_token(line)
        &&& r@.args == dir_args(trim_spec(rest_after_token(line)))
    }

    fn get_byte_size(&self) -> (n: usize)
    {
        let lm = to_lower_string(&self.mnemonic);
        if lm == String::from_str("db") {
            self.args.len()
        } else if lm == String::from_str("dw") {
            self.args.len() * 2
        } else if lm == String::from_str("text") {
            self.args[0].as_str().unicode_len() + 1
        } else if lm == String::from_str("offset") {
            let v = chars_of(self.args[0].as_str());
            proof {
                assert(v@.skip(0) =~= v@);
            }
            let n = numeric_val_exec(&v);
            match n {
                Some(n) => n as usize,
                None => 0,
            }
        } else {
            0
        }
    }

    fn from_line(line: String) -> (r: Self)
    {
        let v = chars_of(line.as_str());
        proof {
            assert(v@.skip(0) =~= v@);
        }
        let a = skip_spaces(&v, 0);
        let b = token_end(&v, a);
        let mnemonic = string_of(&copy_range(&v, a, b));
        let rest = trim_range(&v, b, v.len());
        proof {
            assert(v@.subrange(b as int, v@.len() as int) =~= v@.skip(b as int));
            assert(rest@.skip(0) =~= rest@);
        }
        let args = parse_dir_args(&rest, 0);
        Directive { mnemonic, args }
    }
}

/// One source unit of any of the four kinds.
pub enum AsmEnum {
    Instruction(Instruction),
    Label(Label),
    Define(Define),
    Directive(Directive),
}

impl View for AsmEnum {
    type V = UnitView;

    open spec fn view(&self) -> UnitView {
        match self {
            AsmEnum::Instruction(i) => UnitView::Instr(i@),
            AsmEnum::Label(l) => UnitView::Label(l@),
            AsmEnum::Define(d) => UnitView::Define(d@.0, d@.1),
            AsmEnum::Directive(d) => UnitView::Directive(d@),
        }
    }
}

/// The byte size of a unit.
pub open spec fn unit_size(u: UnitView) -> nat {
    match u {
        UnitView::Instr(iv) => instr_size(iv.mnemonic),
        UnitView::Label(_) => 0,
        UnitView::Define(_, _) => 0,
        UnitView::Directive(dv) => directive_size(dv.mnemonic, dv.args),
    }
}

/// When the byte size of a unit is defined.
pub open spec fn unit_size_ok(u: UnitView) -> bool {
    match u {
        UnitView::Instr(iv) => iv.mnemonic.len() > 0,
        UnitView::Label(_) => true,
        UnitView::Define(_, _) => true,
        UnitView::Directive(dv) => directive_size_ok(dv.mnemonic, dv.args),
    }
}

/// Whether the byte size of a unit is defined, checked on the value.
pub fn unit_size_ok_exec(u: &AsmEnum) -> (b: bool)
    ensures
        b == unit_size_ok(u@),
{
    match u {
        AsmEnum::Instruction(i) => i.mnemonic.as_str().unicode_len() > 0,
        AsmEnum::Label(_) => true,
        AsmEnum::Define(_) => true,
        AsmEnum::Directive(d) => directive_size_ok_exec(d),
    }
}

impl AsmEnum {
    pub fn get_byte_size(&self) -> (n: usize)
        requires
            unit_size_ok(self@),
        ensures
            n as nat == unit_size(self@),
    {
        match self {
            AsmEnum::Instruction(i) => i.get_byte_size(),
            AsmEnum::Label(l) => l.get_byte_size(),
            AsmEnum::Define(d) => d.get_byte_size(),
            AsmEnum::Directive(d) => d.get_byte_size(),
        }
    }
}

} // verus!

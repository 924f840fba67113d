//! The line-level half of the source loader: comment stripping, label
//! extraction, continuation joining and unit dispatch.  The scanner owns the
//! pending lines of one file; walking the file graph itself is input/output
//! work and stays with the caller.

use vstd::prelude::*;

use crate::operand::ParseOperandError;
use crate::text::after_char;
use crate::text::before_char;
use crate::text::chars_of;
use crate::text::contains_char;
use crate::text::contains_char_exec;
use crate::text::find_char;
use crate::text::first_token;
use crate::text::is_space;
use crate::text::skip_spaces;
use crate::text::string_of;
use crate::text::to_lower;
use crate::text::to_lower_string;
use crate::text::token_end;
use crate::text::trim_chars;
use crate::text::trim_range;
use crate::text::trim_spec;
use crate::text::trim_start_spec;
use crate::text::trim_end_spec;
use crate::units::dir_args;
use crate::units::instr_args;
use crate::units::second_token;
use crate::units::string_views;
use crate::units::third_token;
use crate::units::Asm;
use crate::units::AsmEnum;
use crate::units::Define;
use crate::units::Directive;
use crate::units::DirectiveView;
use crate::units::Instruction;
use crate::units::InstrView;
use crate::units::Label;
use crate::units::UnitView;

verus! {

/// The line up to the first comment marker.
pub open spec fn without_comments_spec(s: Seq<char>) -> Seq<char> {
    before_char(s, ';')
}

/// A formatted logical line: comment stripped and trimmed; nothing is left
/// of a blank line.
pub open spec fn format_line_spec(s: Seq<char>) -> Option<Seq<char>> {
    let t = trim_spec(without_comments_spec(s));
    if t.len() == 0 {
        None
    } else {
        Some(t)
    }
}

/// Everything before the first comment marker (`;`).
pub fn without_comments(line: String) -> (r: String)
    ensures
        r@ == without_comments_spec(line@),
{
    let v = chars_of(line.as_str());
    let e = match find_char(&v, ';') {
        Some(e) => e,
        None => v.len(),
    };
    proof {
        if !contains_char(v@, ';') {
            assert(v@.subrange(0, v@.len() as int) =~= v@);
        }
    }
    string_of(&crate::units::copy_range(&v, 0, e))
}

/// The comment-stripped, trimmed logical line, or nothing for a blank one.
pub fn format_line(line: String) -> (r: Option<String>)
    ensures
        match r {
            Some(l) => format_line_spec(line@) == Some(l@),
            None => format_line_spec(line@) is None,
        },
{
    let v = chars_of(line.as_str());
    let e = match find_char(&v, ';') {
        Some(e) => e,
        None => v.len(),
    };
    proof {
        if !contains_char(v@, ';') {
            assert(v@.subrange(0, v@.len() as int) =~= v@);
        }
    }
    let t = trim_range(&v, 0, e);
    if t.len() == 0 {
        None
    } else {
        Some(string_of(&t))
    }
}

/// What label extraction yields from a line: the label spelling (with its
/// leading marker) and what remains of the line, if anything.  A line whose
/// text before the first `:` holds a quote character yields nothing, since
/// the marker may then sit inside a quoted span.
pub open spec fn extract_label_spec(s: Seq<char>) -> Option<(Seq<char>, Option<Seq<char>>)> {
    if !contains_char(s, ':') {
        None
    } else {
        let head = before_char(s, ':');
        let tail = after_char(s, ':');
        if contains_char(head, '"') || contains_char(head, '\'') {
            None
        } else {
            Some(
                (
                    seq![':'] + trim_spec(head),
                    if trim_spec(tail).len() == 0 {
                        None
                    } else {
                        Some(trim_spec(tail))
                    },
                ),
            )
        }
    }
}

/// Splits a line at its label marker: the label spelling and the remainder
/// of the line, if the line carries a label at all.
pub fn extract_label(line: String) -> (r: Option<(String, Option<String>)>)
    ensures
        match r {
            Some(p) => ({
                let q = extract_label_spec(line@);
                &&& q is Some
                &&& ({
                    let lab = q->0;
                    &&& p.0@ == lab.0
                    &&& match p.1 {
                        Some(rem) => lab.1 == Some(rem@),
                        None => lab.1 is None,
                    }
                })
            }),
            None => extract_label_spec(line@) is None,
        },
{
    let v = chars_of(line.as_str());
    let e = match find_char(&v, ':') {
        Some(e) => e,
        None => {
            return None;
        },
    };
    let head = crate::units::copy_range(&v, 0, e);
    if contains_char_exec(&head, '"') || contains_char_exec(&head, '\'') {
        return None;
    }
    let n = v.len();
    let mut label: Vec<char> = Vec::new();
    label.push(':');
    let mut trimmed_head = trim_chars(&head);
    label.append(&mut trimmed_head);
    proof {
        assert(label@ =~= seq![':'] + trim_spec(before_char(line@, ':')));
    }
    let tail = trim_range(&v, e + 1, n);
    proof {
        assert(v@.subrange(e + 1, v@.len() as int) =~= v@.skip(e + 1));
    }
    if tail.len() == 0 {
        Some((string_of(&label), None))
    } else {
        Some((string_of(&label), Some(string_of(&tail))))
    }
}

/// Whether a logical line asks for continuation: it ends with a separator
/// comma, or it is a bare data-declaration token.
pub open spec fn wants_continuation(l: Seq<char>) -> bool {
    (l.len() > 0 && l.last() == ',') || to_lower(l) == "db"@
}

fn wants_continuation_exec(l: &String) -> (b: bool)
    ensures
        b == wants_continuation(l@),
{
    let v = chars_of(l.as_str());
    if v.len() > 0 && v[v.len() - 1] == ',' {
        true
    } else {
        to_lower_string(l) == String::from_str("db")
    }
}

/// Continuation joining: while the line asks for more, the next pending
/// line is formatted and appended after a single blank; a blank next line,
/// or the end of the input, stops the joining.
pub open spec fn join_cont(l: Seq<char>, rem: Seq<Seq<char>>) -> (Seq<char>, Seq<Seq<char>>)
    decreases rem.len(),
{
    if wants_continuation(l) {
        if rem.len() == 0 {
            (l, rem)
        } else {
            match format_line_spec(rem[0]) {
                Some(nl) => join_cont(l + seq![' '] + nl, rem.drop_first()),
                None => (l, rem.drop_first()),
            }
        }
    } else {
        (l, rem)
    }
}

/// Unit dispatch over a joined logical line: the define keyword first, then
/// the four directive mnemonics, and anything else is an instruction.  A
/// define without its two fields after the keyword has no unit.
pub open spec fn dispatch_spec(l: Seq<char>) -> Option<UnitView> {
    let t = first_token(l);
    if t == "define"@ {
        if second_token(l).len() > 0 && third_token(l).len() > 0 {
            Some(UnitView::Define(second_token(l), third_token(l)))
        } else {
            None
        }
    } else if t == "db"@ || t == "dw"@ || t == "text"@ || t == "offset"@ {
        Some(
            UnitView::Directive(
                DirectiveView {
                    mnemonic: t,
                    args: dir_args(trim_spec(crate::text::rest_after_token(l))),
                },
            ),
        )
    } else {
        Some(UnitView::Instr(InstrView { mnemonic: t, args: instr_args(crate::text::rest_after_token(l)) }))
    }
}

/// What one formatted line turns into, against the pending lines: a label
/// line yields the label and re-injects its remainder; any other line is
/// joined with its continuations and dispatched.
pub open spec fn consume_spec(l: Seq<char>, rem: Seq<Seq<char>>) -> (
    Option<UnitView>,
    Seq<Seq<char>>,
) {
    match extract_label_spec(l) {
        Some(p) => (
            (
                Some(UnitView::Label(crate::text::remove_char(p.0, ':'))),
                match p.1 {
                    Some(r) => seq![r] + rem,
                    None => rem,
                },
            )
        ),
        None => {
            let jr = join_cont(l, rem);
            (dispatch_spec(jr.0), jr.1)
        },
    }
}

/// The pending logical lines of one source file, with room for a line that
/// label extraction re-injects at the front.
pub struct Scanner {
    pub lines: Vec<String>,
    pub pos: usize,
    pub injected: Vec<String>,
}

impl Scanner {
    /// The scanner's position never passes the end of its lines.
    pub open spec fn wf(&self) -> bool {
        self.pos <= self.lines@.len()
    }

    /// The raw lines still pending, front first.
    pub open spec fn remaining(&self) -> Seq<Seq<char>> {
        string_views(self.injected@).reverse() + string_views(self.lines@.skip(self.pos as int))
    }

    pub fn new(lines: Vec<String>) -> (r: Scanner)
        ensures
            r.wf(),
            r.remaining() == string_views(lines@),
    {
        let r = Scanner { lines, pos: 0, injected: Vec::new() };
        proof {
            assert(r.remaining() =~= string_views(r.lines@));
        }
        r
    }

    /// Hands out the next raw pending line, front first.
    fn pop_raw(&mut self) -> (r: Option<String>)
        requires
            old(self).wf(),
        ensures
            final(self).wf(),
            match r {
                Some(l) => old(self).remaining().len() > 0 && l@ == old(self).remaining()[0]
                    && final(self).remaining() == old(self).remaining().drop_first(),
                None => old(self).remaining().len() == 0 && final(self).remaining()
                    == old(self).remaining(),
            },
    {
        let ghost rem0 = self.remaining();
        if self.injected.len() > 0 {
            let l = match self.injected.pop() {
                Some(l) => l,
                None => {
                    return None;
                },
            };
            proof {
                assert(string_views(self.injected@).reverse() =~= string_views(
                    old(self).injected@,
                ).reverse().drop_first());
                assert(rem0[0] == l@);
                assert(self.remaining() =~= rem0.drop_first());
            }
            Some(l)
        } else if self.pos < self.lines.len() {
            let l = self.lines[self.pos].clone();
            self.pos = self.pos + 1;
            proof {
                assert(string_views(self.lines@.skip(old(self).pos as int)).drop_first()
                    =~= string_views(self.lines@.skip(self.pos as int)));
                assert(rem0[0] == l@);
                assert(self.remaining() =~= rem0.drop_first());
            }
            Some(l)
        } else {
            proof {
                assert(self.remaining() =~= Seq::<Seq<char>>::empty());
            }
            None
        }
    }

    /// The next formatted logical line: pending lines are popped and
    /// formatted until one survives; `None` once the file is exhausted.
    pub fn next_formatted(&mut self) -> (r: Option<String>)
        requires
            old(self).wf(),
        ensures
            final(self).wf(),
            match r {
                Some(l) => ({
                    let q = next_fmt_spec(old(self).remaining());
                    &&& q is Some
                    &&& ({
                        let fl = q->0;
                        l@ == fl.0 && final(self).remaining() == fl.1
                    })
                    &&& l@.len() > 0 && !is_space(l@[0])
                }),
                None => ({
                    &&& next_fmt_spec(old(self).remaining()) is None
                    &&& final(self).remaining().len() == 0
                }),
            },
    {
        loop
            invariant
                self.wf(),
                next_fmt_spec(old(self).remaining()) == next_fmt_spec(self.remaining()),
            decreases self.remaining().len(),
        {
            let raw = match self.pop_raw() {
                Some(raw) => raw,
                None => {
                    return None;
                },
            };
            let ghost rv = raw@;
            match format_line(raw) {
                Some(l) => {
                    proof {
                        lemma_formatted_shape(rv);
                    }
                    return Some(l);
                },
                None => {},
            }
        }
    }

    /// Turns one formatted line into its source unit, pulling continuation
    /// lines and re-injecting a label's remainder as needed.
    #[verifier::rlimit(60)]
    pub fn consume(&mut self, line: String) -> (r: Result<AsmEnum, ParseOperandError>)
        requires
            old(self).wf(),
            line@.len() > 0,
            !is_space(line@[0]),
        ensures
            final(self).wf(),
            final(self).remaining() == consume_spec(line@, old(self).remaining()).1,
            match r {
                Ok(u) => consume_spec(line@, old(self).remaining()).0 == Some(u@),
                Err(_) => consume_spec(line@, old(self).remaining()).0 is None,
            },
    {
        let ghost line0 = line@;
        let ghost rem0 = self.remaining();
        match extract_label(line.clone()) {
            Some((lab, rem)) => {
                let unit = AsmEnum::Label(Label::from_line(lab));
                match rem {
                    Some(r) => {
                        let ghost rv = r@;
                        self.injected.push(r);
                        proof {
                            assert(string_views(self.injected@).reverse() =~= seq![rv]
                                + string_views(old(self).injected@).reverse());
                            assert(self.remaining() =~= seq![rv] + rem0);
                        }
                    },
                    None => {},
                }
                return Ok(unit);
            },
            None => {},
        }
        let mut cur = line;
        loop
            invariant_except_break
                join_cont(line0, rem0) == join_cont(cur@, self.remaining()),
            invariant
                self.wf(),
                cur@.len() > 0,
                !is_space(cur@[0]),
            ensures
                self.wf(),
                join_cont(line0, rem0) == (cur@, self.remaining()),
                cur@.len() > 0,
                !is_space(cur@[0]),
            decreases self.remaining().len(),
        {
            if !wants_continuation_exec(&cur) {
                break;
            }
            let raw = match self.pop_raw() {
                Some(raw) => raw,
                None => {
                    break;
                },
            };
            match format_line(raw) {
                Some(nl) => {
                    let ghost cur0 = cur@;
                    proof {
                        reveal_strlit(" ");
                    }
                    cur = cur.concat(" ").concat(nl.as_str());
                    proof {
                        assert(" "@ =~= seq![' ']);
                        assert(cur@ =~= cur0 + seq![' '] + nl@);
                    }
                },
                None => {
                    break;
                },
            }
        }
        let ghost jl = cur@;
        let v = chars_of(cur.as_str());
        let a = skip_spaces(&v, 0);
        let b = token_end(&v, a);
        proof {
            assert(v@.skip(0) =~= v@);
            assert(a == 0) by {
                assert(v@.skip(a as int).len() == v@.len());
            }
            assert(first_token(jl).len() > 0);
        }
        let tok = string_of(&crate::units::copy_range(&v, a, b));
        if tok == String::from_str("define") {
            let a1 = skip_spaces(&v, b);
            let b1 = token_end(&v, a1);
            let a2 = skip_spaces(&v, b1);
            let b2 = token_end(&v, a2);
            proof {
                assert(second_token(jl) == v@.subrange(a1 as int, b1 as int));
                assert(third_token(jl) == v@.subrange(a2 as int, b2 as int));
            }
            if b1 > a1 && b2 > a2 {
                Ok(AsmEnum::Define(Define::from_line(cur)))
            } else {
                Err(
                    ParseOperandError::new(
                        String::from_str("Invalid define: ").concat(cur.as_str()),
                    ),
                )
            }
        } else if tok == String::from_str("db") || tok == String::from_str("dw") || tok
            == String::from_str("text") || tok == String::from_str("offset") {
            Ok(AsmEnum::Directive(Directive::from_line(cur)))
        } else {
            Ok(AsmEnum::Instruction(Instruction::from_line(cur)))
        }
    }
}

/// The first surviving formatted line of the pending input, with what is
/// left after it.
pub open spec fn next_fmt_spec(rem: Seq<Seq<char>>) -> Option<(Seq<char>, Seq<Seq<char>>)>
    decreases rem.len(),
{
    if rem.len() == 0 {
        None
    } else {
        match format_line_spec(rem[0]) {
            Some(l) => Some((l, rem.drop_first())),
            None => next_fmt_spec(rem.drop_first()),
        }
    }
}

/// A formatted line is non-blank and starts with a non-space character.
proof fn lemma_formatted_shape(s: Seq<char>)
    requires
        format_line_spec(s) is Some,
    ensures
        format_line_spec(s)->0.len() > 0,
        !is_space(format_line_spec(s)->0[0]),
{
    let w = without_comments_spec(s);
    lemma_trim_start_head(w);
    lemma_trim_end_prefix(trim_start_spec(w));
}

/// Stripping leading whitespace leaves a non-space head, if anything.
proof fn lemma_trim_start_head(s: Seq<char>)
    ensures
        trim_start_spec(s).len() > 0 ==> !is_space(trim_start_spec(s)[0]),
    decreases s.len(),
{
    if s.len() > 0 && is_space(s[0]) {
        lemma_trim_start_head(s.drop_first());
    }
}

/// Stripping trailing whitespace keeps a prefix of the string.
proof fn lemma_trim_end_prefix(s: Seq<char>)
    ensures
        trim_end_spec(s).len() <= s.len(),
        forall|i: int|
            0 <= i < trim_end_spec(s).len() ==> trim_end_spec(s)[i] == s[i],
    decreases s.len(),
{
    if s.len() > 0 && is_space(s.last()) {
        lemma_trim_end_prefix(s.drop_last());
        assert forall|i: int|
            0 <= i < trim_end_spec(s).len() implies trim_end_spec(s)[i] == s[i] by {
            assert(trim_end_spec(s) == trim_end_spec(s.drop_last()));
            assert(trim_end_spec(s.drop_last())[i] == s.drop_last()[i]);
            assert(s.drop_last()[i] == s[i]);
        }
    }
}

} // verus!
//! The instruction parser.
//!
//! [`Parser`] holds the cleaned source lines of one file — comments stripped,
//! whitespace trimmed, empty lines dropped — and exposes each line's
//! classification and operands.  Classification is prefix-based on the line's
//! first token; operand extraction is positional over its
//! whitespace-separated tokens.
use vstd::prelude::*;

use crate::bytes::{is_ws, ws_byte, has_prefix, starts_with};

verus! {

/// The classification of one source line.
#[allow(non_camel_case_types)]
#[derive(Debug, Clone, Copy, PartialEq, Eq, Structural)]
pub enum CommandType {
    CARITHMETIC,
    CPUSH,
    CPOP,
    CLABEL,
    CGOTO,
    CIF,
    CFUNCTION,
    CRETURN,
    CCALL,
}

pub open spec fn lit_push() -> Seq<u8> {
    seq!['p' as u8, 'u' as u8, 's' as u8, 'h' as u8]
}

pub open spec fn lit_pop() -> Seq<u8> {
    seq!['p' as u8, 'o' as u8, 'p' as u8]
}

pub open spec fn lit_label() -> Seq<u8> {
    seq!['l' as u8, 'a' as u8, 'b' as u8, 'e' as u8, 'l' as u8]
}

pub open spec fn lit_goto() -> Seq<u8> {
    seq!['g' as u8, 'o' as u8, 't' as u8, 'o' as u8]
}

pub open spec fn lit_if() -> Seq<u8> {
    seq!['i' as u8, 'f' as u8]
}

pub open spec fn lit_function() -> Seq<u8> {
    seq![
        'f' as u8,
        'u' as u8,
        'n' as u8,
        'c' as u8,
        't' as u8,
        'i' as u8,
        'o' as u8,
        'n' as u8,
    ]
}

pub open spec fn lit_call() -> Seq<u8> {
    seq!['c' as u8, 'a' as u8, 'l' as u8, 'l' as u8]
}

pub open spec fn lit_return() -> Seq<u8> {
    seq!['r' as u8, 'e' as u8, 't' as u8, 'u' as u8, 'r' as u8, 'n' as u8]
}

/// Position of the first line-comment marker `//` at or after `i`, or the
/// line's length when there is none.
pub open spec fn comment_start_from(s: Seq<u8>, i: int) -> int
    decreases s.len() - i,
{
    if i < 0 || i + 2 > s.len() {
        s.len() as int
    } else if s[i] == '/' as u8 && s[i + 1] == '/' as u8 {
        i
    } else {
        comment_start_from(s, i + 1)
    }
}

/// Position of the first non-whitespace byte at or after `i`, capped at the
/// line's length.
pub open spec fn skip_ws_from(s: Seq<u8>, i: int) -> int
    decreases s.len() - i,
{
    if i < 0 || i >= s.len() {
        s.len() as int
    } else if is_ws(s[i]) {
        skip_ws_from(s, i + 1)
    } else {
        i
    }
}

/// Position one past the last non-whitespace byte strictly before `i`, or 0
/// when there is none.
pub open spec fn ws_end(s: Seq<u8>, i: int) -> int
    decreases i,
{
    if i <= 0 {
        0
    } else if i > s.len() {
        ws_end(s, s.len() as int)
    } else if is_ws(s[i - 1]) {
        ws_end(s, i - 1)
    } else {
        i
    }
}

/// A source line after cleaning: everything from the first `//` on is
/// stripped, then surrounding whitespace is trimmed.
pub open spec fn clean_line(s: Seq<u8>) -> Seq<u8> {
    let t = s.take(comment_start_from(s, 0));
    let a = skip_ws_from(t, 0);
    let b = ws_end(t, t.len() as int);
    if a >= b {
        Seq::empty()
    } else {
        t.subrange(a, b)
    }
}

/// The cleaned lines of a source file, with lines that clean to nothing
/// dropped.
pub open spec fn clean_lines(ls: Seq<Seq<u8>>) -> Seq<Seq<u8>>
    decreases ls.len(),
{
    if ls.len() == 0 {
        Seq::empty()
    } else if clean_line(ls.last()).len() == 0 {
        clean_lines(ls.drop_last())
    } else {
        clean_lines(ls.drop_last()) + seq![clean_line(ls.last())]
    }
}

proof fn lemma_skip_ws_bounds(s: Seq<u8>, i: int)
    requires
        0 <= i <= s.len(),
    ensures
        i <= skip_ws_from(s, i) <= s.len(),
        skip_ws_from(s, i) < s.len() ==> !is_ws(s[skip_ws_from(s, i)]),
    decreases s.len() - i,
{
    if i < s.len() && is_ws(s[i]) {
        lemma_skip_ws_bounds(s, i + 1);
    }
}

/// Position of the first whitespace byte at or after `i`, capped at the
/// line's length: the end of the token starting at `i`.
pub open spec fn tok_end(s: Seq<u8>, i: int) -> int
    decreases s.len() - i,
{
    if i < 0 || i >= s.len() {
        s.len() as int
    } else if is_ws(s[i]) {
        i
    } else {
        tok_end(s, i + 1)
    }
}

proof fn lemma_tok_end_bounds(s: Seq<u8>, i: int)
    requires
        0 <= i <= s.len(),
    ensures
        i <= tok_end(s, i) <= s.len(),
        i < s.len() && !is_ws(s[i]) ==> tok_end(s, i) > i,
    decreases s.len() - i,
{
    if i < s.len() && !is_ws(s[i]) {
        lemma_tok_end_bounds(s, i + 1);
    }
}

/// The whitespace-separated tokens of `s` from position `i` on.
pub open spec fn tokens_from(s: Seq<u8>, i: int) -> Seq<Seq<u8>>
    decreases s.len() - i + 1,
        via tokens_from_dec
{
    if i < 0 {
        tokens_from(s, 0)
    } else {
        let j = skip_ws_from(s, i);
        if j >= s.len() {
            Seq::empty()
        } else {
            seq![s.subrange(j, tok_end(s, j))] + tokens_from(s, tok_end(s, j))
        }
    }
}

#[via_fn]
proof fn tokens_from_dec(s: Seq<u8>, i: int) {
    if i >= 0 {
        if i <= s.len() {
            lemma_skip_ws_bounds(s, i);
            let j = skip_ws_from(s, i);
            if j < s.len() {
                lemma_tok_end_bounds(s, j);
            }
        }
    }
}

/// The tokens of a whole line.
pub open spec fn tokens(s: Seq<u8>) -> Seq<Seq<u8>> {
    tokens_from(s, 0)
}

/// Classify a cleaned line by the keyword it starts with; any other line is
/// an arithmetic instruction whose operator is its first token.
pub open spec fn classify(cmd: Seq<u8>) -> CommandType {
    if has_prefix(cmd, lit_push()) {
        CommandType::CPUSH
    } else if has_prefix(cmd, lit_pop()) {
        CommandType::CPOP
    } else if has_prefix(cmd, lit_label()) {
        CommandType::CLABEL
    } else if has_prefix(cmd, lit_goto()) {
        CommandType::CGOTO
    } else if has_prefix(cmd, lit_if()) {
        CommandType::CIF
    } else if has_prefix(cmd, lit_function()) {
        CommandType::CFUNCTION
    } else if has_prefix(cmd, lit_call()) {
        CommandType::CCALL
    } else if has_prefix(cmd, lit_return()) {
        CommandType::CRETURN
    } else {
        CommandType::CARITHMETIC
    }
}

/// Position of the line's first `//`, or its length when it has none.
fn find_comment(line: &[u8]) -> (c: usize)
    ensures
        c as int == comment_start_from(line@, 0),
        c <= line@.len(),
{
    let n = line.len();
    if n < 2 {
        return n;
    }
    let mut i: usize = 0;
    while i <= n - 2
        invariant
            0 <= i <= n,
            2 <= n == line@.len(),
            comment_start_from(line@, 0) == comment_start_from(line@, i as int),
        decreases n - i,
    {
        if line[i] == 47 && line[i + 1] == 47 {
            return i;
        }
        i = i + 1;
    }
    proof {
        assert(comment_start_from(line@, i as int) == n);
    }
    n
}

proof fn lemma_no_comment_scan(l: Seq<u8>, i: int)
    requires
        0 <= i <= l.len(),
        forall|j: int| 0 <= j < l.len() - 1 ==> !(#[trigger] l[j] == '/' as u8 && l[j + 1] == '/' as u8),
    ensures
        comment_start_from(l, i) == l.len(),
    decreases l.len() - i,
{
    if i + 2 <= l.len() {
        lemma_no_comment_scan(l, i + 1);
    }
}

proof fn lemma_comment_marker_scan(l: Seq<u8>, c: Seq<u8>, i: int)
    requires
        0 <= i <= l.len(),
        forall|j: int| 0 <= j < l.len() - 1 ==> !(#[trigger] l[j] == '/' as u8 && l[j + 1] == '/' as u8),
        l.len() > 0 ==> l[l.len() - 1] != '/' as u8,
    ensures
        comment_start_from(l + seq!['/' as u8, '/' as u8] + c, i) == l.len(),
    decreases l.len() - i,
{
    let s = l + seq!['/' as u8, '/' as u8] + c;
    if i == l.len() {
        assert(s[i] == '/' as u8);
        assert(s[i + 1] == '/' as u8);
    } else {
        assert(s[i] == l[i]);
        if i + 1 < l.len() {
            assert(s[i + 1] == l[i + 1]);
            assert(!(s[i] == '/' as u8 && s[i + 1] == '/' as u8));
        } else {
            assert(s[i] == l[l.len() - 1]);
            assert(s[i] != '/' as u8);
        }
        lemma_comment_marker_scan(l, c, i + 1);
    }
}

/// Comment insensitivity: appending a line comment to a line that holds no
/// comment marker (and does not end in a half marker) cleans to exactly what
/// the bare line cleans to.
pub proof fn lemma_clean_comment_insensitive(l: Seq<u8>, c: Seq<u8>)
    requires
        forall|j: int| 0 <= j < l.len() - 1 ==> !(#[trigger] l[j] == '/' as u8 && l[j + 1] == '/' as u8),
        l.len() > 0 ==> l[l.len() - 1] != '/' as u8,
    ensures
        clean_line(l + seq!['/' as u8, '/' as u8] + c) == clean_line(l),
{
    let s = l + seq!['/' as u8, '/' as u8] + c;
    lemma_comment_marker_scan(l, c, 0);
    lemma_no_comment_scan(l, 0);
    assert(s.take(comment_start_from(s, 0)) =~= l);
    assert(l.take(comment_start_from(l, 0)) =~= l);
}

/// Clean one source line: strip the comment, trim surrounding whitespace.
pub fn clean(line: &[u8]) -> (r: Vec<u8>)
    ensures
        r@ == clean_line(line@),
{
    let n = line.len();
    // Find the comment marker.
    let c = find_comment(line);
    let ghost t = line@.take(c as int);
    // Trim leading whitespace.
    let mut a: usize = 0;
    while a < c && ws_byte(line[a])
        invariant
            0 <= a <= c <= n,
            n == line@.len(),
            skip_ws_from(t, 0) == skip_ws_from(t, a as int),
            t == line@.take(c as int),
        decreases c - a,
    {
        a = a + 1;
    }
    proof {
        assert(skip_ws_from(t, 0) == a);
    }
    // Trim trailing whitespace.
    let mut b: usize = c;
    while b > a && ws_byte(line[b - 1])
        invariant
            a <= b <= c <= n,
            n == line@.len(),
            ws_end(t, c as int) == ws_end(t, b as int),
            t == line@.take(c as int),
        decreases b,
    {
        b = b - 1;
    }
    if a >= b {
        proof {
            assert(a == b);
            if !(b > 0 && !is_ws(t[b - 1])) {
                assert(ws_end(t, b as int) == if b > 0 {
                    ws_end(t, b - 1)
                } else {
                    0
                });
            }
            assert(ws_end(t, c as int) <= b) by {
                lemma_ws_end_bounds(t, b as int);
            }
            assert(skip_ws_from(t, 0) >= ws_end(t, t.len() as int));
        }
        return Vec::new();
    }
    proof {
        assert(b > a);
        assert(!is_ws(t[b - 1]));
        assert(ws_end(t, b as int) == b);
        assert(skip_ws_from(t, 0) < ws_end(t, t.len() as int));
    }
    let out = vstd::slice::slice_to_vec(vstd::slice::slice_subrange(line, a, b));
    proof {
        assert(line@.subrange(a as int, b as int) =~= t.subrange(a as int, b as int));
    }
    out
}

proof fn lemma_ws_end_bounds(s: Seq<u8>, i: int)
    requires
        0 <= i <= s.len(),
    ensures
        0 <= ws_end(s, i) <= i,
    decreases i,
{
    if i > 0 && is_ws(s[i - 1]) {
        lemma_ws_end_bounds(s, i - 1);
    }
}

/// Split a cleaned line into its whitespace-separated tokens.
pub fn tokenize(line: &[u8]) -> (r: Vec<Vec<u8>>)
    ensures
        r.deep_view() == tokens(line@),
{
    let n = line.len();
    let mut out: Vec<Vec<u8>> = Vec::new();
    let mut i: usize = 0;
    proof {
        assert(out.deep_view() =~= Seq::<Seq<u8>>::empty());
        assert(out.deep_view() + tokens_from(line@, 0) =~= tokens(line@));
    }
    while i < n
        invariant
            0 <= i <= n,
            n == line@.len(),
            out.deep_view() + tokens_from(line@, i as int) == tokens(line@),
        decreases n - i,
    {
        if ws_byte(line[i]) {
            proof {
                assert(tokens_from(line@, i as int) == tokens_from(line@, i + 1));
            }
            i = i + 1;
        } else {
            let start = i;
            // Scan to the token's end.
            while i < n && !ws_byte(line[i])
                invariant
                    start <= i <= n,
                    n == line@.len(),
                    tok_end(line@, start as int) == tok_end(line@, i as int),
                decreases n - i,
            {
                i = i + 1;
            }
            proof {
                assert(tok_end(line@, i as int) == i);
                assert(tok_end(line@, start as int) == i);
                lemma_tok_end_bounds(line@, start as int);
            }
            let ghost before = out.deep_view();
            out.push(vstd::slice::slice_to_vec(vstd::slice::slice_subrange(line, start, i)));
            proof {
                assert(out.deep_view() =~~= before + seq![line@.subrange(start as int, i as int)]);
                assert(skip_ws_from(line@, start as int) == start);
                assert(tokens_from(line@, start as int) == seq![
                    line@.subrange(start as int, i as int),
                ] + tokens_from(line@, i as int));
                assert(out.deep_view() + tokens_from(line@, i as int) =~~= tokens(line@));
            }
        }
    }
    proof {
        assert(tokens_from(line@, i as int) =~= Seq::<Seq<u8>>::empty());
        assert(out.deep_view() =~~= out.deep_view() + tokens_from(line@, i as int));
    }
    out
}

/// A parsed source file: its cleaned instruction lines and a cursor over
/// them.  The sequence can be re-walked from the start, so a two-pass
/// consumer may restart it.
pub struct Parser {
    pub commands: Vec<Vec<u8>>,
    pub command_pos: usize,
}

impl Parser {
    /// Parse a file given as raw source lines: clean each line and keep the
    /// nonempty results, in order, with the cursor at the start.
    pub fn new(lines: &Vec<Vec<u8>>) -> (p: Parser)
        ensures
            p.commands.deep_view() == clean_lines(lines.deep_view()),
            p.command_pos == 0,
    {
        let mut buf: Vec<Vec<u8>> = Vec::new();
        let n = lines.len();
        let mut i: usize = 0;
        proof {
            assert(buf.deep_view() =~= clean_lines(lines.deep_view().take(0)));
        }
        while i < n
            invariant
                0 <= i <= n,
                n == lines@.len(),
                lines.deep_view().len() == n,
                buf.deep_view() == clean_lines(lines.deep_view().take(i as int)),
            decreases n - i,
        {
            let cleaned = clean(lines[i].as_slice());
            proof {
                assert(lines.deep_view()[i as int] == lines@[i as int]@);
                assert(lines.deep_view().take(i + 1).drop_last() =~= lines.deep_view().take(
                    i as int,
                ));
                assert(lines.deep_view().take(i + 1).last() == lines.deep_view()[i as int]);
            }
            if cleaned.len() > 0 {
                let ghost before = buf.deep_view();
                buf.push(cleaned);
                proof {
                    assert(lines.deep_view()[i as int] =~= lines@[i as int]@);
                    assert(buf.deep_view() =~~= before + seq![
                        clean_line(lines.deep_view()[i as int]),
                    ]);
                    assert(buf.deep_view() =~~= clean_lines(lines.deep_view().take(i + 1)));
                }
            } else {
                proof {
                    assert(lines.deep_view()[i as int] =~= lines@[i as int]@);
                    assert(buf.deep_view() =~~= clean_lines(lines.deep_view().take(i + 1)));
                }
            }
            i = i + 1;
        }
        proof {
            assert(lines.deep_view().take(n as int) =~= lines.deep_view());
        }
        Parser { commands: buf, command_pos: 0 }
    }

    /// Whether the cursor still has an instruction to hand out.
    pub fn has_more_commands(&self) -> (r: bool)
        ensures
            r == (self.command_pos < self.commands@.len()),
    {
        self.command_pos < self.commands.len()
    }

    /// Step the cursor to the next instruction.  Calling this with no
    /// instruction left is a defect in the caller.
    pub fn advance(&mut self)
        requires
            old(self).command_pos < old(self).commands@.len(),
        ensures
            final(self).command_pos == old(self).command_pos + 1,
            final(self).commands == old(self).commands,
    {
        if self.command_pos < self.commands.len() {
            self.command_pos = self.command_pos + 1;
        }
    }

    /// The instruction under the cursor.
    pub fn get_command(&self) -> (r: &Vec<u8>)
        requires
            self.command_pos < self.commands@.len(),
        ensures
            r@ == self.commands.deep_view()[self.command_pos as int],
    {
        &self.commands[self.command_pos]
    }

    /// The classification of the instruction under the cursor.
    pub fn command_type(&self) -> (r: CommandType)
        requires
            self.command_pos < self.commands@.len(),
        ensures
            r == classify(self.commands.deep_view()[self.command_pos as int]),
    {
        let cmd = self.get_command().as_slice();
        let w: Vec<u8> = vec!['p' as u8, 'u' as u8, 's' as u8, 'h' as u8];
        proof {
            assert(w@ =~= lit_push());
        }
        if starts_with(cmd, w.as_slice()) {
            return CommandType::CPUSH;
        }
        let w: Vec<u8> = vec!['p' as u8, 'o' as u8, 'p' as u8];
        proof {
            assert(w@ =~= lit_pop());
        }
        if starts_with(cmd, w.as_slice()) {
            return CommandType::CPOP;
        }
        let w: Vec<u8> = vec!['l' as u8, 'a' as u8, 'b' as u8, 'e' as u8, 'l' as u8];
        proof {
            assert(w@ =~= lit_label());
        }
        if starts_with(cmd, w.as_slice()) {
            return CommandType::CLABEL;
        }
        let w: Vec<u8> = vec!['g' as u8, 'o' as u8, 't' as u8, 'o' as u8];
        proof {
            assert(w@ =~= lit_goto());
        }
        if starts_with(cmd, w.as_slice()) {
            return CommandType::CGOTO;
        }
        let w: Vec<u8> = vec!['i' as u8, 'f' as u8];
        proof {
            assert(w@ =~= lit_if());
        }
        if starts_with(cmd, w.as_slice()) {
            return CommandType::CIF;
        }
        let w: Vec<u8> = vec![
            'f' as u8,
            'u' as u8,
            'n' as u8,
            'c' as u8,
            't' as u8,
            'i' as u8,
            'o' as u8,
            'n' as u8,
        ];
        proof {
            assert(w@ =~= lit_function());
        }
        if starts_with(cmd, w.as_slice()) {
            return CommandType::CFUNCTION;
        }
        let w: Vec<u8> = vec!['c' as u8, 'a' as u8, 'l' as u8, 'l' as u8];
        proof {
            assert(w@ =~= lit_call());
        }
        if starts_with(cmd, w.as_slice()) {
            return CommandType::CCALL;
        }
        let w: Vec<u8> = vec!['r' as u8, 'e' as u8, 't' as u8, 'u' as u8, 'r' as u8, 'n' as u8];
        proof {
            assert(w@ =~= lit_return());
        }
        if starts_with(cmd, w.as_slice()) {
            return CommandType::CRETURN;
        }
        CommandType::CARITHMETIC
    }

    /// The first operand of the instruction under the cursor: the operator
    /// itself for an arithmetic instruction, the first token after the
    /// keyword otherwise.  `return` has no operands; asking is a defect in
    /// the caller, as is asking when the operand is missing from the line.
    pub fn arg1(&self) -> (r: Vec<u8>)
        requires
            self.command_pos < self.commands@.len(),
            classify(self.commands.deep_view()[self.command_pos as int]) != CommandType::CRETURN,
            classify(self.commands.deep_view()[self.command_pos as int])
                == CommandType::CARITHMETIC ==> tokens(
                self.commands.deep_view()[self.command_pos as int],
            ).len() >= 1,
            classify(self.commands.deep_view()[self.command_pos as int])
                != CommandType::CARITHMETIC ==> tokens(
                self.commands.deep_view()[self.command_pos as int],
            ).len() >= 2,
        ensures
            r@ == if classify(self.commands.deep_view()[self.command_pos as int])
                == CommandType::CARITHMETIC {
                tokens(self.commands.deep_view()[self.command_pos as int])[0]
            } else {
                tokens(self.commands.deep_view()[self.command_pos as int])[1]
            },
    {
        let toks = tokenize(self.get_command().as_slice());
        let k = self.command_type();
        let which: usize = if k == CommandType::CARITHMETIC {
            0
        } else {
            1
        };
        proof {
            assert(toks.deep_view()[which as int] == toks@[which as int]@);
        }
        vstd::slice::slice_to_vec(toks[which].as_slice())
    }

    /// The second operand of the instruction under the cursor: only `push`,
    /// `pop`, `function` and `call` have one; asking otherwise, or when the
    /// operand is missing from the line, is a defect in the caller.
    pub fn arg2(&self) -> (r: Vec<u8>)
        requires
            self.command_pos < self.commands@.len(),
            classify(self.commands.deep_view()[self.command_pos as int]) matches (
            CommandType::CPUSH
            | CommandType::CPOP
            | CommandType::CFUNCTION
            | CommandType::CCALL),
            tokens(self.commands.deep_view()[self.command_pos as int]).len() >= 3,
        ensures
            r@ == tokens(self.commands.deep_view()[self.command_pos as int])[2],
    {
        let toks = tokenize(self.get_command().as_slice());
        proof {
            assert(toks.deep_view()[2] == toks@[2]@);
        }
        vstd::slice::slice_to_vec(toks[2].as_slice())
    }

    /// Restart the walk from the first instruction.
    pub fn reset(&mut self)
        ensures
            final(self).command_pos == 0,
            final(self).commands == old(self).commands,
    {
        self.command_pos = 0;
    }
}

} // verus!

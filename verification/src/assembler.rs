//! The bordering assembler's pieces: the mnemonic-to-bits tables, the symbol
//! table with the platform's predefined symbols, and a small parser over
//! cleaned assembly lines.  They share the source-line cleaning of the
//! instruction parser.
use vstd::prelude::*;

use crate::bytes::eq_bytes;
use crate::parser::clean_lines;

verus! {

/// Pick the input file name out of a command line: the first real argument.
pub fn parse_filename(args: &Vec<String>) -> (r: Result<String, &'static str>)
    ensures
        r is Ok <==> args@.len() >= 2,
        r matches Ok(f) ==> f@ == args@[1]@,
{
    if args.len() < 2 {
        return Err("not enough arguments");
    }
    let filename = args[1].clone();
    Ok(filename)
}

/// Position of the first `b` at or after `i`, or the length when absent.
pub open spec fn find_from(s: Seq<u8>, b: u8, i: int) -> int
    decreases s.len() - i,
{
    if i < 0 || i >= s.len() {
        s.len() as int
    } else if s[i] == b {
        i
    } else {
        find_from(s, b, i + 1)
    }
}

/// Position of the last `b` in `s`, or -1 when absent.
pub open spec fn rfind(s: Seq<u8>, b: u8) -> int
    decreases s.len(),
{
    if s.len() == 0 {
        -1
    } else if s.last() == b {
        s.len() - 1
    } else {
        rfind(s.drop_last(), b)
    }
}

/// Find the first `b` in `s`; the length means absent.
pub fn find_byte(s: &[u8], b: u8) -> (r: usize)
    ensures
        r as int == find_from(s@, b, 0),
        r <= s@.len(),
{
    let n = s.len();
    let mut i: usize = 0;
    while i < n
        invariant
            0 <= i <= n,
            n == s@.len(),
            find_from(s@, b, 0) == find_from(s@, b, i as int),
        decreases n - i,
    {
        if s[i] == b {
            return i;
        }
        i = i + 1;
    }
    n
}

proof fn lemma_rfind_lt(s: Seq<u8>, b: u8)
    ensures
        -1 <= rfind(s, b) < s.len(),
    decreases s.len(),
{
    if s.len() > 0 && s.last() != b {
        lemma_rfind_lt(s.drop_last(), b);
    }
}

/// Find the last `b` in `s`; the length means absent.
pub fn rfind_byte(s: &[u8], b: u8) -> (r: usize)
    ensures
        r as int == if rfind(s@, b) >= 0 {
            rfind(s@, b)
        } else {
            s@.len() as int
        },
        r <= s@.len(),
{
    let n = s.len();
    let mut i: usize = n;
    proof {
        assert(s@.take(n as int) =~= s@);
    }
    while i > 0
        invariant
            0 <= i <= n,
            n == s@.len(),
            rfind(s@, b) == rfind(s@.take(i as int), b),
        decreases i,
    {
        proof {
            assert(s@.take(i as int).last() == s@[i - 1]);
            assert(s@.take(i as int).drop_last() =~= s@.take(i - 1));
        }
        if s[i - 1] == b {
            return i - 1;
        }
        i = i - 1;
    }
    proof {
        assert(s@.take(0) =~= Seq::<u8>::empty());
    }
    n
}

/// The file part of a path: everything after its last separator.
pub open spec fn base_name(s: Seq<u8>) -> Seq<u8> {
    s.subrange(rfind(s, '/' as u8) + 1, s.len() as int)
}

/// A file name without its extension.  A dot at the very front marks a
/// hidden file, not an extension.
pub open spec fn stem_of(b: Seq<u8>) -> Seq<u8> {
    if rfind(b, '.' as u8) <= 0 {
        b
    } else {
        b.take(rfind(b, '.' as u8))
    }
}

/// The target file name for a translated source file: the input's stem with
/// the output extension.
pub open spec fn output_name(s: Seq<u8>) -> Seq<u8> {
    stem_of(base_name(s)) + seq!['.' as u8, 'a' as u8, 's' as u8, 'm' as u8]
}

/// Derive the output file name from the input file name.
pub fn get_output_filename(filename: &[u8]) -> (r: Vec<u8>)
    ensures
        r@ == output_name(filename@),
{
    let n = filename.len();
    proof {
        lemma_rfind_lt(filename@, 47);
    }
    let cut = rfind_byte(filename, 47);
    let start: usize = if cut == n {
        0
    } else {
        cut + 1
    };
    let base = vstd::slice::slice_subrange(filename, start, n);
    proof {
        assert(base@ =~= base_name(filename@));
    }
    let m = base.len();
    proof {
        lemma_rfind_lt(base@, 46);
    }
    let dot = rfind_byte(base, 46);
    let end: usize = if dot == m || dot == 0 {
        m
    } else {
        dot
    };
    let mut out = vstd::slice::slice_to_vec(vstd::slice::slice_subrange(base, 0, end));
    proof {
        assert(out@ =~= stem_of(base_name(filename@)));
    }
    out.push('.' as u8);
    out.push('a' as u8);
    out.push('s' as u8);
    out.push('m' as u8);
    proof {
        assert(out@ =~= output_name(filename@));
    }
    out
}

/// The classification of one assembly line: an address instruction, a
/// compute instruction, or a label marker.
#[allow(non_camel_case_types)]
#[derive(Debug, Clone, Copy, PartialEq, Eq, Structural)]
pub enum CommandType {
    ACOMMAND,
    CCOMMAND,
    LCOMMAND,
}

/// Classify a cleaned assembly line by its first byte.
pub open spec fn a_classify(code: Seq<u8>) -> CommandType {
    if code.len() > 0 && code[0] == '@' as u8 {
        CommandType::ACOMMAND
    } else if code.len() > 0 && code[0] == '(' as u8 {
        CommandType::LCOMMAND
    } else {
        CommandType::CCOMMAND
    }
}

/// The symbol of an address instruction or label marker, when well formed.
pub open spec fn symbol_spec(code: Seq<u8>) -> Option<Seq<u8>> {
    match a_classify(code) {
        CommandType::ACOMMAND => Some(code.subrange(1, code.len() as int)),
        CommandType::LCOMMAND => if code.len() >= 2 && code.last() == ')' as u8 {
            Some(code.subrange(1, code.len() - 1))
        } else {
            None
        },
        CommandType::CCOMMAND => None,
    }
}

/// The destination mnemonic of a compute instruction: what stands before its
/// `=`, if it has one.
pub open spec fn dest_spec(code: Seq<u8>) -> Option<Seq<u8>> {
    if a_classify(code) != CommandType::CCOMMAND {
        None
    } else if find_from(code, '=' as u8, 0) < code.len() {
        Some(code.take(find_from(code, '=' as u8, 0)))
    } else {
        None
    }
}

/// Where a compute instruction's computation mnemonic starts: after the `=`
/// when there is one.
pub open spec fn comp_start(code: Seq<u8>) -> int {
    if find_from(code, '=' as u8, 0) < code.len() {
        find_from(code, '=' as u8, 0) + 1
    } else {
        0
    }
}

/// Where a compute instruction's computation mnemonic ends: at the `;` when
/// there is one.
pub open spec fn comp_end(code: Seq<u8>) -> int {
    find_from(code, ';' as u8, 0)
}

/// The computation mnemonic of a compute instruction.
pub open spec fn comp_spec(code: Seq<u8>) -> Option<Seq<u8>> {
    if a_classify(code) != CommandType::CCOMMAND {
        None
    } else {
        Some(code.subrange(comp_start(code), comp_end(code)))
    }
}

/// The jump mnemonic of a compute instruction: what stands after its `;`, if
/// it has one.
pub open spec fn jump_spec(code: Seq<u8>) -> Option<Seq<u8>> {
    if a_classify(code) != CommandType::CCOMMAND {
        None
    } else if find_from(code, ';' as u8, 0) < code.len() {
        Some(code.subrange(find_from(code, ';' as u8, 0) + 1, code.len() as int))
    } else {
        None
    }
}

/// A parsed assembly file: its cleaned lines and a cursor, restartable for
/// the assembler's two passes.
pub struct Parser {
    pub code: Vec<Vec<u8>>,
    pub position: usize,
}

impl Parser {
    /// Parse a file given as raw source lines, cleaned the same way the
    /// instruction parser cleans its input.
    pub fn new(lines: &Vec<Vec<u8>>) -> (p: Parser)
        ensures
            p.code.deep_view() == clean_lines(lines.deep_view()),
            p.position == 0,
    {
        let inner = crate::parser::Parser::new(lines);
        Parser { code: inner.commands, position: 0 }
    }

    /// Restart the walk for the next pass.
    pub fn reset(&mut self)
        ensures
            final(self).position == 0,
            final(self).code == old(self).code,
    {
        self.position = 0;
    }

    /// Whether the cursor still has a line to hand out.
    pub fn has_more_commands(&self) -> (r: bool)
        ensures
            r == (self.position < self.code@.len()),
    {
        self.position < self.code.len()
    }

    /// Step the cursor; past the last line it stays put.
    pub fn advance(&mut self)
        ensures
            final(self).code == old(self).code,
            final(self).position as int == if old(self).position < old(self).code@.len() {
                old(self).position + 1
            } else {
                old(self).position as int
            },
    {
        if self.position < self.code.len() {
            self.position = self.position + 1;
        }
    }

    /// The classification of the line under the cursor, or nothing past the
    /// end.
    pub fn command_type(&self) -> (r: Option<CommandType>)
        ensures
            r == if self.position < self.code@.len() {
                Some(a_classify(self.code.deep_view()[self.position as int]))
            } else {
                None::<CommandType>
            },
    {
        if !self.has_more_commands() {
            return None;
        }
        let cur = &self.code[self.position];
        proof {
            assert(self.code.deep_view()[self.position as int] == self.code@[self.position as int]@);
        }
        if cur.len() > 0 {
            let b = cur.as_slice()[0];
            if b == 64 {
                return Some(CommandType::ACOMMAND);
            }
            if b == 40 {
                return Some(CommandType::LCOMMAND);
            }
        }
        Some(CommandType::CCOMMAND)
    }

    /// The symbol of the line under the cursor, for an address instruction
    /// or a well-formed label marker.
    pub fn symbol(&self) -> (r: Option<Vec<u8>>)
        ensures
            self.position >= self.code@.len() ==> r is None,
            self.position < self.code@.len() ==> {
                let spec_r = symbol_spec(self.code.deep_view()[self.position as int]);
                (r is Some <==> spec_r is Some) && (r matches Some(v) ==> v@ == spec_r.unwrap())
            },
    {
        if !self.has_more_commands() {
            return None;
        }
        let cur = &self.code[self.position];
        proof {
            assert(self.code.deep_view()[self.position as int] == self.code@[self.position as int]@);
        }
        let n = cur.len();
        if n > 0 {
            let b = cur.as_slice()[0];
            if b == 64 {
                return Some(vstd::slice::slice_to_vec(vstd::slice::slice_subrange(
                    cur.as_slice(),
                    1,
                    n,
                )));
            }
            if b == 40 {
                if n >= 2 && cur.as_slice()[n - 1] == 41 {
                    return Some(vstd::slice::slice_to_vec(vstd::slice::slice_subrange(
                        cur.as_slice(),
                        1,
                        n - 1,
                    )));
                }
                return None;
            }
        }
        None
    }

    /// The destination mnemonic of the compute instruction under the cursor.
    pub fn dest(&self) -> (r: Option<Vec<u8>>)
        ensures
            self.position >= self.code@.len() ==> r is None,
            self.position < self.code@.len() ==> {
                let spec_r = dest_spec(self.code.deep_view()[self.position as int]);
                (r is Some <==> spec_r is Some) && (r matches Some(v) ==> v@ == spec_r.unwrap())
            },
    {
        match self.command_type() {
            Some(CommandType::CCOMMAND) => {},
            _ => {
                return None;
            },
        }
        let cur = &self.code[self.position];
        proof {
            assert(self.code.deep_view()[self.position as int] == self.code@[self.position as int]@);
        }
        let n = cur.len();
        let p = find_byte(cur.as_slice(), 61);
        if p == n {
            return None;
        }
        Some(vstd::slice::slice_to_vec(vstd::slice::slice_subrange(cur.as_slice(), 0, p)))
    }

    /// The computation mnemonic of the compute instruction under the cursor.
    /// A line whose `;` stands before its `=` is malformed; asking for its
    /// computation is a defect in the caller.
    pub fn comp(&self) -> (r: Option<Vec<u8>>)
        requires
            self.position < self.code@.len() ==> comp_start(
                self.code.deep_view()[self.position as int],
            ) <= comp_end(self.code.deep_view()[self.position as int]),
        ensures
            self.position >= self.code@.len() ==> r is None,
            self.position < self.code@.len() ==> {
                let spec_r = comp_spec(self.code.deep_view()[self.position as int]);
                (r is Some <==> spec_r is Some) && (r matches Some(v) ==> v@ == spec_r.unwrap())
            },
    {
        match self.command_type() {
            Some(CommandType::CCOMMAND) => {},
            _ => {
                return None;
            },
        }
        let cur = &self.code[self.position];
        proof {
            assert(self.code.deep_view()[self.position as int] == self.code@[self.position as int]@);
        }
        let n = cur.len();
        let eq_pos = find_byte(cur.as_slice(), 61);
        let left: usize = if eq_pos == n {
            0
        } else {
            eq_pos + 1
        };
        let right = find_byte(cur.as_slice(), 59);
        Some(vstd::slice::slice_to_vec(vstd::slice::slice_subrange(cur.as_slice(), left, right)))
    }

    /// The jump mnemonic of the compute instruction under the cursor.
    pub fn jump(&self) -> (r: Option<Vec<u8>>)
        ensures
            self.position >= self.code@.len() ==> r is None,
            self.position < self.code@.len() ==> {
                let spec_r = jump_spec(self.code.deep_view()[self.position as int]);
                (r is Some <==> spec_r is Some) && (r matches Some(v) ==> v@ == spec_r.unwrap())
            },
    {
        match self.command_type() {
            Some(CommandType::CCOMMAND) => {},
            _ => {
                return None;
            },
        }
        let cur = &self.code[self.position];
        proof {
            assert(self.code.deep_view()[self.position as int] == self.code@[self.position as int]@);
        }
        let n = cur.len();
        let p = find_byte(cur.as_slice(), 59);
        if p == n {
            return None;
        }
        Some(vstd::slice::slice_to_vec(vstd::slice::slice_subrange(cur.as_slice(), p + 1, n)))
    }
}

/// The bindings a symbol-entry sequence makes, later entries winning.
pub open spec fn table_map(t: Seq<(Vec<u8>, usize)>) -> Map<Seq<u8>, usize>
    decreases t.len(),
{
    if t.len() == 0 {
        Map::empty()
    } else {
        table_map(t.drop_last()).insert(t.last().0@, t.last().1)
    }
}

/// The assembler's symbol table, preloaded with the platform's predefined
/// symbols.
pub struct SymbolTable {
    pub table: Vec<(Vec<u8>, usize)>,
}

impl View for SymbolTable {
    type V = Map<Seq<u8>, usize>;

    open spec fn view(&self) -> Map<Seq<u8>, usize> {
        table_map(self.table@)
    }
}

impl SymbolTable {
    fn push_sym(&mut self, symbol: Vec<u8>, address: usize)
        ensures
            final(self)@ == old(self)@.insert(symbol@, address),
    {
        let ghost before = self.table@;
        self.table.push((symbol, address));
        proof {
            assert(self.table@.drop_last() =~= before);
        }
    }

    /// A table holding exactly the predefined symbols.
    pub fn new() -> (t: SymbolTable)
        ensures
            t@ == builtin_map(),
    {
        let mut t = SymbolTable { table: Vec::new() };
        proof {
            assert(t@ =~= Map::<Seq<u8>, usize>::empty());
        }
        let w: Vec<u8> = vec!['S' as u8, 'P' as u8];
        proof {
            assert(w@ =~= seq!['S' as u8, 'P' as u8]);
        }
        t.push_sym(w, 0);
        let w: Vec<u8> = vec!['L' as u8, 'C' as u8, 'L' as u8];
        proof {
            assert(w@ =~= seq!['L' as u8, 'C' as u8, 'L' as u8]);
        }
        t.push_sym(w, 1);
        let w: Vec<u8> = vec!['A' as u8, 'R' as u8, 'G' as u8];
        proof {
            assert(w@ =~= seq!['A' as u8, 'R' as u8, 'G' as u8]);
        }
        t.push_sym(w, 2);
        let w: Vec<u8> = vec!['T' as u8, 'H' as u8, 'I' as u8, 'S' as u8];
        proof {
            assert(w@ =~= seq!['T' as u8, 'H' as u8, 'I' as u8, 'S' as u8]);
        }
        t.push_sym(w, 3);
        let w: Vec<u8> = vec!['T' as u8, 'H' as u8, 'A' as u8, 'T' as u8];
        proof {
            assert(w@ =~= seq!['T' as u8, 'H' as u8, 'A' as u8, 'T' as u8]);
        }
        t.push_sym(w, 4);
        let w: Vec<u8> = vec!['R' as u8, '0' as u8];
        proof {
            assert(w@ =~= seq!['R' as u8, '0' as u8]);
        }
        t.push_sym(w, 0);
        let w: Vec<u8> = vec!['R' as u8, '1' as u8];
        proof {
            assert(w@ =~= seq!['R' as u8, '1' as u8]);
        }
        t.push_sym(w, 1);
        let w: Vec<u8> = vec!['R' as u8, '2' as u8];
        proof {
            assert(w@ =~= seq!['R' as u8, '2' as u8]);
        }
        t.push_sym(w, 2);
        let w: Vec<u8> = vec!['R' as u8, '3' as u8];
        proof {
            assert(w@ =~= seq!['R' as u8, '3' as u8]);
        }
        t.push_sym(w, 3);
        let w: Vec<u8> = vec!['R' as u8, '4' as u8];
        proof {
            assert(w@ =~= seq!['R' as u8, '4' as u8]);
        }
        t.push_sym(w, 4);
        let w: Vec<u8> = vec!['R' as u8, '5' as u8];
        proof {
            assert(w@ =~= seq!['R' as u8, '5' as u8]);
        }
        t.push_sym(w, 5);
        let w: Vec<u8> = vec!['R' as u8, '6' as u8];
        proof {
            assert(w@ =~= seq!['R' as u8, '6' as u8]);
        }
        t.push_sym(w, 6);
        let w: Vec<u8> = vec!['R' as u8, '7' as u8];
        proof {
            assert(w@ =~= seq!['R' as u8, '7' as u8]);
        }
        t.push_sym(w, 7);
        let w: Vec<u8> = vec!['R' as u8, '8' as u8];
        proof {
            assert(w@ =~= seq!['R' as u8, '8' as u8]);
        }
        t.push_sym(w, 8);
        let w: Vec<u8> = vec!['R' as u8, '9' as u8];
        proof {
            assert(w@ =~= seq!['R' as u8, '9' as u8]);
        }
        t.push_sym(w, 9);
        let w: Vec<u8> = vec!['R' as u8, '1' as u8, '0' as u8];
        proof {
            assert(w@ =~= seq!['R' as u8, '1' as u8, '0' as u8]);
        }
        t.push_sym(w, 10);
        let w: Vec<u8> = vec!['R' as u8, '1' as u8, '1' as u8];
        proof {
            assert(w@ =~= seq!['R' as u8, '1' as u8, '1' as u8]);
        }
        t.push_sym(w, 11);
        let w: Vec<u8> = vec!['R' as u8, '1' as u8, '2' as u8];
        proof {
            assert(w@ =~= seq!['R' as u8, '1' as u8, '2' as u8]);
        }
        t.push_sym(w, 12);
        let w: Vec<u8> = vec!['R' as u8, '1' as u8, '3' as u8];
        proof {
            assert(w@ =~= seq!['R' as u8, '1' as u8, '3' as u8]);
        }
        t.push_sym(w, 13);
        let w: Vec<u8> = vec!['R' as u8, '1' as u8, '4' as u8];
        proof {
            assert(w@ =~= seq!['R' as u8, '1' as u8, '4' as u8]);
        }
        t.push_sym(w, 14);
        let w: Vec<u8> = vec!['R' as u8, '1' as u8, '5' as u8];
        proof {
            assert(w@ =~= seq!['R' as u8, '1' as u8, '5' as u8]);
        }
        t.push_sym(w, 15);
        let w: Vec<u8> = vec!['S' as u8, 'C' as u8, 'R' as u8, 'E' as u8, 'E' as u8, 'N' as u8];
        proof {
            assert(w@ =~= seq!['S' as u8, 'C' as u8, 'R' as u8, 'E' as u8, 'E' as u8, 'N' as u8]);
        }
        t.push_sym(w, 16384);
        let w: Vec<u8> = vec!['K' as u8, 'B' as u8, 'D' as u8];
        proof {
            assert(w@ =~= seq!['K' as u8, 'B' as u8, 'D' as u8]);
        }
        t.push_sym(w, 24576);

        proof {
            assert(t@ =~= builtin_map());
        }
        t
    }

    fn lookup(&self, symbol: &[u8]) -> (r: Option<usize>)
        ensures
            r == if self@.dom().contains(symbol@) {
                Some(self@[symbol@])
            } else {
                None::<usize>
            },
    {
        let n = self.table.len();
        let mut i: usize = n;
        proof {
            assert(self.table@.take(n as int) =~= self.table@);
        }
        while i > 0
            invariant
                0 <= i <= n,
                n == self.table@.len(),
                self@.dom().contains(symbol@) == table_map(self.table@.take(i as int)).dom()
                    .contains(symbol@),
                self@.dom().contains(symbol@) ==> self@[symbol@] == table_map(
                    self.table@.take(i as int),
                )[symbol@],
            decreases i,
        {
            proof {
                assert(self.table@.take(i as int).last() == self.table@[i - 1]);
                assert(self.table@.take(i as int).drop_last() =~= self.table@.take(i - 1));
            }
            let entry = &self.table[i - 1];
            if eq_bytes(entry.0.as_slice(), symbol) {
                return Some(entry.1);
            }
            i = i - 1;
        }
        proof {
            assert(self.table@.take(0) =~= Seq::<(Vec<u8>, usize)>::empty());
        }
        None
    }

    /// Bind `symbol` to `address` unless the table already binds it; a bound
    /// symbol keeps its first address.
    pub fn add_entry(&mut self, symbol: Vec<u8>, address: usize)
        ensures
            final(self)@ == if old(self)@.dom().contains(symbol@) {
                old(self)@
            } else {
                old(self)@.insert(symbol@, address)
            },
    {
        if self.contains(symbol.as_slice()) {
            return ;
        }
        self.push_sym(symbol, address);
    }

    /// Whether the table binds `symbol`.
    pub fn contains(&self, symbol: &[u8]) -> (r: bool)
        ensures
            r == self@.dom().contains(symbol@),
    {
        match self.lookup(symbol) {
            Some(_) => true,
            None => false,
        }
    }

    /// The address bound to `symbol`, if any.
    pub fn get_address(&self, symbol: &[u8]) -> (r: Option<usize>)
        ensures
            r == if self@.dom().contains(symbol@) {
                Some(self@[symbol@])
            } else {
                None::<usize>
            },
    {
        self.lookup(symbol)
    }
}

/// The predefined symbols of the target platform and their addresses.
pub open spec fn builtin_map() -> Map<Seq<u8>, usize> {
    Map::empty().insert(
        seq!['S' as u8, 'P' as u8],
        0usize,
    ).insert(
        seq!['L' as u8, 'C' as u8, 'L' as u8],
        1usize,
    ).insert(
        seq!['A' as u8, 'R' as u8, 'G' as u8],
        2usize,
    ).insert(
        seq!['T' as u8, 'H' as u8, 'I' as u8, 'S' as u8],
        3usize,
    ).insert(
        seq!['T' as u8, 'H' as u8, 'A' as u8, 'T' as u8],
        4usize,
    ).insert(
        seq!['R' as u8, '0' as u8],
        0usize,
    ).insert(
        seq!['R' as u8, '1' as u8],
        1usize,
    ).insert(
        seq!['R' as u8, '2' as u8],
        2usize,
    ).insert(
        seq!['R' as u8, '3' as u8],
        3usize,
    ).insert(
        seq!['R' as u8, '4' as u8],
        4usize,
    ).insert(
        seq!['R' as u8, '5' as u8],
        5usize,
    ).insert(
        seq!['R' as u8, '6' as u8],
        6usize,
    ).insert(
        seq!['R' as u8, '7' as u8],
        7usize,
    ).insert(
        seq!['R' as u8, '8' as u8],
        8usize,
    ).insert(
        seq!['R' as u8, '9' as u8],
        9usize,
    ).insert(
        seq!['R' as u8, '1' as u8, '0' as u8],
        10usize,
    ).insert(
        seq!['R' as u8, '1' as u8, '1' as u8],
        11usize,
    ).insert(
        seq!['R' as u8, '1' as u8, '2' as u8],
        12usize,
    ).insert(
        seq!['R' as u8, '1' as u8, '3' as u8],
        13usize,
    ).insert(
        seq!['R' as u8, '1' as u8, '4' as u8],
        14usize,
    ).insert(
        seq!['R' as u8, '1' as u8, '5' as u8],
        15usize,
    ).insert(
        seq!['S' as u8, 'C' as u8, 'R' as u8, 'E' as u8, 'E' as u8, 'N' as u8],
        16384usize,
    ).insert(
        seq!['K' as u8, 'B' as u8, 'D' as u8],
        24576usize,
    )
}


/// The destination bits of a C-instruction mnemonic; unknown mnemonics take the null destination.
pub open spec fn dest_code(m: Seq<u8>) -> Seq<u8> {
    if m == seq!['M' as u8] {
        seq!['0' as u8, '0' as u8, '1' as u8]
    } else if m == seq!['D' as u8] {
        seq!['0' as u8, '1' as u8, '0' as u8]
    } else if m == seq!['M' as u8, 'D' as u8] {
        seq!['0' as u8, '1' as u8, '1' as u8]
    } else if m == seq!['A' as u8] {
        seq!['1' as u8, '0' as u8, '0' as u8]
    } else if m == seq!['A' as u8, 'M' as u8] {
        seq!['1' as u8, '0' as u8, '1' as u8]
    } else if m == seq!['A' as u8, 'D' as u8] {
        seq!['1' as u8, '1' as u8, '0' as u8]
    } else if m == seq!['A' as u8, 'M' as u8, 'D' as u8] {
        seq!['1' as u8, '1' as u8, '1' as u8]
    } else {
        seq!['0' as u8, '0' as u8, '0' as u8]
    }
}

/// The jump bits of a C-instruction mnemonic; unknown mnemonics take the null jump.
pub open spec fn jump_code(m: Seq<u8>) -> Seq<u8> {
    if m == seq!['J' as u8, 'G' as u8, 'T' as u8] {
        seq!['0' as u8, '0' as u8, '1' as u8]
    } else if m == seq!['J' as u8, 'E' as u8, 'Q' as u8] {
        seq!['0' as u8, '1' as u8, '0' as u8]
    } else if m == seq!['J' as u8, 'G' as u8, 'E' as u8] {
        seq!['0' as u8, '1' as u8, '1' as u8]
    } else if m == seq!['J' as u8, 'L' as u8, 'T' as u8] {
        seq!['1' as u8, '0' as u8, '0' as u8]
    } else if m == seq!['J' as u8, 'N' as u8, 'E' as u8] {
        seq!['1' as u8, '0' as u8, '1' as u8]
    } else if m == seq!['J' as u8, 'L' as u8, 'E' as u8] {
        seq!['1' as u8, '1' as u8, '0' as u8]
    } else if m == seq!['J' as u8, 'M' as u8, 'P' as u8] {
        seq!['1' as u8, '1' as u8, '1' as u8]
    } else {
        seq!['0' as u8, '0' as u8, '0' as u8]
    }
}

/// The computation bits of a C-instruction mnemonic; an unknown mnemonic
/// has none.
pub open spec fn comp_code(m: Seq<u8>) -> Option<Seq<u8>> {
    if m == seq!['0' as u8] {
        Some(seq!['0' as u8, '1' as u8, '0' as u8, '1' as u8, '0' as u8, '1' as u8, '0' as u8])
    } else if m == seq!['1' as u8] {
        Some(seq!['0' as u8, '1' as u8, '1' as u8, '1' as u8, '1' as u8, '1' as u8, '1' as u8])
    } else if m == seq!['-' as u8, '1' as u8] {
        Some(seq!['0' as u8, '1' as u8, '1' as u8, '1' as u8, '0' as u8, '1' as u8, '0' as u8])
    } else if m == seq!['D' as u8] {
        Some(seq!['0' as u8, '0' as u8, '0' as u8, '1' as u8, '1' as u8, '0' as u8, '0' as u8])
    } else if m == seq!['A' as u8] {
        Some(seq!['0' as u8, '1' as u8, '1' as u8, '0' as u8, '0' as u8, '0' as u8, '0' as u8])
    } else if m == seq!['!' as u8, 'D' as u8] {
        Some(seq!['0' as u8, '0' as u8, '0' as u8, '1' as u8, '1' as u8, '0' as u8, '1' as u8])
    } else if m == seq!['!' as u8, 'A' as u8] {
        Some(seq!['0' as u8, '1' as u8, '1' as u8, '0' as u8, '0' as u8, '0' as u8, '1' as u8])
    } else if m == seq!['-' as u8, 'D' as u8] {
        Some(seq!['0' as u8, '0' as u8, '0' as u8, '1' as u8, '1' as u8, '1' as u8, '1' as u8])
    } else if m == seq!['-' as u8, 'A' as u8] {
        Some(seq!['0' as u8, '1' as u8, '1' as u8, '0' as u8, '0' as u8, '1' as u8, '1' as u8])
    } else if m == seq!['D' as u8, '+' as u8, '1' as u8] {
        Some(seq!['0' as u8, '0' as u8, '1' as u8, '1' as u8, '1' as u8, '1' as u8, '1' as u8])
    } else if m == seq!['A' as u8, '+' as u8, '1' as u8] {
        Some(seq!['0' as u8, '1' as u8, '1' as u8, '0' as u8, '1' as u8, '1' as u8, '1' as u8])
    } else if m == seq!['D' as u8, '-' as u8, '1' as u8] {
        Some(seq!['0' as u8, '0' as u8, '0' as u8, '1' as u8, '1' as u8, '1' as u8, '0' as u8])
    } else if m == seq!['A' as u8, '-' as u8, '1' as u8] {
        Some(seq!['0' as u8, '1' as u8, '1' as u8, '0' as u8, '0' as u8, '1' as u8, '0' as u8])
    } else if m == seq!['D' as u8, '+' as u8, 'A' as u8] {
        Some(seq!['0' as u8, '0' as u8, '0' as u8, '0' as u8, '0' as u8, '1' as u8, '0' as u8])
    } else if m == seq!['D' as u8, '-' as u8, 'A' as u8] {
        Some(seq!['0' as u8, '0' as u8, '1' as u8, '0' as u8, '0' as u8, '1' as u8, '1' as u8])
    } else if m == seq!['A' as u8, '-' as u8, 'D' as u8] {
        Some(seq!['0' as u8, '0' as u8, '0' as u8, '0' as u8, '1' as u8, '1' as u8, '1' as u8])
    } else if m == seq!['D' as u8, '&' as u8, 'A' as u8] {
        Some(seq!['0' as u8, '0' as u8, '0' as u8, '0' as u8, '0' as u8, '0' as u8, '0' as u8])
    } else if m == seq!['D' as u8, '|' as u8, 'A' as u8] {
        Some(seq!['0' as u8, '0' as u8, '1' as u8, '0' as u8, '1' as u8, '0' as u8, '1' as u8])
    } else if m == seq!['M' as u8] {
        Some(seq!['1' as u8, '1' as u8, '1' as u8, '0' as u8, '0' as u8, '0' as u8, '0' as u8])
    } else if m == seq!['!' as u8, 'M' as u8] {
        Some(seq!['1' as u8, '1' as u8, '1' as u8, '0' as u8, '0' as u8, '0' as u8, '1' as u8])
    } else if m == seq!['-' as u8, 'M' as u8] {
        Some(seq!['1' as u8, '1' as u8, '1' as u8, '0' as u8, '0' as u8, '1' as u8, '1' as u8])
    } else if m == seq!['M' as u8, '+' as u8, '1' as u8] {
        Some(seq!['1' as u8, '1' as u8, '1' as u8, '0' as u8, '1' as u8, '1' as u8, '1' as u8])
    } else if m == seq!['M' as u8, '-' as u8, '1' as u8] {
        Some(seq!['1' as u8, '1' as u8, '1' as u8, '0' as u8, '0' as u8, '1' as u8, '0' as u8])
    } else if m == seq!['D' as u8, '+' as u8, 'M' as u8] {
        Some(seq!['1' as u8, '0' as u8, '0' as u8, '0' as u8, '0' as u8, '1' as u8, '0' as u8])
    } else if m == seq!['D' as u8, '-' as u8, 'M' as u8] {
        Some(seq!['1' as u8, '0' as u8, '1' as u8, '0' as u8, '0' as u8, '1' as u8, '1' as u8])
    } else if m == seq!['M' as u8, '-' as u8, 'D' as u8] {
        Some(seq!['1' as u8, '0' as u8, '0' as u8, '0' as u8, '1' as u8, '1' as u8, '1' as u8])
    } else if m == seq!['D' as u8, '&' as u8, 'M' as u8] {
        Some(seq!['1' as u8, '0' as u8, '0' as u8, '0' as u8, '0' as u8, '0' as u8, '0' as u8])
    } else if m == seq!['D' as u8, '|' as u8, 'M' as u8] {
        Some(seq!['1' as u8, '0' as u8, '1' as u8, '0' as u8, '1' as u8, '0' as u8, '1' as u8])
    } else {
        None
    }
}

/// Encode a destination mnemonic as its three instruction bits.
pub fn dest(mnemonic: &[u8]) -> (r: Vec<u8>)
    ensures
        r@ == dest_code(mnemonic@),
{
    let w: Vec<u8> = vec!['M' as u8];
    proof {
        assert(w@ =~= seq!['M' as u8]);
    }
    if eq_bytes(mnemonic, w.as_slice()) {
        let r: Vec<u8> = vec!['0' as u8, '0' as u8, '1' as u8];
        proof {
            assert(r@ =~= seq!['0' as u8, '0' as u8, '1' as u8]);
        }
        return r;
    }
    let w: Vec<u8> = vec!['D' as u8];
    proof {
        assert(w@ =~= seq!['D' as u8]);
    }
    if eq_bytes(mnemonic, w.as_slice()) {
        let r: Vec<u8> = vec!['0' as u8, '1' as u8, '0' as u8];
        proof {
            assert(r@ =~= seq!['0' as u8, '1' as u8, '0' as u8]);
        }
        return r;
    }
    let w: Vec<u8> = vec!['M' as u8, 'D' as u8];
    proof {
        assert(w@ =~= seq!['M' as u8, 'D' as u8]);
    }
    if eq_bytes(mnemonic, w.as_slice()) {
        let r: Vec<u8> = vec!['0' as u8, '1' as u8, '1' as u8];
        proof {
            assert(r@ =~= seq!['0' as u8, '1' as u8, '1' as u8]);
        }
        return r;
    }
    let w: Vec<u8> = vec!['A' as u8];
    proof {
        assert(w@ =~= seq!['A' as u8]);
    }
    if eq_bytes(mnemonic, w.as_slice()) {
        let r: Vec<u8> = vec!['1' as u8, '0' as u8, '0' as u8];
        proof {
            assert(r@ =~= seq!['1' as u8, '0' as u8, '0' as u8]);
        }
        return r;
    }
    let w: Vec<u8> = vec!['A' as u8, 'M' as u8];
    proof {
        assert(w@ =~= seq!['A' as u8, 'M' as u8]);
    }
    if eq_bytes(mnemonic, w.as_slice()) {
        let r: Vec<u8> = vec!['1' as u8, '0' as u8, '1' as u8];
        proof {
            assert(r@ =~= seq!['1' as u8, '0' as u8, '1' as u8]);
        }
        return r;
    }
    let w: Vec<u8> = vec!['A' as u8, 'D' as u8];
    proof {
        assert(w@ =~= seq!['A' as u8, 'D' as u8]);
    }
    if eq_bytes(mnemonic, w.as_slice()) {
        let r: Vec<u8> = vec!['1' as u8, '1' as u8, '0' as u8];
        proof {
            assert(r@ =~= seq!['1' as u8, '1' as u8, '0' as u8]);
        }
        return r;
    }
    let w: Vec<u8> = vec!['A' as u8, 'M' as u8, 'D' as u8];
    proof {
        assert(w@ =~= seq!['A' as u8, 'M' as u8, 'D' as u8]);
    }
    if eq_bytes(mnemonic, w.as_slice()) {
        let r: Vec<u8> = vec!['1' as u8, '1' as u8, '1' as u8];
        proof {
            assert(r@ =~= seq!['1' as u8, '1' as u8, '1' as u8]);
        }
        return r;
    }
    let r: Vec<u8> = vec!['0' as u8, '0' as u8, '0' as u8];
    proof {
        assert(r@ =~= seq!['0' as u8, '0' as u8, '0' as u8]);
    }
    r
}

/// Encode a jump mnemonic as its three instruction bits.
pub fn jump(mnemonic: &[u8]) -> (r: Vec<u8>)
    ensures
        r@ == jump_code(mnemonic@),
{
    let w: Vec<u8> = vec!['J' as u8, 'G' as u8, 'T' as u8];
    proof {
        assert(w@ =~= seq!['J' as u8, 'G' as u8, 'T' as u8]);
    }
    if eq_bytes(mnemonic, w.as_slice()) {
        let r: Vec<u8> = vec!['0' as u8, '0' as u8, '1' as u8];
        proof {
            assert(r@ =~= seq!['0' as u8, '0' as u8, '1' as u8]);
        }
        return r;
    }
    let w: Vec<u8> = vec!['J' as u8, 'E' as u8, 'Q' as u8];
    proof {
        assert(w@ =~= seq!['J' as u8, 'E' as u8, 'Q' as u8]);
    }
    if eq_bytes(mnemonic, w.as_slice()) {
        let r: Vec<u8> = vec!['0' as u8, '1' as u8, '0' as u8];
        proof {
            assert(r@ =~= seq!['0' as u8, '1' as u8, '0' as u8]);
        }
        return r;
    }
    let w: Vec<u8> = vec!['J' as u8, 'G' as u8, 'E' as u8];
    proof {
        assert(w@ =~= seq!['J' as u8, 'G' as u8, 'E' as u8]);
    }
    if eq_bytes(mnemonic, w.as_slice()) {
        let r: Vec<u8> = vec!['0' as u8, '1' as u8, '1' as u8];
        proof {
            assert(r@ =~= seq!['0' as u8, '1' as u8, '1' as u8]);
        }
        return r;
    }
    let w: Vec<u8> = vec!['J' as u8, 'L' as u8, 'T' as u8];
    proof {
        assert(w@ =~= seq!['J' as u8, 'L' as u8, 'T' as u8]);
    }
    if eq_bytes(mnemonic, w.as_slice()) {
        let r: Vec<u8> = vec!['1' as u8, '0' as u8, '0' as u8];
        proof {
            assert(r@ =~= seq!['1' as u8, '0' as u8, '0' as u8]);
        }
        return r;
    }
    let w: Vec<u8> = vec!['J' as u8, 'N' as u8, 'E' as u8];
    proof {
        assert(w@ =~= seq!['J' as u8, 'N' as u8, 'E' as u8]);
    }
    if eq_bytes(mnemonic, w.as_slice()) {
        let r: Vec<u8> = vec!['1' as u8, '0' as u8, '1' as u8];
        proof {
            assert(r@ =~= seq!['1' as u8, '0' as u8, '1' as u8]);
        }
        return r;
    }
    let w: Vec<u8> = vec!['J' as u8, 'L' as u8, 'E' as u8];
    proof {
        assert(w@ =~= seq!['J' as u8, 'L' as u8, 'E' as u8]);
    }
    if eq_bytes(mnemonic, w.as_slice()) {
        let r: Vec<u8> = vec!['1' as u8, '1' as u8, '0' as u8];
        proof {
            assert(r@ =~= seq!['1' as u8, '1' as u8, '0' as u8]);
        }
        return r;
    }
    let w: Vec<u8> = vec!['J' as u8, 'M' as u8, 'P' as u8];
    proof {
        assert(w@ =~= seq!['J' as u8, 'M' as u8, 'P' as u8]);
    }
    if eq_bytes(mnemonic, w.as_slice()) {
        let r: Vec<u8> = vec!['1' as u8, '1' as u8, '1' as u8];
        proof {
            assert(r@ =~= seq!['1' as u8, '1' as u8, '1' as u8]);
        }
        return r;
    }
    let r: Vec<u8> = vec!['0' as u8, '0' as u8, '0' as u8];
    proof {
        assert(r@ =~= seq!['0' as u8, '0' as u8, '0' as u8]);
    }
    r
}

/// Encode a computation mnemonic as its seven instruction bits.  An
/// unknown mnemonic is a defect in the caller.
pub fn comp(mnemonic: &[u8]) -> (r: Vec<u8>)
    requires
        comp_code(mnemonic@) is Some,
    ensures
        r@ == comp_code(mnemonic@).unwrap(),
{
    let w: Vec<u8> = vec!['0' as u8];
    proof {
        assert(w@ =~= seq!['0' as u8]);
    }
    if eq_bytes(mnemonic, w.as_slice()) {
        let r: Vec<u8> = vec!['0' as u8, '1' as u8, '0' as u8, '1' as u8, '0' as u8, '1' as u8, '0' as u8];
        proof {
            assert(r@ =~= seq!['0' as u8, '1' as u8, '0' as u8, '1' as u8, '0' as u8, '1' as u8, '0' as u8]);
        }
        return r;
    }
    let w: Vec<u8> = vec!['1' as u8];
    proof {
        assert(w@ =~= seq!['1' as u8]);
    }
    if eq_bytes(mnemonic, w.as_slice()) {
        let r: Vec<u8> = vec!['0' as u8, '1' as u8, '1' as u8, '1' as u8, '1' as u8, '1' as u8, '1' as u8];
        proof {
            assert(r@ =~= seq!['0' as u8, '1' as u8, '1' as u8, '1' as u8, '1' as u8, '1' as u8, '1' as u8]);
        }
        return r;
    }
    let w: Vec<u8> = vec!['-' as u8, '1' as u8];
    proof {
        assert(w@ =~= seq!['-' as u8, '1' as u8]);
    }
    if eq_bytes(mnemonic, w.as_slice()) {
        let r: Vec<u8> = vec!['0' as u8, '1' as u8, '1' as u8, '1' as u8, '0' as u8, '1' as u8, '0' as u8];
        proof {
            assert(r@ =~= seq!['0' as u8, '1' as u8, '1' as u8, '1' as u8, '0' as u8, '1' as u8, '0' as u8]);
        }
        return r;
    }
    let w: Vec<u8> = vec!['D' as u8];
    proof {
        assert(w@ =~= seq!['D' as u8]);
    }
    if eq_bytes(mnemonic, w.as_slice()) {
        let r: Vec<u8> = vec!['0' as u8, '0' as u8, '0' as u8, '1' as u8, '1' as u8, '0' as u8, '0' as u8];
        proof {
            assert(r@ =~= seq!['0' as u8, '0' as u8, '0' as u8, '1' as u8, '1' as u8, '0' as u8, '0' as u8]);
        }
        return r;
    }
    let w: Vec<u8> = vec!['A' as u8];
    proof {
        assert(w@ =~= seq!['A' as u8]);
    }
    if eq_bytes(mnemonic, w.as_slice()) {
        let r: Vec<u8> = vec!['0' as u8, '1' as u8, '1' as u8, '0' as u8, '0' as u8, '0' as u8, '0' as u8];
        proof {
            assert(r@ =~= seq!['0' as u8, '1' as u8, '1' as u8, '0' as u8, '0' as u8, '0' as u8, '0' as u8]);
        }
        return r;
    }
    let w: Vec<u8> = vec!['!' as u8, 'D' as u8];
    proof {
        assert(w@ =~= seq!['!' as u8, 'D' as u8]);
    }
    if eq_bytes(mnemonic, w.as_slice()) {
        let r: Vec<u8> = vec!['0' as u8, '0' as u8, '0' as u8, '1' as u8, '1' as u8, '0' as u8, '1' as u8];
        proof {
            assert(r@ =~= seq!['0' as u8, '0' as u8, '0' as u8, '1' as u8, '1' as u8, '0' as u8, '1' as u8]);
        }
        return r;
    }
    let w: Vec<u8> = vec!['!' as u8, 'A' as u8];
    proof {
        assert(w@ =~= seq!['!' as u8, 'A' as u8]);
    }
    if eq_bytes(mnemonic, w.as_slice()) {
        let r: Vec<u8> = vec!['0' as u8, '1' as u8, '1' as u8, '0' as u8, '0' as u8, '0' as u8, '1' as u8];
        proof {
            assert(r@ =~= seq!['0' as u8, '1' as u8, '1' as u8, '0' as u8, '0' as u8, '0' as u8, '1' as u8]);
        }
        return r;
    }
    let w: Vec<u8> = vec!['-' as u8, 'D' as u8];
    proof {
        assert(w@ =~= seq!['-' as u8, 'D' as u8]);
    }
    if eq_bytes(mnemonic, w.as_slice()) {
        let r: Vec<u8> = vec!['0' as u8, '0' as u8, '0' as u8, '1' as u8, '1' as u8, '1' as u8, '1' as u8];
        proof {
            assert(r@ =~= seq!['0' as u8, '0' as u8, '0' as u8, '1' as u8, '1' as u8, '1' as u8, '1' as u8]);
        }
        return r;
    }
    let w: Vec<u8> = vec!['-' as u8, 'A' as u8];
    proof {
        assert(w@ =~= seq!['-' as u8, 'A' as u8]);
    }
    if eq_bytes(mnemonic, w.as_slice()) {
        let r: Vec<u8> = vec!['0' as u8, '1' as u8, '1' as u8, '0' as u8, '0' as u8, '1' as u8, '1' as u8];
        proof {
            assert(r@ =~= seq!['0' as u8, '1' as u8, '1' as u8, '0' as u8, '0' as u8, '1' as u8, '1' as u8]);
        }
        return r;
    }
    let w: Vec<u8> = vec!['D' as u8, '+' as u8, '1' as u8];
    proof {
        assert(w@ =~= seq!['D' as u8, '+' as u8, '1' as u8]);
    }
    if eq_bytes(mnemonic, w.as_slice()) {
        let r: Vec<u8> = vec!['0' as u8, '0' as u8, '1' as u8, '1' as u8, '1' as u8, '1' as u8, '1' as u8];
        proof {
            assert(r@ =~= seq!['0' as u8, '0' as u8, '1' as u8, '1' as u8, '1' as u8, '1' as u8, '1' as u8]);
        }
        return r;
    }
    let w: Vec<u8> = vec!['A' as u8, '+' as u8, '1' as u8];
    proof {
        assert(w@ =~= seq!['A' as u8, '+' as u8, '1' as u8]);
    }
    if eq_bytes(mnemonic, w.as_slice()) {
        let r: Vec<u8> = vec!['0' as u8, '1' as u8, '1' as u8, '0' as u8, '1' as u8, '1' as u8, '1' as u8];
        proof {
            assert(r@ =~= seq!['0' as u8, '1' as u8, '1' as u8, '0' as u8, '1' as u8, '1' as u8, '1' as u8]);
        }
        return r;
    }
    let w: Vec<u8> = vec!['D' as u8, '-' as u8, '1' as u8];
    proof {
        assert(w@ =~= seq!['D' as u8, '-' as u8, '1' as u8]);
    }
    if eq_bytes(mnemonic, w.as_slice()) {
        let r: Vec<u8> = vec!['0' as u8, '0' as u8, '0' as u8, '1' as u8, '1' as u8, '1' as u8, '0' as u8];
        proof {
            assert(r@ =~= seq!['0' as u8, '0' as u8, '0' as u8, '1' as u8, '1' as u8, '1' as u8, '0' as u8]);
        }
        return r;
    }
    let w: Vec<u8> = vec!['A' as u8, '-' as u8, '1' as u8];
    proof {
        assert(w@ =~= seq!['A' as u8, '-' as u8, '1' as u8]);
    }
    if eq_bytes(mnemonic, w.as_slice()) {
        let r: Vec<u8> = vec!['0' as u8, '1' as u8, '1' as u8, '0' as u8, '0' as u8, '1' as u8, '0' as u8];
        proof {
            assert(r@ =~= seq!['0' as u8, '1' as u8, '1' as u8, '0' as u8, '0' as u8, '1' as u8, '0' as u8]);
        }
        return r;
    }
    let w: Vec<u8> = vec!['D' as u8, '+' as u8, 'A' as u8];
    proof {
        assert(w@ =~= seq!['D' as u8, '+' as u8, 'A' as u8]);
    }
    if eq_bytes(mnemonic, w.as_slice()) {
        let r: Vec<u8> = vec!['0' as u8, '0' as u8, '0' as u8, '0' as u8, '0' as u8, '1' as u8, '0' as u8];
        proof {
            assert(r@ =~= seq!['0' as u8, '0' as u8, '0' as u8, '0' as u8, '0' as u8, '1' as u8, '0' as u8]);
        }
        return r;
    }
    let w: Vec<u8> = vec!['D' as u8, '-' as u8, 'A' as u8];
    proof {
        assert(w@ =~= seq!['D' as u8, '-' as u8, 'A' as u8]);
    }
    if eq_bytes(mnemonic, w.as_slice()) {
        let r: Vec<u8> = vec!['0' as u8, '0' as u8, '1' as u8, '0' as u8, '0' as u8, '1' as u8, '1' as u8];
        proof {
            assert(r@ =~= seq!['0' as u8, '0' as u8, '1' as u8, '0' as u8, '0' as u8, '1' as u8, '1' as u8]);
        }
        return r;
    }
    let w: Vec<u8> = vec!['A' as u8, '-' as u8, 'D' as u8];
    proof {
        assert(w@ =~= seq!['A' as u8, '-' as u8, 'D' as u8]);
    }
    if eq_bytes(mnemonic, w.as_slice()) {
        let r: Vec<u8> = vec!['0' as u8, '0' as u8, '0' as u8, '0' as u8, '1' as u8, '1' as u8, '1' as u8];
        proof {
            assert(r@ =~= seq!['0' as u8, '0' as u8, '0' as u8, '0' as u8, '1' as u8, '1' as u8, '1' as u8]);
        }
        return r;
    }
    let w: Vec<u8> = vec!['D' as u8, '&' as u8, 'A' as u8];
    proof {
        assert(w@ =~= seq!['D' as u8, '&' as u8, 'A' as u8]);
    }
    if eq_bytes(mnemonic, w.as_slice()) {
        let r: Vec<u8> = vec!['0' as u8, '0' as u8, '0' as u8, '0' as u8, '0' as u8, '0' as u8, '0' as u8];
        proof {
            assert(r@ =~= seq!['0' as u8, '0' as u8, '0' as u8, '0' as u8, '0' as u8, '0' as u8, '0' as u8]);
        }
        return r;
    }
    let w: Vec<u8> = vec!['D' as u8, '|' as u8, 'A' as u8];
    proof {
        assert(w@ =~= seq!['D' as u8, '|' as u8, 'A' as u8]);
    }
    if eq_bytes(mnemonic, w.as_slice()) {
        let r: Vec<u8> = vec!['0' as u8, '0' as u8, '1' as u8, '0' as u8, '1' as u8, '0' as u8, '1' as u8];
        proof {
            assert(r@ =~= seq!['0' as u8, '0' as u8, '1' as u8, '0' as u8, '1' as u8, '0' as u8, '1' as u8]);
        }
        return r;
    }
    let w: Vec<u8> = vec!['M' as u8];
    proof {
        assert(w@ =~= seq!['M' as u8]);
    }
    if eq_bytes(mnemonic, w.as_slice()) {
        let r: Vec<u8> = vec!['1' as u8, '1' as u8, '1' as u8, '0' as u8, '0' as u8, '0' as u8, '0' as u8];
        proof {
            assert(r@ =~= seq!['1' as u8, '1' as u8, '1' as u8, '0' as u8, '0' as u8, '0' as u8, '0' as u8]);
        }
        return r;
    }
    let w: Vec<u8> = vec!['!' as u8, 'M' as u8];
    proof {
        assert(w@ =~= seq!['!' as u8, 'M' as u8]);
    }
    if eq_bytes(mnemonic, w.as_slice()) {
        let r: Vec<u8> = vec!['1' as u8, '1' as u8, '1' as u8, '0' as u8, '0' as u8, '0' as u8, '1' as u8];
        proof {
            assert(r@ =~= seq!['1' as u8, '1' as u8, '1' as u8, '0' as u8, '0' as u8, '0' as u8, '1' as u8]);
        }
        return r;
    }
    let w: Vec<u8> = vec!['-' as u8, 'M' as u8];
    proof {
        assert(w@ =~= seq!['-' as u8, 'M' as u8]);
    }
    if eq_bytes(mnemonic, w.as_slice()) {
        let r: Vec<u8> = vec!['1' as u8, '1' as u8, '1' as u8, '0' as u8, '0' as u8, '1' as u8, '1' as u8];
        proof {
            assert(r@ =~= seq!['1' as u8, '1' as u8, '1' as u8, '0' as u8, '0' as u8, '1' as u8, '1' as u8]);
        }
        return r;
    }
    let w: Vec<u8> = vec!['M' as u8, '+' as u8, '1' as u8];
    proof {
        assert(w@ =~= seq!['M' as u8, '+' as u8, '1' as u8]);
    }
    if eq_bytes(mnemonic, w.as_slice()) {
        let r: Vec<u8> = vec!['1' as u8, '1' as u8, '1' as u8, '0' as u8, '1' as u8, '1' as u8, '1' as u8];
        proof {
            assert(r@ =~= seq!['1' as u8, '1' as u8, '1' as u8, '0' as u8, '1' as u8, '1' as u8, '1' as u8]);
        }
        return r;
    }
    let w: Vec<u8> = vec!['M' as u8, '-' as u8, '1' as u8];
    proof {
        assert(w@ =~= seq!['M' as u8, '-' as u8, '1' as u8]);
    }
    if eq_bytes(mnemonic, w.as_slice()) {
        let r: Vec<u8> = vec!['1' as u8, '1' as u8, '1' as u8, '0' as u8, '0' as u8, '1' as u8, '0' as u8];
        proof {
            assert(r@ =~= seq!['1' as u8, '1' as u8, '1' as u8, '0' as u8, '0' as u8, '1' as u8, '0' as u8]);
        }
        return r;
    }
    let w: Vec<u8> = vec!['D' as u8, '+' as u8, 'M' as u8];
    proof {
        assert(w@ =~= seq!['D' as u8, '+' as u8, 'M' as u8]);
    }
    if eq_bytes(mnemonic, w.as_slice()) {
        let r: Vec<u8> = vec!['1' as u8, '0' as u8, '0' as u8, '0' as u8, '0' as u8, '1' as u8, '0' as u8];
        proof {
            assert(r@ =~= seq!['1' as u8, '0' as u8, '0' as u8, '0' as u8, '0' as u8, '1' as u8, '0' as u8]);
        }
        return r;
    }
    let w: Vec<u8> = vec!['D' as u8, '-' as u8, 'M' as u8];
    proof {
        assert(w@ =~= seq!['D' as u8, '-' as u8, 'M' as u8]);
    }
    if eq_bytes(mnemonic, w.as_slice()) {
        let r: Vec<u8> = vec!['1' as u8, '0' as u8, '1' as u8, '0' as u8, '0' as u8, '1' as u8, '1' as u8];
        proof {
            assert(r@ =~= seq!['1' as u8, '0' as u8, '1' as u8, '0' as u8, '0' as u8, '1' as u8, '1' as u8]);
        }
        return r;
    }
    let w: Vec<u8> = vec!['M' as u8, '-' as u8, 'D' as u8];
    proof {
        assert(w@ =~= seq!['M' as u8, '-' as u8, 'D' as u8]);
    }
    if eq_bytes(mnemonic, w.as_slice()) {
        let r: Vec<u8> = vec!['1' as u8, '0' as u8, '0' as u8, '0' as u8, '1' as u8, '1' as u8, '1' as u8];
        proof {
            assert(r@ =~= seq!['1' as u8, '0' as u8, '0' as u8, '0' as u8, '1' as u8, '1' as u8, '1' as u8]);
        }
        return r;
    }
    let w: Vec<u8> = vec!['D' as u8, '&' as u8, 'M' as u8];
    proof {
        assert(w@ =~= seq!['D' as u8, '&' as u8, 'M' as u8]);
    }
    if eq_bytes(mnemonic, w.as_slice()) {
        let r: Vec<u8> = vec!['1' as u8, '0' as u8, '0' as u8, '0' as u8, '0' as u8, '0' as u8, '0' as u8];
        proof {
            assert(r@ =~= seq!['1' as u8, '0' as u8, '0' as u8, '0' as u8, '0' as u8, '0' as u8, '0' as u8]);
        }
        return r;
    }
    let w: Vec<u8> = vec!['D' as u8, '|' as u8, 'M' as u8];
    proof {
        assert(w@ =~= seq!['D' as u8, '|' as u8, 'M' as u8]);
    }
    if eq_bytes(mnemonic, w.as_slice()) {
        let r: Vec<u8> = vec!['1' as u8, '0' as u8, '1' as u8, '0' as u8, '1' as u8, '0' as u8, '1' as u8];
        proof {
            assert(r@ =~= seq!['1' as u8, '0' as u8, '1' as u8, '0' as u8, '1' as u8, '0' as u8, '1' as u8]);
        }
        return r;
    }
    proof {
        assert(false);
    }
    Vec::new()
}


} // verus!

//! The intermediate-language front end: stack-machine instructions from source text.
use vstd::prelude::*;

use crate::error::{ErrorKind, SyntaxError};
use crate::text::{chars_of, eq_lit, parse_u16, parse_u16_chars, split_chars, string_of, trim, trim_chars, views, words, words_of, lines};

verus! {

/// A memory segment of the stack machine, without an offset.
#[derive(Clone, Copy, Debug, PartialEq, Eq, Structural)]
pub enum Segment {
    Constant,
    Static,
    Temp,
    Pointer,
    This,
    That,
    Local,
    Arg,
}

/// A memory segment and an offset into it.
#[derive(Clone, Copy, Debug, PartialEq, Eq, Structural)]
pub enum SegmentAddr {
    Constant(u16),
    Static(u16),
    Temp(u16),
    Pointer(u16),
    This(u16),
    That(u16),
    Local(u16),
    Arg(u16),
}

/// One stack-machine instruction.
#[derive(Clone, Debug, PartialEq, Eq)]
pub enum Inst {
    Push(SegmentAddr),
    Pop(SegmentAddr),
    Add,
    Sub,
    Neg,
    Eq,
    Gt,
    Lt,
    And,
    Or,
    Not,
    Label(String),
    Goto(String),
    IfGoto(String),
    Function(String, u16),
    Call(String, u16),
    Return,
}

/// An instruction with its names as characters.
pub enum InstView {
    Push(SegmentAddr),
    Pop(SegmentAddr),
    Add,
    Sub,
    Neg,
    Eq,
    Gt,
    Lt,
    And,
    Or,
    Not,
    Label(Seq<char>),
    Goto(Seq<char>),
    IfGoto(Seq<char>),
    Function(Seq<char>, u16),
    Call(Seq<char>, u16),
    Return,
}

impl View for Inst {
    type V = InstView;

    open spec fn view(&self) -> InstView {
        match self {
            Inst::Push(s) => InstView::Push(*s),
            Inst::Pop(s) => InstView::Pop(*s),
            Inst::Add => InstView::Add,
            Inst::Sub => InstView::Sub,
            Inst::Neg => InstView::Neg,
            Inst::Eq => InstView::Eq,
            Inst::Gt => InstView::Gt,
            Inst::Lt => InstView::Lt,
            Inst::And => InstView::And,
            Inst::Or => InstView::Or,
            Inst::Not => InstView::Not,
            Inst::Label(n) => InstView::Label(n@),
            Inst::Goto(n) => InstView::Goto(n@),
            Inst::IfGoto(n) => InstView::IfGoto(n@),
            Inst::Function(n, k) => InstView::Function(n@, *k),
            Inst::Call(n, k) => InstView::Call(n@, *k),
            Inst::Return => InstView::Return,
        }
    }
}

/// The views of an instruction list.
pub open spec fn inst_views(v: Seq<Inst>) -> Seq<InstView> {
    v.map_values(|i: Inst| i@)
}

/// The segment a keyword names.
pub open spec fn segment_of(s: Seq<char>) -> Option<Segment> {
    if s == "constant"@ {
        Some(Segment::Constant)
    } else if s == "static"@ {
        Some(Segment::Static)
    } else if s == "temp"@ {
        Some(Segment::Temp)
    } else if s == "pointer"@ {
        Some(Segment::Pointer)
    } else if s == "this"@ {
        Some(Segment::This)
    } else if s == "that"@ {
        Some(Segment::That)
    } else if s == "local"@ {
        Some(Segment::Local)
    } else if s == "argument"@ {
        Some(Segment::Arg)
    } else {
        None
    }
}

/// The segment `s` with offset `n`.
pub open spec fn segment_addr(s: Segment, n: u16) -> SegmentAddr {
    match s {
        Segment::Constant => SegmentAddr::Constant(n),
        Segment::Static => SegmentAddr::Static(n),
        Segment::Temp => SegmentAddr::Temp(n),
        Segment::Pointer => SegmentAddr::Pointer(n),
        Segment::This => SegmentAddr::This(n),
        Segment::That => SegmentAddr::That(n),
        Segment::Local => SegmentAddr::Local(n),
        Segment::Arg => SegmentAddr::Arg(n),
    }
}

/// Whether an instruction can be translated: nothing is popped into the constant segment,
/// and the pointer segment is addressed at 0 or 1 only.
pub open spec fn valid_inst(i: InstView) -> bool {
    match i {
        InstView::Push(SegmentAddr::Pointer(n)) => n <= 1,
        InstView::Pop(SegmentAddr::Pointer(n)) => n <= 1,
        InstView::Pop(SegmentAddr::Constant(_)) => false,
        _ => true,
    }
}

/// The zero-operand instruction a mnemonic names.
pub open spec fn arith_of(s: Seq<char>) -> Option<InstView> {
    if s == "add"@ {
        Some(InstView::Add)
    } else if s == "sub"@ {
        Some(InstView::Sub)
    } else if s == "neg"@ {
        Some(InstView::Neg)
    } else if s == "eq"@ {
        Some(InstView::Eq)
    } else if s == "gt"@ {
        Some(InstView::Gt)
    } else if s == "lt"@ {
        Some(InstView::Lt)
    } else if s == "and"@ {
        Some(InstView::And)
    } else if s == "or"@ {
        Some(InstView::Or)
    } else if s == "not"@ {
        Some(InstView::Not)
    } else {
        None
    }
}

/// A push or pop with words `ws` (mnemonic, segment, offset).
pub open spec fn access_spec(ws: Seq<Seq<char>>, push: bool, line: usize) -> Result<InstView, (ErrorKind, usize, Seq<char>)> {
    if ws.len() < 3 {
        Err((ErrorKind::MissingOperand, line, ws[0]))
    } else {
        let seg = segment_of(ws[1]);
        if seg is None || (!push && seg == Some(Segment::Constant)) {
            Err((ErrorKind::InvalidSegment, line, ws[1]))
        } else if parse_u16(ws[2]) is None {
            Err((ErrorKind::InvalidNumber, line, ws[2]))
        } else if seg == Some(Segment::Pointer) && parse_u16(ws[2]).unwrap() > 1 {
            Err((ErrorKind::InvalidPointer, line, ws[2]))
        } else {
            let a = segment_addr(seg.unwrap(), parse_u16(ws[2]).unwrap());
            Ok(if push { InstView::Push(a) } else { InstView::Pop(a) })
        }
    }
}

/// An instruction from its words `ws` (at least one) on line `line`.
pub open spec fn vm_line_spec(ws: Seq<Seq<char>>, line: usize) -> Result<InstView, (ErrorKind, usize, Seq<char>)> {
    let op = ws[0];
    if op == "push"@ {
        access_spec(ws, true, line)
    } else if op == "pop"@ {
        access_spec(ws, false, line)
    } else if arith_of(op) is Some {
        Ok(arith_of(op).unwrap())
    } else if op == "label"@ || op == "goto"@ || op == "if-goto"@ {
        if ws.len() < 2 {
            Err((ErrorKind::MissingOperand, line, op))
        } else if op == "label"@ {
            Ok(InstView::Label(ws[1]))
        } else if op == "goto"@ {
            Ok(InstView::Goto(ws[1]))
        } else {
            Ok(InstView::IfGoto(ws[1]))
        }
    } else if op == "function"@ || op == "call"@ {
        if ws.len() < 3 {
            Err((ErrorKind::MissingOperand, line, op))
        } else if parse_u16(ws[2]) is None {
            Err((ErrorKind::InvalidNumber, line, ws[2]))
        } else if op == "function"@ {
            Ok(InstView::Function(ws[1], parse_u16(ws[2]).unwrap()))
        } else {
            Ok(InstView::Call(ws[1], parse_u16(ws[2]).unwrap()))
        }
    } else if op == "return"@ {
        Ok(InstView::Return)
    } else {
        Err((ErrorKind::InvalidInstruction, line, op))
    }
}

/// Whether a line holds no instruction: it has no words, or it is a `//` comment.
pub open spec fn vm_skipped(row: Seq<char>) -> bool {
    let t = trim(row);
    words(row).len() == 0 || (t.len() >= 2 && t[0] == '/' && t[1] == '/')
}

/// The instructions of the first `n` lines of `ls`, or the error of the first malformed one.
pub open spec fn vm_program_spec(ls: Seq<Seq<char>>, n: nat) -> Result<Seq<InstView>, (ErrorKind, usize, Seq<char>)>
    decreases n,
{
    if n == 0 {
        Ok(seq![])
    } else {
        match vm_program_spec(ls, (n - 1) as nat) {
            Err(e) => Err(e),
            Ok(is) => {
                if vm_skipped(ls[n - 1]) {
                    Ok(is)
                } else {
                    match vm_line_spec(words(ls[n - 1]), n as usize) {
                        Ok(i) => Ok(is.push(i)),
                        Err(e) => Err(e),
                    }
                }
            }
        }
    }
}

/// The instructions of an intermediate program, or the error of its first malformed line.
pub open spec fn vm_text_spec(text: Seq<char>) -> Result<Seq<InstView>, (ErrorKind, usize, Seq<char>)> {
    vm_program_spec(lines(text), lines(text).len())
}

/// Once a line fails, every longer prefix of the program fails with the same error.
proof fn lemma_vm_error_stays(ls: Seq<Seq<char>>, n: nat, m: nat)
    requires
        n <= m,
        vm_program_spec(ls, n) is Err,
    ensures
        vm_program_spec(ls, m) == vm_program_spec(ls, n),
    decreases m - n,
{
    if n < m {
        lemma_vm_error_stays(ls, n, (m - 1) as nat);
    }
}

/// Every instruction the parser accepts can be translated.
proof fn lemma_parsed_valid(ls: Seq<Seq<char>>, n: nat)
    requires
        vm_program_spec(ls, n) is Ok,
    ensures
        forall|k: int| 0 <= k < vm_program_spec(ls, n)->Ok_0.len()
            ==> valid_inst(#[trigger] vm_program_spec(ls, n)->Ok_0[k]),
    decreases n,
{
    if n > 0 {
        lemma_parsed_valid(ls, (n - 1) as nat);
    }
}

fn segment_from(s: &Vec<char>) -> (r: Option<Segment>)
    ensures
        r == segment_of(s@),
{
    if eq_lit(s, "constant") {
        Some(Segment::Constant)
    } else if eq_lit(s, "static") {
        Some(Segment::Static)
    } else if eq_lit(s, "temp") {
        Some(Segment::Temp)
    } else if eq_lit(s, "pointer") {
        Some(Segment::Pointer)
    } else if eq_lit(s, "this") {
        Some(Segment::This)
    } else if eq_lit(s, "that") {
        Some(Segment::That)
    } else if eq_lit(s, "local") {
        Some(Segment::Local)
    } else if eq_lit(s, "argument") {
        Some(Segment::Arg)
    } else {
        None
    }
}

fn arith_from(s: &Vec<char>) -> (r: Option<Inst>)
    ensures
        match r {
            Some(i) => arith_of(s@) == Some(i@),
            None => arith_of(s@) is None,
        },
{
    if eq_lit(s, "add") {
        Some(Inst::Add)
    } else if eq_lit(s, "sub") {
        Some(Inst::Sub)
    } else if eq_lit(s, "neg") {
        Some(Inst::Neg)
    } else if eq_lit(s, "eq") {
        Some(Inst::Eq)
    } else if eq_lit(s, "gt") {
        Some(Inst::Gt)
    } else if eq_lit(s, "lt") {
        Some(Inst::Lt)
    } else if eq_lit(s, "and") {
        Some(Inst::And)
    } else if eq_lit(s, "or") {
        Some(Inst::Or)
    } else if eq_lit(s, "not") {
        Some(Inst::Not)
    } else {
        None
    }
}

fn make_addr(s: Segment, n: u16) -> (r: SegmentAddr)
    ensures
        r == segment_addr(s, n),
{
    match s {
        Segment::Constant => SegmentAddr::Constant(n),
        Segment::Static => SegmentAddr::Static(n),
        Segment::Temp => SegmentAddr::Temp(n),
        Segment::Pointer => SegmentAddr::Pointer(n),
        Segment::This => SegmentAddr::This(n),
        Segment::That => SegmentAddr::That(n),
        Segment::Local => SegmentAddr::Local(n),
        Segment::Arg => SegmentAddr::Arg(n),
    }
}

fn parse_access(ws: &Vec<Vec<char>>, push: bool, line: usize) -> (r: Result<Inst, SyntaxError>)
    requires
        ws@.len() >= 1,
    ensures
        match r {
            Ok(i) => access_spec(views(ws@), push, line) == Ok::<InstView, (ErrorKind, usize, Seq<char>)>(i@),
            Err(e) => access_spec(views(ws@), push, line) == Err::<InstView, (ErrorKind, usize, Seq<char>)>(e@),
        },
{
    if ws.len() < 3 {
        return Err(SyntaxError::new(ErrorKind::MissingOperand, line, &ws[0]));
    }
    let seg = match segment_from(&ws[1]) {
        Some(s) => s,
        None => {
            return Err(SyntaxError::new(ErrorKind::InvalidSegment, line, &ws[1]));
        },
    };
    if !push && seg == Segment::Constant {
        return Err(SyntaxError::new(ErrorKind::InvalidSegment, line, &ws[1]));
    }
    let n = match parse_u16_chars(&ws[2]) {
        Some(n) => n,
        None => {
            return Err(SyntaxError::new(ErrorKind::InvalidNumber, line, &ws[2]));
        },
    };
    if seg == Segment::Pointer && n > 1 {
        return Err(SyntaxError::new(ErrorKind::InvalidPointer, line, &ws[2]));
    }
    let a = make_addr(seg, n);
    Ok(if push { Inst::Push(a) } else { Inst::Pop(a) })
}

/// Parses the words of one intermediate-language line.
pub fn parse_vm_line(ws: &Vec<Vec<char>>, line: usize) -> (r: Result<Inst, SyntaxError>)
    requires
        ws@.len() >= 1,
    ensures
        match r {
            Ok(i) => vm_line_spec(views(ws@), line) == Ok::<InstView, (ErrorKind, usize, Seq<char>)>(i@),
            Err(e) => vm_line_spec(views(ws@), line) == Err::<InstView, (ErrorKind, usize, Seq<char>)>(e@),
        },
{
    let ghost w = views(ws@);
    assert(w[0] == ws@[0]@);
    let op = &ws[0];
    if eq_lit(op, "push") {
        return parse_access(ws, true, line);
    }
    if eq_lit(op, "pop") {
        return parse_access(ws, false, line);
    }
    if let Some(i) = arith_from(op) {
        return Ok(i);
    }
    let is_label = eq_lit(op, "label");
    let is_goto = eq_lit(op, "goto");
    let is_if_goto = eq_lit(op, "if-goto");
    if is_label || is_goto || is_if_goto {
        if ws.len() < 2 {
            return Err(SyntaxError::new(ErrorKind::MissingOperand, line, op));
        }
        assert(w[1] == ws@[1]@);
        let name = string_of(&ws[1]);
        return Ok(if is_label {
            Inst::Label(name)
        } else if is_goto {
            Inst::Goto(name)
        } else {
            Inst::IfGoto(name)
        });
    }
    let is_function = eq_lit(op, "function");
    let is_call = eq_lit(op, "call");
    if is_function || is_call {
        if ws.len() < 3 {
            return Err(SyntaxError::new(ErrorKind::MissingOperand, line, op));
        }
        assert(w[1] == ws@[1]@);
        assert(w[2] == ws@[2]@);
        let n = match parse_u16_chars(&ws[2]) {
            Some(n) => n,
            None => {
                return Err(SyntaxError::new(ErrorKind::InvalidNumber, line, &ws[2]));
            },
        };
        let name = string_of(&ws[1]);
        return Ok(if is_function { Inst::Function(name, n) } else { Inst::Call(name, n) });
    }
    if eq_lit(op, "return") {
        return Ok(Inst::Return);
    }
    Err(SyntaxError::new(ErrorKind::InvalidInstruction, line, op))
}

/// The instructions of one source file, and the file's stem, which names its static variables.
pub struct Parser {
    file: String,
    tokens: Vec<Inst>,
}

impl Parser {
    /// The stem of the source file.
    pub closed spec fn stem(&self) -> Seq<char> {
        self.file@
    }

    /// The instructions parsed so far.
    pub closed spec fn insts(&self) -> Seq<InstView> {
        inst_views(self.tokens@)
    }

    /// Every instruction can be translated.
    pub open spec fn wf(&self) -> bool {
        forall|k: int| 0 <= k < self.insts().len() ==> valid_inst(#[trigger] self.insts()[k])
    }

    /// A parser for the file with stem `file`, holding no instructions yet.
    pub fn new(file: String) -> (r: Self)
        ensures
            r.stem() == file@,
            r.insts() == Seq::<InstView>::empty(),
            r.wf(),
    {
        let r = Parser { file, tokens: Vec::new() };
        assert(r.insts() =~= Seq::<InstView>::empty());
        r
    }

    /// The stem of the source file.
    pub fn stem_str(&self) -> (r: &str)
        ensures
            r@ == self.stem(),
    {
        self.file.as_str()
    }

    /// The instructions parsed so far.
    pub fn instructions(&self) -> (r: &Vec<Inst>)
        ensures
            inst_views(r@) == self.insts(),
    {
        &self.tokens
    }

    /// Parses `text`, one instruction per line; blank lines and `//` comment lines are skipped.
    /// On success the instructions are appended; on the first malformed line its error is
    /// returned and nothing is appended.
    pub fn parse(&mut self, text: &str) -> (r: Result<(), SyntaxError>)
        requires
            old(self).wf(),
        ensures
            final(self).stem() == old(self).stem(),
            final(self).wf(),
            match r {
                Ok(()) => vm_text_spec(text@) is Ok
                    && final(self).insts() == old(self).insts() + vm_text_spec(text@)->Ok_0,
                Err(e) => vm_text_spec(text@) == Err::<Seq<InstView>, (ErrorKind, usize, Seq<char>)>(e@)
                    && final(self).insts() == old(self).insts(),
            },
    {
        let cs = chars_of(text);
        let ls = split_chars(&cs, false);
        let ghost lv = views(ls@);
        let mut found: Vec<Inst> = Vec::new();
        let mut k: usize = 0;
        assert(inst_views(found@) =~= seq![]);
        while k < ls.len()
            invariant
                k <= ls@.len(),
                lv == views(ls@),
                lv == lines(text@),
                *self == *old(self),
                old(self).wf(),
                vm_program_spec(lv, k as nat) == Ok::<Seq<InstView>, (ErrorKind, usize, Seq<char>)>(inst_views(found@)),
            decreases ls@.len() - k,
        {
            assert(ls@[k as int]@ == lv[k as int]);
            let ws = words_of(&ls[k]);
            let t = trim_chars(&ls[k]);
            let skip = ws.len() == 0 || (t.len() >= 2 && t[0] == '/' && t[1] == '/');
            if !skip {
                match parse_vm_line(&ws, k + 1) {
                    Ok(i) => {
                        let ghost before = found@;
                        found.push(i);
                        assert(inst_views(found@) =~= inst_views(before).push(i@));
                    },
                    Err(e) => {
                        proof {
                            lemma_vm_error_stays(lv, (k + 1) as nat, lv.len());
                            assert(self.insts() == old(self).insts());
                            assert(self.wf());
                        }
                        return Err(e);
                    },
                }
            }
            k = k + 1;
        }
        proof {
            lemma_parsed_valid(lv, lv.len());
        }
        let ghost before = self.tokens@;
        let ghost added = found@;
        self.tokens.append(&mut found);
        assert(self.tokens@ == before + added);
        assert(inst_views(self.tokens@) =~= inst_views(before) + inst_views(added));
        assert(self.insts() == old(self).insts() + vm_text_spec(text@)->Ok_0);
        assert forall|k: int| 0 <= k < self.insts().len() implies valid_inst(#[trigger] self.insts()[k]) by {
            if k >= old(self).insts().len() {
                let j = k - old(self).insts().len();
                assert(self.insts()[k] == (vm_text_spec(text@)->Ok_0)[j]);
            } else {
                assert(self.insts()[k] == old(self).insts()[k]);
            }
        }
        Ok(())
    }
}

} // verus!

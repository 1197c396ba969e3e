//! The assembly front end: one source line to one token, and a whole program to a token list.
use vstd::prelude::*;

use crate::error::{ErrorKind, SyntaxError};
use crate::text::{
    chars_of, copy_range, eq_lit, find_char, find_first, lines, parse_u16, parse_u16_chars, remove_spaces,
    remove_spaces_chars, split_chars, string_of, trim, trim_chars, views,
};

verus! {

/// The operand of an address instruction.
#[derive(Clone, Debug, PartialEq, Eq)]
pub enum AddressInst {
    Value(u16),
    Symbol(String),
}

/// The registers a computation stores into; `Null` stores nowhere.
#[derive(Clone, Copy, Debug, PartialEq, Eq, Structural)]
pub enum CDest {
    Null,
    M,
    D,
    MD,
    A,
    AM,
    AD,
    AMD,
}

/// The jump condition of a computation; `Null` never jumps.
#[derive(Clone, Copy, Debug, PartialEq, Eq, Structural)]
pub enum CJump {
    Null,
    JGT,
    JEQ,
    JGE,
    JLT,
    JNE,
    JLE,
    JMP,
}

/// The 28 computations of the machine's ALU.
#[derive(Clone, Copy, Debug, PartialEq, Eq, Structural)]
pub enum CComp {
    Zero,
    One,
    NegOne,
    D,
    A,
    NotD,
    NotA,
    NegD,
    NegA,
    DPlusOne,
    APlusOne,
    DMinusOne,
    AMinusOne,
    DPlusA,
    DMinusA,
    AMinusD,
    DAndA,
    DOrA,
    M,
    NotM,
    NegM,
    MPlusOne,
    MMinusOne,
    DPlusM,
    DMinusM,
    MMinusD,
    DAndM,
    DOrM,
}

/// A computation instruction: destination, computation and jump condition.
#[derive(Clone, Copy, Debug, PartialEq, Eq, Structural)]
pub struct ComputationInst {
    pub dest: CDest,
    pub comp: CComp,
    pub jump: CJump,
}

/// One parsed assembly line.
#[derive(Clone, Debug, PartialEq, Eq)]
pub enum Token {
    A(AddressInst),
    C(ComputationInst),
    Label(String),
}

/// An address operand with its name as characters.
pub enum AddressView {
    Value(u16),
    Symbol(Seq<char>),
}

/// A token with its names as characters.
pub enum TokenView {
    A(AddressView),
    C(ComputationInst),
    Label(Seq<char>),
}

impl View for AddressInst {
    type V = AddressView;

    open spec fn view(&self) -> AddressView {
        match self {
            AddressInst::Value(v) => AddressView::Value(*v),
            AddressInst::Symbol(s) => AddressView::Symbol(s@),
        }
    }
}

impl View for Token {
    type V = TokenView;

    open spec fn view(&self) -> TokenView {
        match self {
            Token::A(a) => TokenView::A(a@),
            Token::C(c) => TokenView::C(*c),
            Token::Label(s) => TokenView::Label(s@),
        }
    }
}

/// The views of a token list.
pub open spec fn token_views(ts: Seq<Token>) -> Seq<TokenView> {
    ts.map_values(|t: Token| t@)
}

pub open spec fn dest_of(s: Seq<char>) -> Option<CDest> {
    if s == "M"@ {
        Some(CDest::M)
    } else if s == "D"@ {
        Some(CDest::D)
    } else if s == "MD"@ {
        Some(CDest::MD)
    } else if s == "A"@ {
        Some(CDest::A)
    } else if s == "AM"@ {
        Some(CDest::AM)
    } else if s == "AD"@ {
        Some(CDest::AD)
    } else if s == "AMD"@ {
        Some(CDest::AMD)
    } else {
        None
    }
}

pub open spec fn jump_of(s: Seq<char>) -> Option<CJump> {
    if s == "JGT"@ {
        Some(CJump::JGT)
    } else if s == "JEQ"@ {
        Some(CJump::JEQ)
    } else if s == "JGE"@ {
        Some(CJump::JGE)
    } else if s == "JLT"@ {
        Some(CJump::JLT)
    } else if s == "JNE"@ {
        Some(CJump::JNE)
    } else if s == "JLE"@ {
        Some(CJump::JLE)
    } else if s == "JMP"@ {
        Some(CJump::JMP)
    } else {
        None
    }
}

pub open spec fn comp_of(s: Seq<char>) -> Option<CComp> {
    if s == "0"@ {
        Some(CComp::Zero)
    } else if s == "1"@ {
        Some(CComp::One)
    } else if s == "-1"@ {
        Some(CComp::NegOne)
    } else if s == "D"@ {
        Some(CComp::D)
    } else if s == "A"@ {
        Some(CComp::A)
    } else if s == "!D"@ {
        Some(CComp::NotD)
    } else if s == "!A"@ {
        Some(CComp::NotA)
    } else if s == "-D"@ {
        Some(CComp::NegD)
    } else if s == "-A"@ {
        Some(CComp::NegA)
    } else if s == "D+1"@ {
        Some(CComp::DPlusOne)
    } else if s == "A+1"@ {
        Some(CComp::APlusOne)
    } else if s == "D-1"@ {
        Some(CComp::DMinusOne)
    } else if s == "A-1"@ {
        Some(CComp::AMinusOne)
    } else if s == "D+A"@ {
        Some(CComp::DPlusA)
    } else if s == "D-A"@ {
        Some(CComp::DMinusA)
    } else if s == "A-D"@ {
        Some(CComp::AMinusD)
    } else if s == "D&A"@ {
        Some(CComp::DAndA)
    } else if s == "D|A"@ {
        Some(CComp::DOrA)
    } else if s == "M"@ {
        Some(CComp::M)
    } else if s == "!M"@ {
        Some(CComp::NotM)
    } else if s == "-M"@ {
        Some(CComp::NegM)
    } else if s == "M+1"@ {
        Some(CComp::MPlusOne)
    } else if s == "M-1"@ {
        Some(CComp::MMinusOne)
    } else if s == "D+M"@ {
        Some(CComp::DPlusM)
    } else if s == "D-M"@ {
        Some(CComp::DMinusM)
    } else if s == "M-D"@ {
        Some(CComp::MMinusD)
    } else if s == "D&M"@ {
        Some(CComp::DAndM)
    } else if s == "D|M"@ {
        Some(CComp::DOrM)
    } else {
        None
    }
}

/// A label line `(name)`.
pub open spec fn label_spec(row: Seq<char>, line: usize) -> Result<TokenView, (ErrorKind, usize, Seq<char>)> {
    if row.len() >= 2 && row[0] == '(' && row.last() == ')' {
        Ok(TokenView::Label(row.subrange(1, row.len() - 1)))
    } else {
        Err((ErrorKind::InvalidLabel, line, row))
    }
}

/// An address line `@x`: a literal when `x` reads as an unsigned 16-bit number, else a symbol.
pub open spec fn address_spec(row: Seq<char>) -> TokenView {
    let a = row.drop_first();
    match parse_u16(a) {
        Some(n) => TokenView::A(AddressView::Value(n)),
        None => TokenView::A(AddressView::Symbol(a)),
    }
}

/// The part of a computation line after its destination (all of it when there is no `=`).
pub open spec fn after_dest(row: Seq<char>) -> Seq<char> {
    let e = find_char(row, '=', 0);
    if e >= 0 {
        row.subrange(e + 1, row.len() as int)
    } else {
        row
    }
}

/// The part of `rest` before its jump condition (all of it when there is no `;`).
pub open spec fn before_jump(rest: Seq<char>) -> Seq<char> {
    let j = find_char(rest, ';', 0);
    if j >= 0 {
        rest.subrange(0, j)
    } else {
        rest
    }
}

/// A computation line `dest=comp;jump`, where `dest=` and `;jump` may be absent.
pub open spec fn computation_spec(row: Seq<char>, line: usize) -> Result<TokenView, (ErrorKind, usize, Seq<char>)> {
    let e = find_char(row, '=', 0);
    let dest_text = row.subrange(0, e);
    let dest = if e >= 0 { dest_of(trim(dest_text)) } else { Some(CDest::Null) };
    let rest = after_dest(row);
    let j = find_char(rest, ';', 0);
    let jump_text = rest.subrange(j + 1, rest.len() as int);
    let jump = if j >= 0 { jump_of(trim(jump_text)) } else { Some(CJump::Null) };
    let comp_text = remove_spaces(before_jump(rest));
    if dest is None {
        Err((ErrorKind::InvalidDestination, line, dest_text))
    } else if jump is None {
        Err((ErrorKind::InvalidJump, line, jump_text))
    } else if comp_of(comp_text) is None {
        Err((ErrorKind::InvalidComputation, line, comp_text))
    } else {
        Ok(TokenView::C(ComputationInst {
            dest: dest.unwrap(),
            comp: comp_of(comp_text).unwrap(),
            jump: jump.unwrap(),
        }))
    }
}

/// A trimmed, non-empty line: `@` starts an address, `(` a label, anything else a computation.
pub open spec fn line_spec(row: Seq<char>, line: usize) -> Result<TokenView, (ErrorKind, usize, Seq<char>)> {
    if row[0] == '@' {
        Ok(address_spec(row))
    } else if row[0] == '(' {
        label_spec(row, line)
    } else {
        computation_spec(row, line)
    }
}

/// Whether a trimmed line holds no instruction: it is blank or a `//` comment.
pub open spec fn is_skipped(row: Seq<char>) -> bool {
    row.len() == 0 || (row.len() >= 2 && row[0] == '/' && row[1] == '/')
}

/// The tokens of the first `n` lines of `ls`, or the error of the first malformed one.
pub open spec fn program_spec(ls: Seq<Seq<char>>, n: nat) -> Result<Seq<TokenView>, (ErrorKind, usize, Seq<char>)>
    decreases n,
{
    if n == 0 {
        Ok(seq![])
    } else {
        match program_spec(ls, (n - 1) as nat) {
            Err(e) => Err(e),
            Ok(ts) => {
                let row = trim(ls[n - 1]);
                if is_skipped(row) {
                    Ok(ts)
                } else {
                    match line_spec(row, n as usize) {
                        Ok(t) => Ok(ts.push(t)),
                        Err(e) => Err(e),
                    }
                }
            }
        }
    }
}

/// The tokens of an assembly program, or the error of its first malformed line.
pub open spec fn assembly_spec(text: Seq<char>) -> Result<Seq<TokenView>, (ErrorKind, usize, Seq<char>)> {
    program_spec(lines(text), lines(text).len())
}

fn dest_from(s: &Vec<char>) -> (r: Option<CDest>)
    ensures
        r == dest_of(s@),
{
    if eq_lit(s, "M") {
        Some(CDest::M)
    } else if eq_lit(s, "D") {
        Some(CDest::D)
    } else if eq_lit(s, "MD") {
        Some(CDest::MD)
    } else if eq_lit(s, "A") {
        Some(CDest::A)
    } else if eq_lit(s, "AM") {
        Some(CDest::AM)
    } else if eq_lit(s, "AD") {
        Some(CDest::AD)
    } else if eq_lit(s, "AMD") {
        Some(CDest::AMD)
    } else {
        None
    }
}

fn jump_from(s: &Vec<char>) -> (r: Option<CJump>)
    ensures
        r == jump_of(s@),
{
    if eq_lit(s, "JGT") {
        Some(CJump::JGT)
    } else if eq_lit(s, "JEQ") {
        Some(CJump::JEQ)
    } else if eq_lit(s, "JGE") {
        Some(CJump::JGE)
    } else if eq_lit(s, "JLT") {
        Some(CJump::JLT)
    } else if eq_lit(s, "JNE") {
        Some(CJump::JNE)
    } else if eq_lit(s, "JLE") {
        Some(CJump::JLE)
    } else if eq_lit(s, "JMP") {
        Some(CJump::JMP)
    } else {
        None
    }
}

fn comp_from(s: &Vec<char>) -> (r: Option<CComp>)
    ensures
        r == comp_of(s@),
{
    if eq_lit(s, "0") {
        Some(CComp::Zero)
    } else if eq_lit(s, "1") {
        Some(CComp::One)
    } else if eq_lit(s, "-1") {
        Some(CComp::NegOne)
    } else if eq_lit(s, "D") {
        Some(CComp::D)
    } else if eq_lit(s, "A") {
        Some(CComp::A)
    } else if eq_lit(s, "!D") {
        Some(CComp::NotD)
    } else if eq_lit(s, "!A") {
        Some(CComp::NotA)
    } else if eq_lit(s, "-D") {
        Some(CComp::NegD)
    } else if eq_lit(s, "-A") {
        Some(CComp::NegA)
    } else if eq_lit(s, "D+1") {
        Some(CComp::DPlusOne)
    } else if eq_lit(s, "A+1") {
        Some(CComp::APlusOne)
    } else if eq_lit(s, "D-1") {
        Some(CComp::DMinusOne)
    } else if eq_lit(s, "A-1") {
        Some(CComp::AMinusOne)
    } else if eq_lit(s, "D+A") {
        Some(CComp::DPlusA)
    } else if eq_lit(s, "D-A") {
        Some(CComp::DMinusA)
    } else if eq_lit(s, "A-D") {
        Some(CComp::AMinusD)
    } else if eq_lit(s, "D&A") {
        Some(CComp::DAndA)
    } else if eq_lit(s, "D|A") {
        Some(CComp::DOrA)
    } else if eq_lit(s, "M") {
        Some(CComp::M)
    } else if eq_lit(s, "!M") {
        Some(CComp::NotM)
    } else if eq_lit(s, "-M") {
        Some(CComp::NegM)
    } else if eq_lit(s, "M+1") {
        Some(CComp::MPlusOne)
    } else if eq_lit(s, "M-1") {
        Some(CComp::MMinusOne)
    } else if eq_lit(s, "D+M") {
        Some(CComp::DPlusM)
    } else if eq_lit(s, "D-M") {
        Some(CComp::DMinusM)
    } else if eq_lit(s, "M-D") {
        Some(CComp::MMinusD)
    } else if eq_lit(s, "D&M") {
        Some(CComp::DAndM)
    } else if eq_lit(s, "D|M") {
        Some(CComp::DOrM)
    } else {
        None
    }
}

/// Once a line fails, every longer prefix of the program fails with the same error.
proof fn lemma_program_error_stays(ls: Seq<Seq<char>>, n: nat, m: nat)
    requires
        n <= m,
        program_spec(ls, n) is Err,
    ensures
        program_spec(ls, m) == program_spec(ls, n),
    decreases m - n,
{
    if n < m {
        lemma_program_error_stays(ls, n, (m - 1) as nat);
    }
}

/// Parses a label line `(name)`.
pub fn parse_label(row: &Vec<char>, line: usize) -> (r: Result<Token, SyntaxError>)
    ensures
        match r {
            Ok(t) => label_spec(row@, line) == Ok::<TokenView, (ErrorKind, usize, Seq<char>)>(t@),
            Err(e) => label_spec(row@, line) == Err::<TokenView, (ErrorKind, usize, Seq<char>)>(e@),
        },
{
    let n = row.len();
    if n >= 2 && row[0] == '(' && row[n - 1] == ')' {
        let name = copy_range(row, 1, n - 1);
        Ok(Token::Label(string_of(&name)))
    } else {
        Err(SyntaxError::new(ErrorKind::InvalidLabel, line, row))
    }
}

/// Parses an address line `@x`.
pub fn parse_address_inst(row: &Vec<char>) -> (r: Token)
    requires
        row@.len() >= 1,
    ensures
        r@ == address_spec(row@),
{
    let a = copy_range(row, 1, row.len());
    assert(a@ =~= row@.drop_first());
    match parse_u16_chars(&a) {
        Some(n) => Token::A(AddressInst::Value(n)),
        None => Token::A(AddressInst::Symbol(string_of(&a))),
    }
}

/// Parses a computation line `dest=comp;jump`.
pub fn parse_computation_inst(row: &Vec<char>, line: usize) -> (r: Result<Token, SyntaxError>)
    ensures
        match r {
            Ok(t) => computation_spec(row@, line) == Ok::<TokenView, (ErrorKind, usize, Seq<char>)>(t@),
            Err(e) => computation_spec(row@, line) == Err::<TokenView, (ErrorKind, usize, Seq<char>)>(e@),
        },
{
    let (dest, rest) = match find_first(row, '=') {
        Some(e) => {
            let dest_text = copy_range(row, 0, e);
            match dest_from(&trim_chars(&dest_text)) {
                Some(d) => {
                    let n = row.len();
                    assert(e < n);
                    (d, copy_range(row, e + 1, n))
                },
                None => {
                    return Err(SyntaxError::new(ErrorKind::InvalidDestination, line, &dest_text));
                },
            }
        },
        None => (CDest::Null, copy_range(row, 0, row.len())),
    };
    assert(rest@ =~= after_dest(row@));
    let (jump, body) = match find_first(&rest, ';') {
        Some(j) => {
            assert(j < rest@.len());
            let jump_text = copy_range(&rest, j + 1, rest.len());
            match jump_from(&trim_chars(&jump_text)) {
                Some(jp) => {
                    assert(j < rest@.len());
                    (jp, copy_range(&rest, 0, j))
                },
                None => {
                    return Err(SyntaxError::new(ErrorKind::InvalidJump, line, &jump_text));
                },
            }
        },
        None => (CJump::Null, copy_range(&rest, 0, rest.len())),
    };
    assert(body@ =~= before_jump(rest@));
    let comp_text = remove_spaces_chars(&body);
    match comp_from(&comp_text) {
        Some(comp) => Ok(Token::C(ComputationInst { dest, comp, jump })),
        None => Err(SyntaxError::new(ErrorKind::InvalidComputation, line, &comp_text)),
    }
}

/// Parses one trimmed, non-empty assembly line.
pub fn parse_line(row: &Vec<char>, line: usize) -> (r: Result<Token, SyntaxError>)
    requires
        row@.len() >= 1,
    ensures
        match r {
            Ok(t) => line_spec(row@, line) == Ok::<TokenView, (ErrorKind, usize, Seq<char>)>(t@),
            Err(e) => line_spec(row@, line) == Err::<TokenView, (ErrorKind, usize, Seq<char>)>(e@),
        },
{
    if row[0] == '@' {
        Ok(parse_address_inst(row))
    } else if row[0] == '(' {
        parse_label(row, line)
    } else {
        parse_computation_inst(row, line)
    }
}

/// Parses a whole assembly program. Blank lines and `//` comment lines are skipped; the
/// first malformed line ends parsing with its error.
pub fn parse_assembly(text: &str) -> (r: Result<Vec<Token>, SyntaxError>)
    ensures
        match r {
            Ok(ts) => assembly_spec(text@) == Ok::<Seq<TokenView>, (ErrorKind, usize, Seq<char>)>(token_views(ts@)),
            Err(e) => assembly_spec(text@) == Err::<Seq<TokenView>, (ErrorKind, usize, Seq<char>)>(e@),
        },
{
    let cs = chars_of(text);
    let ls = split_chars(&cs, false);
    let ghost lv = views(ls@);
    let mut tokens: Vec<Token> = Vec::new();
    let mut k: usize = 0;
    assert(token_views(tokens@) =~= seq![]);
    while k < ls.len()
        invariant
            k <= ls@.len(),
            lv == views(ls@),
            lv == lines(text@),
            program_spec(lv, k as nat) == Ok::<Seq<TokenView>, (ErrorKind, usize, Seq<char>)>(token_views(tokens@)),
        decreases ls@.len() - k,
    {
        let row = trim_chars(&ls[k]);
        assert(row@ == trim(lv[k as int]));
        let skip = row.len() == 0 || (row.len() >= 2 && row[0] == '/' && row[1] == '/');
        if !skip {
            match parse_line(&row, k + 1) {
                Ok(t) => {
                    let ghost before = tokens@;
                    tokens.push(t);
                    assert(token_views(tokens@) =~= token_views(before).push(t@));
                },
                Err(e) => {
                    proof {
                        lemma_program_error_stays(lv, (k + 1) as nat, lv.len());
                    }
                    return Err(e);
                },
            }
        }
        k = k + 1;
    }
    Ok(tokens)
}

} // verus!

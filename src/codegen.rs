//! Code generation: each stack-machine instruction expands into a fixed block of assembly
//! text whose parameters (names, offsets, unique numbers) the generator computes.
use vstd::prelude::*;

use crate::text::{decimal, digit_char, push_decimal, push_str, string_of};
use crate::vm::{inst_views, Inst, InstView, Parser, SegmentAddr};

verus! {

/// The return label of the call numbered `id`.
pub open spec fn return_label(id: nat) -> Seq<char> {
    "RET."@ + decimal(id)
}

/// The label a comparison numbered `id` jumps to when its condition holds.
pub open spec fn true_label(id: nat) -> Seq<char> {
    "CMP_TRUE."@ + decimal(id)
}

/// The label where a comparison numbered `id` continues.
pub open spec fn end_label(id: nat) -> Seq<char> {
    "CMP_END."@ + decimal(id)
}

/// How far below the stack pointer a call's arguments begin: the `n` arguments, the return
/// address and the four saved pointers.
pub open spec fn frame_offset(n: u16) -> nat {
    5 + n as nat
}

/// The distance from the stack pointer to the first argument of a call with `n` arguments.
pub fn frame_offset_exec(n: u16) -> (r: u64)
    ensures
        r == frame_offset(n),
{
    5 + n as u64
}

/// Pushes the constant `n`.
pub open spec fn push_constant_text(n: u16) -> Seq<char> {
    "@"@
        + decimal(n as nat)
        + "\nD=A\n@SP\nA=M\nM=D\n@SP\nM=M+1\n"@
}

/// Pushes static variable `n` of the file with stem `stem`.
pub open spec fn push_static_text(stem: Seq<char>, n: u16) -> Seq<char> {
    "@"@
        + stem
        + "."@
        + decimal(n as nat)
        + "\nD=M\n@SP\nA=M\nM=D\n@SP\nM=M+1\n"@
}

/// Pushes temp cell `n` (from R5 on).
pub open spec fn push_temp_text(n: u16) -> Seq<char> {
    "@R5\nD=A\n@"@
        + decimal(n as nat)
        + "\nA=D+A\nD=M\n@SP\nA=M\nM=D\n@SP\nM=M+1\n"@
}

/// Pushes the base register `reg`.
pub open spec fn push_pointer_text(reg: Seq<char>) -> Seq<char> {
    "@"@
        + reg
        + "\nD=M\n@SP\nA=M\nM=D\n@SP\nM=M+1\n"@
}

/// Pushes cell `n` of the segment based at register `reg`.
pub open spec fn push_based_text(reg: Seq<char>, n: u16) -> Seq<char> {
    "@"@
        + reg
        + "\nD=M\n@"@
        + decimal(n as nat)
        + "\nA=D+A\nD=M\n@SP\nA=M\nM=D\n@SP\nM=M+1\n"@
}

/// Pops into static variable `n` of the file with stem `stem`.
pub open spec fn pop_static_text(stem: Seq<char>, n: u16) -> Seq<char> {
    "@SP\nAM=M-1\nD=M\n@"@
        + stem
        + "."@
        + decimal(n as nat)
        + "\nM=D\n"@
}

/// Pops into temp cell `n`.
pub open spec fn pop_temp_text(n: u16) -> Seq<char> {
    "@R5\nD=A\n@"@
        + decimal(n as nat)
        + "\nD=D+A\n@R13\nM=D\n@SP\nAM=M-1\nD=M\n@R13\nA=M\nM=D\n"@
}

/// Pops into the base register `reg`.
pub open spec fn pop_pointer_text(reg: Seq<char>) -> Seq<char> {
    "@SP\nAM=M-1\nD=M\n@"@
        + reg
        + "\nM=D\n"@
}

/// Pops into cell `n` of the segment based at register `reg`.
pub open spec fn pop_based_text(reg: Seq<char>, n: u16) -> Seq<char> {
    "@"@
        + reg
        + "\nD=M\n@"@
        + decimal(n as nat)
        + "\nD=D+A\n@R13\nM=D\n@SP\nAM=M-1\nD=M\n@R13\nA=M\nM=D\n"@
}

/// Compares the top two cells, leaving true (-1) when the condition `jump` holds of their difference, with branch labels numbered `id`.
pub open spec fn compare_text(jump: Seq<char>, id: nat) -> Seq<char> {
    "@SP\nAM=M-1\nD=M\nA=A-1\nD=M-D\n@"@
        + true_label(id)
        + "\nD;"@
        + jump
        + "\n@SP\nA=M-1\nM=0\n@"@
        + end_label(id)
        + "\n0;JMP\n("@
        + true_label(id)
        + ")\n@SP\nA=M-1\nM=-1\n("@
        + end_label(id)
        + ")\n"@
}

/// Marks the label `name`.
pub open spec fn label_text(name: Seq<char>) -> Seq<char> {
    "("@
        + name
        + ")\n"@
}

/// Jumps to `name`.
pub open spec fn goto_text(name: Seq<char>) -> Seq<char> {
    "@"@
        + name
        + "\n0;JMP\n"@
}

/// Pops the top cell and jumps to `name` when it is not zero.
pub open spec fn if_goto_text(name: Seq<char>) -> Seq<char> {
    "@SP\nAM=M-1\nD=M\n@"@
        + name
        + "\nD;JNE\n"@
}

/// Enters function `f`, pushing `k` zeroed locals.
pub open spec fn function_text(f: Seq<char>, k: u16) -> Seq<char> {
    "("@
        + f
        + ")\n@"@
        + decimal(k as nat)
        + "\nD=A\n@R13\nM=D\n("@
        + f
        + "$locals)\n@R13\nD=M\n@"@
        + f
        + "$locals.end\nD;JEQ\n@SP\nA=M\nM=0\n@SP\nM=M+1\n@R13\nM=M-1\n@"@
        + f
        + "$locals\n0;JMP\n("@
        + f
        + "$locals.end)\n"@
}

/// Calls `f` with `n` arguments, resuming at the return label numbered `id`.
pub open spec fn call_text(f: Seq<char>, n: u16, id: nat) -> Seq<char> {
    "@"@
        + return_label(id)
        + "\nD=A\n@SP\nA=M\nM=D\n@SP\nM=M+1\n@LCL\nD=M\n@SP\nA=M\nM=D\n@SP\nM=M+1\n@ARG\nD=M\n@SP\nA=M\nM=D\n@SP\nM=M+1\n@THIS\nD=M\n@SP\nA=M\nM=D\n@SP\nM=M+1\n@THAT\nD=M\n@SP\nA=M\nM=D\n@SP\nM=M+1\n@SP\nD=M\n@"@
        + decimal(frame_offset(n))
        + "\nD=D-A\n@ARG\nM=D\n@SP\nD=M\n@LCL\nM=D\n@"@
        + f
        + "\n0;JMP\n("@
        + return_label(id)
        + ")\n"@
}

/// Replaces the top two cells by their sum.
pub open spec fn add_text() -> Seq<char> {
    "@SP\nAM=M-1\nD=M\nA=A-1\nM=D+M\n"@
}

/// Replaces the top two cells by their difference.
pub open spec fn sub_text() -> Seq<char> {
    "@SP\nAM=M-1\nD=M\nA=A-1\nM=M-D\n"@
}

/// Replaces the top two cells by their bitwise and.
pub open spec fn and_text() -> Seq<char> {
    "@SP\nAM=M-1\nD=M\nA=A-1\nM=D&M\n"@
}

/// Replaces the top two cells by their bitwise or.
pub open spec fn or_text() -> Seq<char> {
    "@SP\nAM=M-1\nD=M\nA=A-1\nM=D|M\n"@
}

/// Negates the top cell.
pub open spec fn neg_text() -> Seq<char> {
    "@SP\nA=M-1\nM=-M\n"@
}

/// Complements the top cell bitwise.
pub open spec fn not_text() -> Seq<char> {
    "@SP\nA=M-1\nM=!M\n"@
}

/// Returns: the return value goes where the arguments began, the stack pointer just above it, the caller's four pointers are restored in reverse order of saving, and control jumps to the saved return address.
pub open spec fn return_text() -> Seq<char> {
    "@LCL\nD=M\n@R13\nM=D\n@5\nA=D-A\nD=M\n@R14\nM=D\n@SP\nAM=M-1\nD=M\n@ARG\nA=M\nM=D\n@ARG\nD=M+1\n@SP\nM=D\n@R13\nAM=M-1\nD=M\n@THAT\nM=D\n@R13\nAM=M-1\nD=M\n@THIS\nM=D\n@R13\nAM=M-1\nD=M\n@ARG\nM=D\n@R13\nAM=M-1\nD=M\n@LCL\nM=D\n@R14\nA=M\n0;JMP\n"@
}

/// Points the stack pointer at the stack base, 256.
pub open spec fn bootstrap_head_text() -> Seq<char> {
    "@256\nD=A\n@SP\nM=D\n"@
}

/// The register that holds the base of a pointer-indirect segment.
pub open spec fn base_reg(a: SegmentAddr) -> Seq<char> {
    match a {
        SegmentAddr::Local(_) => "LCL"@,
        SegmentAddr::Arg(_) => "ARG"@,
        SegmentAddr::This(_) => "THIS"@,
        _ => "THAT"@,
    }
}

/// The register that pointer cell `n` (0 or 1) stands for.
pub open spec fn pointer_reg(n: u16) -> Seq<char> {
    if n == 0 {
        "THIS"@
    } else {
        "THAT"@
    }
}

/// The assembly for instruction `i` of the file with stem `stem`, at position `pos` of the
/// whole program, where a call is numbered `call_id`.
pub open spec fn inst_text(i: InstView, stem: Seq<char>, pos: nat, call_id: nat) -> Seq<char> {
    match i {
        InstView::Push(a) => match a {
            SegmentAddr::Constant(n) => push_constant_text(n),
            SegmentAddr::Static(n) => push_static_text(stem, n),
            SegmentAddr::Temp(n) => push_temp_text(n),
            SegmentAddr::Pointer(n) => push_pointer_text(pointer_reg(n)),
            SegmentAddr::Local(n) => push_based_text(base_reg(a), n),
            SegmentAddr::Arg(n) => push_based_text(base_reg(a), n),
            SegmentAddr::This(n) => push_based_text(base_reg(a), n),
            SegmentAddr::That(n) => push_based_text(base_reg(a), n),
        },
        InstView::Pop(a) => match a {
            SegmentAddr::Constant(_) => seq![],
            SegmentAddr::Static(n) => pop_static_text(stem, n),
            SegmentAddr::Temp(n) => pop_temp_text(n),
            SegmentAddr::Pointer(n) => pop_pointer_text(pointer_reg(n)),
            SegmentAddr::Local(n) => pop_based_text(base_reg(a), n),
            SegmentAddr::Arg(n) => pop_based_text(base_reg(a), n),
            SegmentAddr::This(n) => pop_based_text(base_reg(a), n),
            SegmentAddr::That(n) => pop_based_text(base_reg(a), n),
        },
        InstView::Add => add_text(),
        InstView::Sub => sub_text(),
        InstView::Neg => neg_text(),
        InstView::Eq => compare_text("JEQ"@, pos),
        InstView::Gt => compare_text("JGT"@, pos),
        InstView::Lt => compare_text("JLT"@, pos),
        InstView::And => and_text(),
        InstView::Or => or_text(),
        InstView::Not => not_text(),
        InstView::Label(name) => label_text(name),
        InstView::Goto(name) => goto_text(name),
        InstView::IfGoto(name) => if_goto_text(name),
        InstView::Function(f, k) => function_text(f, k),
        InstView::Call(f, n) => call_text(f, n, call_id),
        InstView::Return => return_text(),
    }
}

/// Where generation stands: the text so far, the position of the next instruction, the
/// number of the last call, the return labels made so far, and the positions of the
/// comparisons seen so far.
pub struct GenState {
    pub text: Seq<char>,
    pub pos: nat,
    pub calls: nat,
    pub ret_labels: Seq<Seq<char>>,
    pub cmp_sites: Seq<nat>,
}

pub open spec fn is_compare(i: InstView) -> bool {
    i is Eq || i is Gt || i is Lt
}

/// Generation after one more instruction `i` of the file with stem `stem`.
pub open spec fn step(stem: Seq<char>, i: InstView, s: GenState) -> GenState {
    let calls = if i is Call { s.calls + 1 } else { s.calls };
    GenState {
        text: s.text + inst_text(i, stem, s.pos, calls),
        pos: s.pos + 1,
        calls,
        ret_labels: if i is Call { s.ret_labels.push(return_label(calls)) } else { s.ret_labels },
        cmp_sites: if is_compare(i) { s.cmp_sites.push(s.pos) } else { s.cmp_sites },
    }
}

/// Generation after the first `n` instructions of one file.
pub open spec fn gen_insts(stem: Seq<char>, is: Seq<InstView>, n: nat, s: GenState) -> GenState
    decreases n,
{
    if n == 0 {
        s
    } else {
        step(stem, is[n - 1], gen_insts(stem, is, (n - 1) as nat, s))
    }
}

/// The bootstrap: the stack pointer set to the stack base, then a call of `Sys.init` with no
/// arguments, numbered 0.
pub open spec fn bootstrap_text() -> Seq<char> {
    bootstrap_head_text() + call_text("Sys.init"@, 0, 0)
}

/// Generation before any instruction: the bootstrap only.
pub open spec fn initial() -> GenState {
    GenState {
        text: bootstrap_text(),
        pos: 0,
        calls: 0,
        ret_labels: seq![return_label(0)],
        cmp_sites: seq![],
    }
}

/// Generation after the first `m` files of `units` (stem and instructions of each).
pub open spec fn gen_units(units: Seq<(Seq<char>, Seq<InstView>)>, m: nat) -> GenState
    decreases m,
{
    if m == 0 {
        initial()
    } else {
        let s = gen_units(units, (m - 1) as nat);
        gen_insts(units[m - 1].0, units[m - 1].1, units[m - 1].1.len(), s)
    }
}

/// The whole generation over `units`.
pub open spec fn generation(units: Seq<(Seq<char>, Seq<InstView>)>) -> GenState {
    gen_units(units, units.len())
}

/// The number of instructions in the first `m` files.
pub open spec fn total_insts(units: Seq<(Seq<char>, Seq<InstView>)>, m: nat) -> nat
    decreases m,
{
    if m == 0 {
        0
    } else {
        total_insts(units, (m - 1) as nat) + units[m - 1].1.len()
    }
}

/// The stem and instructions of each parser.
pub open spec fn unit_views(ps: Seq<Parser>) -> Seq<(Seq<char>, Seq<InstView>)> {
    ps.map_values(|p: Parser| (p.stem(), p.insts()))
}

fn emit_push_constant(out: &mut Vec<char>, n: u16)
    ensures
        final(out)@ == old(out)@ + push_constant_text(n),
{
    let ghost start = out@;
    push_str(out, "@");
    push_decimal(out, n as u64);
    push_str(out, "\nD=A\n@SP\nA=M\nM=D\n@SP\nM=M+1\n");
    assert(out@ =~= start + push_constant_text(n));
}

fn emit_push_static(out: &mut Vec<char>, stem: &str, n: u16)
    ensures
        final(out)@ == old(out)@ + push_static_text(stem@, n),
{
    let ghost start = out@;
    push_str(out, "@");
    push_str(out, stem);
    push_str(out, ".");
    push_decimal(out, n as u64);
    push_str(out, "\nD=M\n@SP\nA=M\nM=D\n@SP\nM=M+1\n");
    assert(out@ =~= start + push_static_text(stem@, n));
}

fn emit_push_temp(out: &mut Vec<char>, n: u16)
    ensures
        final(out)@ == old(out)@ + push_temp_text(n),
{
    let ghost start = out@;
    push_str(out, "@R5\nD=A\n@");
    push_decimal(out, n as u64);
    push_str(out, "\nA=D+A\nD=M\n@SP\nA=M\nM=D\n@SP\nM=M+1\n");
    assert(out@ =~= start + push_temp_text(n));
}

fn emit_push_pointer(out: &mut Vec<char>, reg: &str)
    ensures
        final(out)@ == old(out)@ + push_pointer_text(reg@),
{
    let ghost start = out@;
    push_str(out, "@");
    push_str(out, reg);
    push_str(out, "\nD=M\n@SP\nA=M\nM=D\n@SP\nM=M+1\n");
    assert(out@ =~= start + push_pointer_text(reg@));
}

fn emit_push_based(out: &mut Vec<char>, reg: &str, n: u16)
    ensures
        final(out)@ == old(out)@ + push_based_text(reg@, n),
{
    let ghost start = out@;
    push_str(out, "@");
    push_str(out, reg);
    push_str(out, "\nD=M\n@");
    push_decimal(out, n as u64);
    push_str(out, "\nA=D+A\nD=M\n@SP\nA=M\nM=D\n@SP\nM=M+1\n");
    assert(out@ =~= start + push_based_text(reg@, n));
}

fn emit_pop_static(out: &mut Vec<char>, stem: &str, n: u16)
    ensures
        final(out)@ == old(out)@ + pop_static_text(stem@, n),
{
    let ghost start = out@;
    push_str(out, "@SP\nAM=M-1\nD=M\n@");
    push_str(out, stem);
    push_str(out, ".");
    push_decimal(out, n as u64);
    push_str(out, "\nM=D\n");
    assert(out@ =~= start + pop_static_text(stem@, n));
}

fn emit_pop_temp(out: &mut Vec<char>, n: u16)
    ensures
        final(out)@ == old(out)@ + pop_temp_text(n),
{
    let ghost start = out@;
    push_str(out, "@R5\nD=A\n@");
    push_decimal(out, n as u64);
    push_str(out, "\nD=D+A\n@R13\nM=D\n@SP\nAM=M-1\nD=M\n@R13\nA=M\nM=D\n");
    assert(out@ =~= start + pop_temp_text(n));
}

fn emit_pop_pointer(out: &mut Vec<char>, reg: &str)
    ensures
        final(out)@ == old(out)@ + pop_pointer_text(reg@),
{
    let ghost start = out@;
    push_str(out, "@SP\nAM=M-1\nD=M\n@");
    push_str(out, reg);
    push_str(out, "\nM=D\n");
    assert(out@ =~= start + pop_pointer_text(reg@));
}

fn emit_pop_based(out: &mut Vec<char>, reg: &str, n: u16)
    ensures
        final(out)@ == old(out)@ + pop_based_text(reg@, n),
{
    let ghost start = out@;
    push_str(out, "@");
    push_str(out, reg);
    push_str(out, "\nD=M\n@");
    push_decimal(out, n as u64);
    push_str(out, "\nD=D+A\n@R13\nM=D\n@SP\nAM=M-1\nD=M\n@R13\nA=M\nM=D\n");
    assert(out@ =~= start + pop_based_text(reg@, n));
}

fn emit_compare(out: &mut Vec<char>, jump: &str, id: u64)
    ensures
        final(out)@ == old(out)@ + compare_text(jump@, id as nat),
{
    let ghost start = out@;
    push_str(out, "@SP\nAM=M-1\nD=M\nA=A-1\nD=M-D\n@");
    push_str(out, "CMP_TRUE.");
    push_decimal(out, id);
    push_str(out, "\nD;");
    push_str(out, jump);
    push_str(out, "\n@SP\nA=M-1\nM=0\n@");
    push_str(out, "CMP_END.");
    push_decimal(out, id);
    push_str(out, "\n0;JMP\n(");
    push_str(out, "CMP_TRUE.");
    push_decimal(out, id);
    push_str(out, ")\n@SP\nA=M-1\nM=-1\n(");
    push_str(out, "CMP_END.");
    push_decimal(out, id);
    push_str(out, ")\n");
    assert(out@ =~= start + compare_text(jump@, id as nat));
}

fn emit_label(out: &mut Vec<char>, name: &str)
    ensures
        final(out)@ == old(out)@ + label_text(name@),
{
    let ghost start = out@;
    push_str(out, "(");
    push_str(out, name);
    push_str(out, ")\n");
    assert(out@ =~= start + label_text(name@));
}

fn emit_goto(out: &mut Vec<char>, name: &str)
    ensures
        final(out)@ == old(out)@ + goto_text(name@),
{
    let ghost start = out@;
    push_str(out, "@");
    push_str(out, name);
    push_str(out, "\n0;JMP\n");
    assert(out@ =~= start + goto_text(name@));
}

fn emit_if_goto(out: &mut Vec<char>, name: &str)
    ensures
        final(out)@ == old(out)@ + if_goto_text(name@),
{
    let ghost start = out@;
    push_str(out, "@SP\nAM=M-1\nD=M\n@");
    push_str(out, name);
    push_str(out, "\nD;JNE\n");
    assert(out@ =~= start + if_goto_text(name@));
}

fn emit_function(out: &mut Vec<char>, f: &str, k: u16)
    ensures
        final(out)@ == old(out)@ + function_text(f@, k),
{
    let ghost start = out@;
    push_str(out, "(");
    push_str(out, f);
    push_str(out, ")\n@");
    push_decimal(out, k as u64);
    push_str(out, "\nD=A\n@R13\nM=D\n(");
    push_str(out, f);
    push_str(out, "$locals)\n@R13\nD=M\n@");
    push_str(out, f);
    push_str(out, "$locals.end\nD;JEQ\n@SP\nA=M\nM=0\n@SP\nM=M+1\n@R13\nM=M-1\n@");
    push_str(out, f);
    push_str(out, "$locals\n0;JMP\n(");
    push_str(out, f);
    push_str(out, "$locals.end)\n");
    assert(out@ =~= start + function_text(f@, k));
}

fn emit_call(out: &mut Vec<char>, f: &str, n: u16, id: u64)
    ensures
        final(out)@ == old(out)@ + call_text(f@, n, id as nat),
{
    let ghost start = out@;
    push_str(out, "@");
    push_str(out, "RET.");
    push_decimal(out, id);
    push_str(out, "\nD=A\n@SP\nA=M\nM=D\n@SP\nM=M+1\n@LCL\nD=M\n@SP\nA=M\nM=D\n@SP\nM=M+1\n@ARG\nD=M\n@SP\nA=M\nM=D\n@SP\nM=M+1\n@THIS\nD=M\n@SP\nA=M\nM=D\n@SP\nM=M+1\n@THAT\nD=M\n@SP\nA=M\nM=D\n@SP\nM=M+1\n@SP\nD=M\n@");
    push_decimal(out, frame_offset_exec(n));
    push_str(out, "\nD=D-A\n@ARG\nM=D\n@SP\nD=M\n@LCL\nM=D\n@");
    push_str(out, f);
    push_str(out, "\n0;JMP\n(");
    push_str(out, "RET.");
    push_decimal(out, id);
    push_str(out, ")\n");
    assert(out@ =~= start + call_text(f@, n, id as nat));
}

fn emit_add(out: &mut Vec<char>)
    ensures
        final(out)@ == old(out)@ + add_text(),
{
    push_str(out, "@SP\nAM=M-1\nD=M\nA=A-1\nM=D+M\n");
}

fn emit_sub(out: &mut Vec<char>)
    ensures
        final(out)@ == old(out)@ + sub_text(),
{
    push_str(out, "@SP\nAM=M-1\nD=M\nA=A-1\nM=M-D\n");
}

fn emit_and(out: &mut Vec<char>)
    ensures
        final(out)@ == old(out)@ + and_text(),
{
    push_str(out, "@SP\nAM=M-1\nD=M\nA=A-1\nM=D&M\n");
}

fn emit_or(out: &mut Vec<char>)
    ensures
        final(out)@ == old(out)@ + or_text(),
{
    push_str(out, "@SP\nAM=M-1\nD=M\nA=A-1\nM=D|M\n");
}

fn emit_neg(out: &mut Vec<char>)
    ensures
        final(out)@ == old(out)@ + neg_text(),
{
    push_str(out, "@SP\nA=M-1\nM=-M\n");
}

fn emit_not(out: &mut Vec<char>)
    ensures
        final(out)@ == old(out)@ + not_text(),
{
    push_str(out, "@SP\nA=M-1\nM=!M\n");
}

fn emit_return(out: &mut Vec<char>)
    ensures
        final(out)@ == old(out)@ + return_text(),
{
    push_str(out, "@LCL\nD=M\n@R13\nM=D\n@5\nA=D-A\nD=M\n@R14\nM=D\n@SP\nAM=M-1\nD=M\n@ARG\nA=M\nM=D\n@ARG\nD=M+1\n@SP\nM=D\n@R13\nAM=M-1\nD=M\n@THAT\nM=D\n@R13\nAM=M-1\nD=M\n@THIS\nM=D\n@R13\nAM=M-1\nD=M\n@ARG\nM=D\n@R13\nAM=M-1\nD=M\n@LCL\nM=D\n@R14\nA=M\n0;JMP\n");
}

fn emit_bootstrap_head(out: &mut Vec<char>)
    ensures
        final(out)@ == old(out)@ + bootstrap_head_text(),
{
    push_str(out, "@256\nD=A\n@SP\nM=D\n");
}

fn base_reg_exec(a: SegmentAddr) -> (r: &'static str)
    ensures
        r@ == base_reg(a),
{
    match a {
        SegmentAddr::Local(_) => "LCL",
        SegmentAddr::Arg(_) => "ARG",
        SegmentAddr::This(_) => "THIS",
        _ => "THAT",
    }
}

fn pointer_reg_exec(n: u16) -> (r: &'static str)
    ensures
        r@ == pointer_reg(n),
{
    if n == 0 {
        "THIS"
    } else {
        "THAT"
    }
}

/// Appends the assembly for one instruction.
fn emit_inst(out: &mut Vec<char>, inst: &Inst, stem: &str, pos: u64, call_id: u64)
    ensures
        final(out)@ == old(out)@ + inst_text(inst@, stem@, pos as nat, call_id as nat),
{
    match inst {
        Inst::Push(a) => match *a {
            SegmentAddr::Constant(n) => emit_push_constant(out, n),
            SegmentAddr::Static(n) => emit_push_static(out, stem, n),
            SegmentAddr::Temp(n) => emit_push_temp(out, n),
            SegmentAddr::Pointer(n) => emit_push_pointer(out, pointer_reg_exec(n)),
            SegmentAddr::Local(n) => emit_push_based(out, base_reg_exec(*a), n),
            SegmentAddr::Arg(n) => emit_push_based(out, base_reg_exec(*a), n),
            SegmentAddr::This(n) => emit_push_based(out, base_reg_exec(*a), n),
            SegmentAddr::That(n) => emit_push_based(out, base_reg_exec(*a), n),
        },
        Inst::Pop(a) => match *a {
            SegmentAddr::Constant(_) => {
                assert(out@ =~= old(out)@ + seq![]);
            },
            SegmentAddr::Static(n) => emit_pop_static(out, stem, n),
            SegmentAddr::Temp(n) => emit_pop_temp(out, n),
            SegmentAddr::Pointer(n) => emit_pop_pointer(out, pointer_reg_exec(n)),
            SegmentAddr::Local(n) => emit_pop_based(out, base_reg_exec(*a), n),
            SegmentAddr::Arg(n) => emit_pop_based(out, base_reg_exec(*a), n),
            SegmentAddr::This(n) => emit_pop_based(out, base_reg_exec(*a), n),
            SegmentAddr::That(n) => emit_pop_based(out, base_reg_exec(*a), n),
        },
        Inst::Add => emit_add(out),
        Inst::Sub => emit_sub(out),
        Inst::Neg => emit_neg(out),
        Inst::Eq => emit_compare(out, "JEQ", pos),
        Inst::Gt => emit_compare(out, "JGT", pos),
        Inst::Lt => emit_compare(out, "JLT", pos),
        Inst::And => emit_and(out),
        Inst::Or => emit_or(out),
        Inst::Not => emit_not(out),
        Inst::Label(name) => emit_label(out, name.as_str()),
        Inst::Goto(name) => emit_goto(out, name.as_str()),
        Inst::IfGoto(name) => emit_if_goto(out, name.as_str()),
        Inst::Function(f, k) => emit_function(out, f.as_str(), *k),
        Inst::Call(f, n) => emit_call(out, f.as_str(), *n, call_id),
        Inst::Return => emit_return(out),
    }
}

/// A program's total instruction count is at least that of any prefix of its files.
proof fn lemma_total_monotone(units: Seq<(Seq<char>, Seq<InstView>)>, m: nat, n: nat)
    requires
        m <= n,
    ensures
        total_insts(units, m) <= total_insts(units, n),
    decreases n - m,
{
    if m < n {
        lemma_total_monotone(units, m, (n - 1) as nat);
    }
}

/// Generates the program for the files `units`, in order: the bootstrap, then each
/// instruction's assembly. Comparisons are numbered by their position in the whole program
/// and calls by their order, from 1, so every generated label is unique.
pub fn generate_program(units: &Vec<Parser>) -> (r: String)
    requires
        forall|k: int| 0 <= k < units@.len() ==> (#[trigger] units@[k]).wf(),
        total_insts(unit_views(units@), units@.len()) <= 0xFFFF_FFFF,
    ensures
        r@ == generation(unit_views(units@)).text,
{
    let ghost us = unit_views(units@);
    let mut out: Vec<char> = Vec::new();
    emit_bootstrap_head(&mut out);
    emit_call(&mut out, "Sys.init", 0, 0);
    assert(out@ =~= bootstrap_text());
    let mut pos: u64 = 0;
    let mut calls: u64 = 0;
    let mut u: usize = 0;
    while u < units.len()
        invariant
            u <= units@.len(),
            us == unit_views(units@),
            total_insts(us, units@.len() as nat) <= 0xFFFF_FFFF,
            out@ == gen_units(us, u as nat).text,
            pos == gen_units(us, u as nat).pos,
            calls == gen_units(us, u as nat).calls,
            pos == total_insts(us, u as nat),
            calls <= pos,
        decreases units@.len() - u,
    {
        let p = &units[u];
        let insts = p.instructions();
        let stem = p.stem_str();
        assert(us[u as int] == (p.stem(), p.insts()));
        proof {
            lemma_total_monotone(us, (u + 1) as nat, units@.len() as nat);
        }
        let ghost s0 = gen_units(us, u as nat);
        let mut k: usize = 0;
        while k < insts.len()
            invariant
                k <= insts@.len(),
                inst_views(insts@) == us[u as int].1,
                stem@ == us[u as int].0,
                us[u as int].1.len() + total_insts(us, u as nat) <= 0xFFFF_FFFF,
                out@ == gen_insts(stem@, us[u as int].1, k as nat, s0).text,
                pos == gen_insts(stem@, us[u as int].1, k as nat, s0).pos,
                calls == gen_insts(stem@, us[u as int].1, k as nat, s0).calls,
                pos == s0.pos + k,
                s0.pos == total_insts(us, u as nat),
                calls <= pos,
            decreases insts@.len() - k,
        {
            let inst = &insts[k];
            assert(inst@ == us[u as int].1[k as int]);
            let next_calls = match inst {
                Inst::Call(_, _) => calls + 1,
                _ => calls,
            };
            emit_inst(&mut out, inst, stem, pos, next_calls);
            pos = pos + 1;
            calls = next_calls;
            k = k + 1;
        }
        u = u + 1;
    }
    string_of(&out)
}

/// Generates the program for one file.
pub fn generate_vm_code(parser: Parser) -> (r: String)
    requires
        parser.wf(),
        parser.insts().len() <= 0xFFFF_FFFF,
    ensures
        r@ == generation(seq![(parser.stem(), parser.insts())]).text,
{
    let ghost v = (parser.stem(), parser.insts());
    let mut units: Vec<Parser> = Vec::new();
    units.push(parser);
    assert(unit_views(units@) =~= seq![v]);
    assert(total_insts(seq![v], 0) == 0);
    assert(seq![v][0] == v);
    assert(total_insts(seq![v], 1) == v.1.len());
    generate_program(&units)
}

/// What generation keeps true: the return labels so far are those of calls 0 through
/// `calls`, and the comparison positions so far rise strictly and lie below `pos`.
pub open spec fn gen_inv(s: GenState) -> bool {
    &&& s.ret_labels.len() == s.calls + 1
    &&& forall|k: int| 0 <= k < s.ret_labels.len() ==> #[trigger] s.ret_labels[k] == return_label(k as nat)
    &&& forall|a: int, b: int| 0 <= a < b < s.cmp_sites.len() ==> s.cmp_sites[a] < s.cmp_sites[b]
    &&& forall|a: int| 0 <= a < s.cmp_sites.len() ==> #[trigger] s.cmp_sites[a] < s.pos
}

proof fn lemma_gen_insts_inv(stem: Seq<char>, is: Seq<InstView>, n: nat, s: GenState)
    requires
        gen_inv(s),
    ensures
        gen_inv(gen_insts(stem, is, n, s)),
    decreases n,
{
    if n > 0 {
        lemma_gen_insts_inv(stem, is, (n - 1) as nat, s);
        let p = gen_insts(stem, is, (n - 1) as nat, s);
        let q = step(stem, is[n - 1], p);
        assert forall|k: int| 0 <= k < q.ret_labels.len() implies #[trigger] q.ret_labels[k] == return_label(k as nat) by {
            if k < p.ret_labels.len() {
                assert(q.ret_labels[k] == p.ret_labels[k]);
            }
        }
        assert forall|a: int, b: int| 0 <= a < b < q.cmp_sites.len() implies q.cmp_sites[a] < q.cmp_sites[b] by {
            assert(q.cmp_sites[a] == p.cmp_sites[a]);
            if b < p.cmp_sites.len() {
                assert(q.cmp_sites[b] == p.cmp_sites[b]);
            }
        }
        assert forall|a: int| 0 <= a < q.cmp_sites.len() implies #[trigger] q.cmp_sites[a] < q.pos by {
            if a < p.cmp_sites.len() {
                assert(q.cmp_sites[a] == p.cmp_sites[a]);
            }
        }
    }
}

proof fn lemma_gen_units_inv(units: Seq<(Seq<char>, Seq<InstView>)>, m: nat)
    ensures
        gen_inv(gen_units(units, m)),
    decreases m,
{
    if m > 0 {
        lemma_gen_units_inv(units, (m - 1) as nat);
        let s = gen_units(units, (m - 1) as nat);
        lemma_gen_insts_inv(units[m - 1].0, units[m - 1].1, units[m - 1].1.len(), s);
    }
}

/// Two numbers with one decimal spelling are equal.
proof fn lemma_decimal_injective(a: nat, b: nat)
    requires
        decimal(a) == decimal(b),
    ensures
        a == b,
    decreases a,
{
    if a >= 10 && b >= 10 {
        assert(decimal(a).drop_last() =~= decimal(a / 10));
        assert(decimal(b).drop_last() =~= decimal(b / 10));
        lemma_decimal_injective(a / 10, b / 10);
        assert(decimal(a).last() == digit_char(a % 10));
        assert(decimal(b).last() == digit_char(b % 10));
    } else if a >= 10 {
        assert(decimal(a / 10).len() >= 1);
        assert(decimal(a).len() >= 2);
    } else if b >= 10 {
        assert(decimal(b / 10).len() >= 1);
        assert(decimal(b).len() >= 2);
    } else {
        assert(decimal(a)[0] == digit_char(a));
        assert(decimal(b)[0] == digit_char(b));
    }
}

proof fn lemma_prefix_cancel(p: Seq<char>, x: Seq<char>, y: Seq<char>)
    requires
        p + x == p + y,
    ensures
        x == y,
{
    assert(x =~= (p + x).subrange(p.len() as int, (p + x).len() as int));
    assert(y =~= (p + y).subrange(p.len() as int, (p + y).len() as int));
}

/// Every call site gets its own return label: the labels of the bootstrap call and of each
/// call of the program are pairwise distinct.
pub proof fn lemma_return_labels_distinct(units: Seq<(Seq<char>, Seq<InstView>)>)
    ensures
        forall|a: int, b: int| 0 <= a < b < generation(units).ret_labels.len()
            ==> generation(units).ret_labels[a] != generation(units).ret_labels[b],
{
    let s = generation(units);
    lemma_gen_units_inv(units, units.len());
    assert forall|a: int, b: int| 0 <= a < b < s.ret_labels.len() implies s.ret_labels[a] != s.ret_labels[b] by {
        if s.ret_labels[a] == s.ret_labels[b] {
            assert(s.ret_labels[a] == return_label(a as nat));
            assert(s.ret_labels[b] == return_label(b as nat));
            lemma_prefix_cancel("RET."@, decimal(a as nat), decimal(b as nat));
            lemma_decimal_injective(a as nat, b as nat);
        }
    }
}

/// Every comparison gets its own pair of labels: over two comparison sites, no two of their
/// branch and continuation labels coincide.
pub proof fn lemma_compare_labels_distinct(units: Seq<(Seq<char>, Seq<InstView>)>)
    ensures
        forall|a: int, b: int| 0 <= a < b < generation(units).cmp_sites.len()
            ==> true_label(generation(units).cmp_sites[a]) != true_label(generation(units).cmp_sites[b])
                && end_label(generation(units).cmp_sites[a]) != end_label(generation(units).cmp_sites[b]),
        forall|a: int, b: int| 0 <= a < generation(units).cmp_sites.len() && 0 <= b < generation(units).cmp_sites.len()
            ==> true_label(generation(units).cmp_sites[a]) != end_label(generation(units).cmp_sites[b]),
{
    let s = generation(units);
    let c = s.cmp_sites;
    lemma_gen_units_inv(units, units.len());
    assert forall|a: int, b: int| 0 <= a < b < c.len() implies true_label(c[a]) != true_label(c[b])
        && end_label(c[a]) != end_label(c[b]) by {
        if true_label(c[a]) == true_label(c[b]) {
            lemma_prefix_cancel("CMP_TRUE."@, decimal(c[a]), decimal(c[b]));
            lemma_decimal_injective(c[a], c[b]);
        }
        if end_label(c[a]) == end_label(c[b]) {
            lemma_prefix_cancel("CMP_END."@, decimal(c[a]), decimal(c[b]));
            lemma_decimal_injective(c[a], c[b]);
        }
    }
    reveal_strlit("CMP_TRUE.");
    reveal_strlit("CMP_END.");
    assert forall|a: int, b: int| 0 <= a < c.len() && 0 <= b < c.len() implies true_label(c[a]) != end_label(c[b]) by {
        assert(true_label(c[a])[4] == 'T');
        assert(end_label(c[b])[4] == 'E');
    }
}

} // verus!

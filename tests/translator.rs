use hack_toolchain::codegen::{frame_offset_exec, generate_program, generate_vm_code};
use hack_toolchain::error::ErrorKind;
use hack_toolchain::vm::{Inst, Parser, SegmentAddr};

fn parsed(stem: &str, text: &str) -> Parser {
    let mut p = Parser::new(stem.to_string());
    p.parse(text).unwrap();
    p
}

#[test]
fn parse_instructions() {
    let p = parsed("Main", "// c\npush constant 7\n\n  pop local 2 \nadd\nlabel L\nif-goto L\nfunction f 3\ncall f 2\nreturn\n");
    assert_eq!(
        p.instructions(),
        &vec![
            Inst::Push(SegmentAddr::Constant(7)),
            Inst::Pop(SegmentAddr::Local(2)),
            Inst::Add,
            Inst::Label("L".into()),
            Inst::IfGoto("L".into()),
            Inst::Function("f".into(), 3),
            Inst::Call("f".into(), 2),
            Inst::Return,
        ]
    );
}

#[test]
fn unknown_segment_names_its_line() {
    let mut p = Parser::new("Main".to_string());
    let e = p.parse("push constant 1\npush foo 3\n").unwrap_err();
    assert_eq!(e.kind, ErrorKind::InvalidSegment);
    assert_eq!(e.line, 2);
    assert_eq!(e.text, "foo");
    assert!(p.instructions().is_empty());
}

#[test]
fn pop_to_constant_is_rejected() {
    let mut p = Parser::new("Main".to_string());
    let e = p.parse("pop constant 1\n").unwrap_err();
    assert_eq!(e.kind, ErrorKind::InvalidSegment);
    assert_eq!(e.line, 1);
}

#[test]
fn pointer_offset_beyond_one_is_rejected() {
    let mut p = Parser::new("Main".to_string());
    let e = p.parse("push pointer 2\n").unwrap_err();
    assert_eq!(e.kind, ErrorKind::InvalidPointer);
}

#[test]
fn bad_operands_are_rejected() {
    let mut p = Parser::new("Main".to_string());
    assert_eq!(p.parse("push constant x\n").unwrap_err().kind, ErrorKind::InvalidNumber);
    assert_eq!(p.parse("push constant\n").unwrap_err().kind, ErrorKind::MissingOperand);
    assert_eq!(p.parse("goto\n").unwrap_err().kind, ErrorKind::MissingOperand);
    let e = p.parse("add\nfoo 1\n").unwrap_err();
    assert_eq!(e.kind, ErrorKind::InvalidInstruction);
    assert_eq!(e.line, 2);
    assert_eq!(e.text, "foo");
}

#[test]
fn bootstrap_comes_first() {
    let code = generate_vm_code(parsed("Main", ""));
    assert!(code.starts_with("@256\nD=A\n@SP\nM=D\n@RET.0\n"));
    assert!(code.contains("@Sys.init\n0;JMP\n(RET.0)\n"));
}

#[test]
fn push_constant_expansion() {
    let code = generate_vm_code(parsed("Main", "push constant 7\n"));
    assert!(code.ends_with(")\n@7\nD=A\n@SP\nA=M\nM=D\n@SP\nM=M+1\n"));
}

#[test]
fn static_uses_file_stem() {
    let code = generate_vm_code(parsed("Foo", "push static 3\npop static 4\n"));
    assert!(code.contains("@Foo.3\nD=M\n"));
    assert!(code.contains("@Foo.4\nM=D\n"));
}

#[test]
fn call_sites_get_distinct_return_labels() {
    let code = generate_vm_code(parsed("Main", "call f 0\ncall f 0\ncall g 1\n"));
    assert!(code.contains("(RET.1)\n"));
    assert!(code.contains("(RET.2)\n"));
    assert!(code.contains("(RET.3)\n"));
    assert_eq!(code.matches("(RET.1)\n").count(), 1);
}

#[test]
fn call_argument_base_is_seven_below() {
    assert_eq!(frame_offset_exec(2), 7);
    let code = generate_vm_code(parsed("Main", "call f 2\n"));
    assert!(code.contains("@SP\nD=M\n@7\nD=D-A\n@ARG\nM=D\n"));
}

#[test]
fn comparisons_get_distinct_labels() {
    let code = generate_vm_code(parsed("Main", "eq\npush constant 1\neq\n"));
    assert!(code.contains("(CMP_TRUE.0)\n"));
    assert!(code.contains("(CMP_END.0)\n"));
    assert!(code.contains("(CMP_TRUE.2)\n"));
    assert!(code.contains("(CMP_END.2)\n"));
    assert!(code.contains("D;JEQ\n"));
}

#[test]
fn files_share_counters() {
    let units = vec![parsed("A", "call f 0\neq\n"), parsed("B", "call g 0\nlt\n")];
    let code = generate_program(&units);
    assert!(code.contains("(RET.1)\n"));
    assert!(code.contains("(RET.2)\n"));
    assert!(code.contains("(CMP_TRUE.1)\n"));
    assert!(code.contains("(CMP_TRUE.3)\n"));
    assert_eq!(code.matches("@256\n").count(), 1);
}

#[test]
fn function_zeroes_locals() {
    let code = generate_vm_code(parsed("Main", "function Main.f 2\n"));
    assert!(code.contains("(Main.f)\n@2\nD=A\n"));
}

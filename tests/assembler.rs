use hack_toolchain::assembler::Assembler;
use hack_toolchain::error::ErrorKind;
use hack_toolchain::parser::{parse_assembly, AddressInst, CComp, CDest, CJump, ComputationInst, Token};

fn assemble_text(text: &str) -> Vec<u16> {
    let tokens = parse_assembly(text).unwrap();
    let mut code = Assembler::new(tokens);
    code.resolve_symbols();
    code.assemble()
}

#[test]
fn c_instruction_compilation() {
    let code = Assembler::new(Vec::new());
    let inst = code.compile_c_instruction(&ComputationInst {
        dest: CDest::MD,
        comp: CComp::DPlusOne,
        jump: CJump::JGT,
    });

    assert_eq!(inst, 0b1110011111011001);
}

#[test]
fn a_instruction_compilation() {
    let code = Assembler::new(Vec::new());
    let inst1 = code.compile_a_instruction(&AddressInst::Symbol("R1".into()));
    assert_eq!(inst1, 0b0000000000000001);

    let inst2 = code.compile_a_instruction(&AddressInst::Value(0xFFFF));
    assert_eq!(inst2, 0xFFFF >> 1);
}

#[test]
fn encoding_twice_gives_the_same_words() {
    let text = "@2\nD=A\n@3\nD=D+A\n@0\nM=D\n(END)\n@END\n0;JMP\n";
    assert_eq!(assemble_text(text), assemble_text(text));
}

#[test]
fn add_program_assembles() {
    let words = assemble_text("// adds 2 and 3\n@2\nD=A\n@3\nD=D+A\n@0\nM=D\n");
    assert_eq!(
        words,
        vec![
            0b0000000000000010,
            0b1110110000010000,
            0b0000000000000011,
            0b1110000010010000,
            0b0000000000000000,
            0b1110001100001000,
        ]
    );
}

#[test]
fn labels_resolve_to_instruction_counts() {
    let text = "(START)\n@1\n(A)\n(B)\nD=A\n@START\n@A\n@B\n(START)\n@START\n";
    let words = assemble_text(text);
    // @START -> 0, @A -> 1, @B -> 1; the second (START) is ignored.
    assert_eq!(words[2], 0);
    assert_eq!(words[3], 1);
    assert_eq!(words[4], 1);
    assert_eq!(words[5], 0);
}

#[test]
fn variables_allocated_from_sixteen_in_order() {
    let words = assemble_text("@i\n@sum\n@i\n@LOOP\n(LOOP)\n@other\n");
    assert_eq!(words, vec![16, 17, 16, 4, 18]);
}

#[test]
fn predefined_symbols_take_precedence() {
    let words = assemble_text("@SCREEN\n@KBD\n@SP\n@R0\n@THAT\n@R11\n@R15\n");
    assert_eq!(words, vec![16384, 24576, 0, 0, 4, 11, 15]);
}

#[test]
fn predefined_name_as_label_keeps_its_address() {
    let words = assemble_text("@1\n(SCREEN)\n@SCREEN\n");
    assert_eq!(words, vec![1, 16384]);
}

#[test]
fn literal_address_masked_to_fifteen_bits() {
    let code = Assembler::new(Vec::new());
    assert_eq!(code.compile_a_instruction(&AddressInst::Value(0x8005)), 5);
    assert_eq!(code.compile_a_instruction(&AddressInst::Value(32767)), 32767);
}

#[test]
fn computation_table_samples() {
    let code = Assembler::new(Vec::new());
    let w = |dest, comp, jump| code.compile_c_instruction(&ComputationInst { dest, comp, jump });
    assert_eq!(w(CDest::Null, CComp::Zero, CJump::JMP), 0b1110101010000111);
    assert_eq!(w(CDest::AMD, CComp::DOrM, CJump::Null), 0b1111010101111000);
    assert_eq!(w(CDest::D, CComp::DAndA, CJump::JLE), 0b1110000000010110);
    assert_eq!(w(CDest::M, CComp::NegOne, CJump::Null), 0b1110111010001000);
    assert_eq!(w(CDest::A, CComp::MMinusOne, CJump::JNE), 0b1111110010100101);
}

#[test]
fn parse_computation_forms() {
    let tokens = parse_assembly("  D = D + M ; JGT  \nM=-1\n0;JMP\n").unwrap();
    assert_eq!(
        tokens,
        vec![
            Token::C(ComputationInst { dest: CDest::D, comp: CComp::DPlusM, jump: CJump::JGT }),
            Token::C(ComputationInst { dest: CDest::M, comp: CComp::NegOne, jump: CJump::Null }),
            Token::C(ComputationInst { dest: CDest::Null, comp: CComp::Zero, jump: CJump::JMP }),
        ]
    );
}

#[test]
fn parse_address_forms() {
    let tokens = parse_assembly("@42\n@65535\n@65536\n@loop.x\n(LOOP)\n").unwrap();
    assert_eq!(
        tokens,
        vec![
            Token::A(AddressInst::Value(42)),
            Token::A(AddressInst::Value(65535)),
            Token::A(AddressInst::Symbol("65536".into())),
            Token::A(AddressInst::Symbol("loop.x".into())),
            Token::Label("LOOP".into()),
        ]
    );
}

#[test]
fn bad_label_is_a_syntax_error() {
    let e = parse_assembly("@1\n\n(LOOP\n").unwrap_err();
    assert_eq!(e.kind, ErrorKind::InvalidLabel);
    assert_eq!(e.line, 3);
    assert_eq!(e.text, "(LOOP");
}

#[test]
fn bad_destination_is_a_syntax_error() {
    let e = parse_assembly("X=M\n").unwrap_err();
    assert_eq!(e.kind, ErrorKind::InvalidDestination);
    assert_eq!(e.line, 1);
    assert_eq!(e.text, "X");
}

#[test]
fn bad_jump_is_a_syntax_error() {
    let e = parse_assembly("// c\nD;JXX\n").unwrap_err();
    assert_eq!(e.kind, ErrorKind::InvalidJump);
    assert_eq!(e.line, 2);
    assert_eq!(e.text, "JXX");
}

#[test]
fn bad_computation_is_a_syntax_error() {
    let e = parse_assembly("D=D*A\nX=Y\n").unwrap_err();
    assert_eq!(e.kind, ErrorKind::InvalidComputation);
    assert_eq!(e.line, 1);
    assert_eq!(e.text, "D*A");
}

use hack_assembler::commands::CommandLookup;
use hack_assembler::parser::Parser;
use hack_assembler::pipeline::{assemble, assemble_pass, variable_pass, AsmError};
use hack_assembler::symbols::SymbolTable;

fn text(s: &str) -> Vec<char> {
    s.chars().collect()
}

fn string_of(v: &Vec<char>) -> String {
    v.iter().collect()
}

fn lines_of(out: Vec<Vec<char>>) -> Vec<String> {
    out.iter().map(string_of).collect()
}

#[test]
fn encodes_compute_instruction() {
    let out = assemble(text("D+1\n")).expect("a lone compute mnemonic must assemble");
    assert_eq!(lines_of(out), vec!["1110011111000000"]);
}

#[test]
fn end_to_end_literals_and_computes() {
    let out = assemble(text("@2\nD=A\n@3\nD=D+A\n@0\nM=D\n")).expect("the program must assemble");
    let lines = lines_of(out);
    assert_eq!(
        lines,
        vec![
            "0000000000000010",
            "1110110000010000",
            "0000000000000011",
            "1110000010010000",
            "0000000000000000",
            "1110001100001000",
        ],
    );
    for line in &lines {
        assert_eq!(line.len(), 16);
        assert!(line.chars().all(|c| c == '0' || c == '1'));
    }
}

#[test]
fn label_resolves_to_next_instruction() {
    let out = assemble(text("@1\n(LOOP)\n@LOOP\n0;JMP\n")).expect("the loop must assemble");
    assert_eq!(
        lines_of(out),
        vec!["0000000000000001", "0000000000000001", "1110101010000111"],
    );
}

#[test]
fn label_at_start_resolves_to_zero() {
    let out = assemble(text("(LOOP)\n@LOOP\n0;JMP\n")).expect("the loop must assemble");
    assert_eq!(lines_of(out), vec!["0000000000000000", "1110101010000111"]);
}

#[test]
fn forward_label_reference() {
    let out = assemble(text("@END\n0;JMP\n(END)\nD=A\n")).expect("the jump must assemble");
    assert_eq!(
        lines_of(out),
        vec!["0000000000000010", "1110101010000111", "1110110000010000"],
    );
}

#[test]
fn comments_and_whitespace_add_nothing() {
    let out = assemble(text("// only a comment\n   \n\t@2\t\nD = A // trailing\n* block note\n"))
        .expect("the commented program must assemble");
    assert_eq!(lines_of(out), vec!["0000000000000010", "1110110000010000"]);
}

#[test]
fn variables_allocate_from_sixteen() {
    let out = assemble(text("@i\n@j\n@i\n@R5\n")).expect("the variables must assemble");
    assert_eq!(
        lines_of(out),
        vec![
            "0000000000010000",
            "0000000000010001",
            "0000000000010000",
            "0000000000000101",
        ],
    );
}

#[test]
fn label_never_becomes_variable() {
    let out = assemble(text("@x\n@done\n(done)\nD=A\n")).expect("the program must assemble");
    assert_eq!(
        lines_of(out),
        vec!["0000000000010000", "0000000000000010", "1110110000010000"],
    );
}

#[test]
fn memory_mapped_regions() {
    let out = assemble(text("@SCREEN\n@KBD\n")).expect("the names must assemble");
    assert_eq!(lines_of(out), vec!["0100000000000000", "0110000000000000"]);
}

#[test]
fn empty_source_emits_nothing() {
    let out = assemble(text("")).expect("an empty source must assemble");
    assert!(out.is_empty());
    let out = assemble(text("\n\n")).expect("blank lines must assemble");
    assert!(out.is_empty());
}

#[test]
fn final_line_without_break() {
    let out = assemble(text("@2")).expect("a source without a final break must assemble");
    assert_eq!(lines_of(out), vec!["0000000000000010"]);
}

#[test]
fn carriage_return_line_endings() {
    let out = assemble(text("@2\r\nD=A\r\n")).expect("CRLF endings must assemble");
    assert_eq!(lines_of(out), vec!["0000000000000010", "1110110000010000"]);
}

#[test]
fn invalid_compute_mnemonic() {
    let e = assemble(text("D=X\n")).expect_err("an unknown compute mnemonic must fail");
    match e {
        AsmError::InvalidComp { text: t } => assert_eq!(string_of(&t), "X"),
        _ => panic!("expected an invalid compute mnemonic error"),
    }
}

#[test]
fn invalid_destination_mnemonic() {
    let e = assemble(text("X=D\n")).expect_err("an unknown destination mnemonic must fail");
    match e {
        AsmError::InvalidDest { text: t } => assert_eq!(string_of(&t), "X"),
        _ => panic!("expected an invalid destination mnemonic error"),
    }
}

#[test]
fn invalid_jump_mnemonic() {
    let e = assemble(text("0;JM\n")).expect_err("an unknown jump mnemonic must fail");
    match e {
        AsmError::InvalidJump { text: t } => assert_eq!(string_of(&t), "JM"),
        _ => panic!("expected an invalid jump mnemonic error"),
    }
}

#[test]
fn unknown_symbol_at_assemble_time() {
    let mut p = Parser::new(text("@nowhere\n"));
    let l = CommandLookup::new();
    let s = SymbolTable::new();
    let e = assemble_pass(&mut p, &l, &s).expect_err("an unbound name must fail to assemble");
    match e {
        AsmError::UnknownSymbol { index, text: t } => {
            assert_eq!(index, 1);
            assert_eq!(string_of(&t), "nowhere");
        },
        _ => panic!("expected an unknown symbol error"),
    }
}

#[test]
fn too_many_variables() {
    let mut p = Parser::new(text("@fresh\n"));
    let mut s = SymbolTable::new();
    s.variable_count = 0xfff0;
    let e = variable_pass(&mut p, &mut s).expect_err("a full table must refuse a fresh name");
    assert!(matches!(e, AsmError::TooManyVariables));
}

#[test]
fn literal_out_of_range_wraps() {
    let out = assemble(text("@65538\n")).expect("an oversized literal still assembles");
    assert_eq!(lines_of(out), vec!["0000000000000010"]);
}

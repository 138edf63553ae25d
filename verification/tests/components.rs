use hack_assembler::commands::CommandLookup;
use hack_assembler::parser::{CommandType, Parser};
use hack_assembler::pipeline::label_pass;
use hack_assembler::symbols::SymbolTable;
use hack_assembler::text::{chars_eq, copy_text, text_eq, text_of};

fn text(s: &str) -> Vec<char> {
    s.chars().collect()
}

fn string_of(v: &Vec<char>) -> String {
    v.iter().collect()
}

#[test]
fn predefined_registers() {
    let t = SymbolTable::new();
    for (name, value) in [
        ("R0", 0u16),
        ("R1", 1),
        ("R2", 2),
        ("R3", 3),
        ("R4", 4),
        ("R5", 5),
        ("R6", 6),
        ("R7", 7),
        ("R8", 8),
        ("R9", 9),
        ("R10", 10),
        ("R11", 11),
        ("R12", 12),
        ("R13", 13),
        ("R14", 14),
        ("R15", 15),
        ("SCREEN", 16384),
        ("KBD", 24576),
        ("SP", 0),
        ("LCL", 1),
        ("ARG", 2),
        ("THIS", 3),
        ("THAT", 4),
    ] {
        let got = t.get(&text(name)).expect("predefined name must be bound");
        assert_eq!(*got, SymbolTable::u16_to_bin(value), "wrong value for {}", name);
    }
}

#[test]
fn lookup_missing_name() {
    let t = SymbolTable::new();
    assert!(t.get(&text("loop")).is_none());
    assert!(t.get(&text("")).is_none());
}

#[test]
fn binary_rendering() {
    assert_eq!(string_of(&SymbolTable::u16_to_bin(0)), "0000000000000000");
    assert_eq!(string_of(&SymbolTable::u16_to_bin(2)), "0000000000000010");
    assert_eq!(string_of(&SymbolTable::u16_to_bin(5)), "0000000000000101");
    assert_eq!(string_of(&SymbolTable::u16_to_bin(16384)), "0100000000000000");
    assert_eq!(string_of(&SymbolTable::u16_to_bin(24576)), "0110000000000000");
    assert_eq!(string_of(&SymbolTable::u16_to_bin(32767)), "0111111111111111");
    assert_eq!(string_of(&SymbolTable::u16_to_bin(65535)), "1111111111111111");
}

#[test]
fn decimal_parsing() {
    assert_eq!(SymbolTable::string_to_u16(&text("0")), 0);
    assert_eq!(SymbolTable::string_to_u16(&text("123")), 123);
    assert_eq!(SymbolTable::string_to_u16(&text("007")), 7);
    assert_eq!(SymbolTable::string_to_u16(&text("32767")), 32767);
    assert_eq!(SymbolTable::string_to_u16(&text("65535")), 65535);
}

#[test]
fn decimal_parsing_wraps_modulo_two_to_sixteen() {
    assert_eq!(SymbolTable::string_to_u16(&text("65536")), 0);
    assert_eq!(SymbolTable::string_to_u16(&text("70000")), 4464);
}

#[test]
fn decimal_binary_round_trip() {
    for n in [0u16, 1, 2, 9, 10, 255, 1024, 12345, 32767] {
        let decimal = text(&format!("{}", n));
        let bits = SymbolTable::u16_to_bin(SymbolTable::string_to_u16(&decimal));
        assert_eq!(bits.len(), 16);
        let mut back: u32 = 0;
        for c in &bits {
            back = back * 2 + if *c == '1' { 1 } else { 0 };
        }
        assert_eq!(back, n as u32);
    }
}

#[test]
fn is_address_cases() {
    assert!(SymbolTable::is_address(&text("0")));
    assert!(SymbolTable::is_address(&text("007")));
    assert!(SymbolTable::is_address(&text("65536")));
    assert!(!SymbolTable::is_address(&text("")));
    assert!(!SymbolTable::is_address(&text("12a")));
    assert!(!SymbolTable::is_address(&text("x")));
    assert!(!SymbolTable::is_address(&text("-1")));
}

#[test]
fn symbol_insert_and_overwrite() {
    let mut t = SymbolTable::new();
    t.insert(&text("x"), &text("0000000000000001"));
    assert_eq!(string_of(t.get(&text("x")).unwrap()), "0000000000000001");
    t.insert(&text("x"), &text("0000000000000010"));
    assert_eq!(string_of(t.get(&text("x")).unwrap()), "0000000000000010");
}

#[test]
fn insert_variable_sequence() {
    let mut t = SymbolTable::new();
    t.insert_variable(&text("i"));
    t.insert_variable(&text("j"));
    t.insert_variable(&text("i"));
    assert_eq!(string_of(t.get(&text("i")).unwrap()), "0000000000010000");
    assert_eq!(string_of(t.get(&text("j")).unwrap()), "0000000000010001");
    assert_eq!(t.variable_count, 2);
    t.insert_variable(&text("k"));
    assert_eq!(string_of(t.get(&text("k")).unwrap()), "0000000000010010");
}

#[test]
fn command_tables() {
    let l = CommandLookup::new();
    assert_eq!(string_of(&l.comp(&text("D+1")).unwrap()), "0011111");
    assert_eq!(string_of(&l.comp(&text("0")).unwrap()), "0101010");
    assert_eq!(string_of(&l.comp(&text("D|M")).unwrap()), "1010101");
    assert_eq!(string_of(&l.dest(&text("")).unwrap()), "000");
    assert_eq!(string_of(&l.dest(&text("AMD")).unwrap()), "111");
    assert_eq!(string_of(&l.jump(&text("")).unwrap()), "000");
    assert_eq!(string_of(&l.jump(&text("JMP")).unwrap()), "111");
    assert_eq!(string_of(&l.jump(&text("JEQ")).unwrap()), "010");
    assert!(l.comp(&text("Q")).is_none());
    assert!(l.dest(&text("DA")).is_none());
    assert!(l.jump(&text("JXX")).is_none());
}

#[test]
fn parser_classifies_lines() {
    let mut p = Parser::new(text("@2\nD=A;JGT\n(LOOP)\n// note\nM=D+1\n"));

    p.advance();
    assert!(p.command_type == CommandType::A);
    assert_eq!(string_of(&p.addr), "2");
    assert_eq!(p.count, 1);

    p.advance();
    assert!(p.command_type == CommandType::C);
    assert_eq!(string_of(&p.dest), "D");
    assert_eq!(string_of(&p.comp), "A");
    assert_eq!(string_of(&p.jump), "JGT");
    assert_eq!(p.count, 2);

    p.advance();
    assert!(p.command_type == CommandType::Label);
    assert_eq!(string_of(&p.addr), "LOOP");
    assert_eq!(p.count, 2);

    p.advance();
    assert!(p.command_type == CommandType::Comment);
    assert_eq!(p.count, 2);

    p.advance();
    assert!(p.command_type == CommandType::C);
    assert_eq!(string_of(&p.dest), "M");
    assert_eq!(string_of(&p.comp), "D+1");
    assert_eq!(string_of(&p.jump), "");
    assert_eq!(p.count, 3);

    assert!(p.eof());
}

#[test]
fn parser_skips_spaces_and_tabs() {
    let mut p = Parser::new(text("\t @ 2 \n  D = A  \n"));
    p.advance();
    assert!(p.command_type == CommandType::A);
    assert_eq!(string_of(&p.addr), "2");
    p.advance();
    assert!(p.command_type == CommandType::C);
    assert_eq!(string_of(&p.dest), "D");
    assert_eq!(string_of(&p.comp), "A");
    assert_eq!(p.count, 2);
}

#[test]
fn parser_trailing_comment() {
    let mut p = Parser::new(text("@7 // seven\nD=A // copy\n(END) // end\n"));
    p.advance();
    assert_eq!(string_of(&p.addr), "7");
    p.advance();
    assert_eq!(string_of(&p.dest), "D");
    assert_eq!(string_of(&p.comp), "A");
    p.advance();
    assert!(p.command_type == CommandType::Label);
    assert_eq!(string_of(&p.addr), "END");
}

#[test]
fn parser_coalesces_blank_lines() {
    let mut p = Parser::new(text("@1\n\n\r\n\n@2\n"));
    p.advance();
    assert_eq!(string_of(&p.addr), "1");
    p.advance();
    assert_eq!(string_of(&p.addr), "2");
    assert_eq!(p.count, 2);
    assert!(p.eof());
}

#[test]
fn parser_reset_rewinds() {
    let mut p = Parser::new(text("@1\n@2\n"));
    p.advance();
    p.advance();
    assert_eq!(p.count, 2);
    assert!(p.eof());
    p.reset();
    assert_eq!(p.count, 0);
    assert!(!p.eof());
    p.advance();
    assert_eq!(string_of(&p.addr), "1");
}

#[test]
fn parser_small_steps() {
    let mut p = Parser::new(text("a\nb"));
    assert!(!p.eof());
    assert!(!p.newline());
    p.bump();
    assert!(p.newline());
    p.bump();
    assert!(!p.newline());
    p.bump();
    assert!(p.eof());
    p.bump();
    assert!(p.eof());
    assert!(Parser::should_ignore(&' '));
    assert!(Parser::should_ignore(&'\t'));
    assert!(!Parser::should_ignore(&'\n'));
    assert!(!Parser::should_ignore(&'a'));
}

#[test]
fn label_pass_twice_keeps_bindings() {
    let mut p = Parser::new(text("@1\n(LOOP)\n@LOOP\n0;JMP\n"));
    let mut s = SymbolTable::new();
    label_pass(&mut p, &mut s);
    let first = string_of(s.get(&text("LOOP")).unwrap());
    assert_eq!(first, "0000000000000001");
    p.reset();
    label_pass(&mut p, &mut s);
    let second = string_of(s.get(&text("LOOP")).unwrap());
    assert_eq!(first, second);
}

#[test]
fn text_helpers() {
    let a = text_of("abc");
    assert_eq!(string_of(&a), "abc");
    assert!(text_eq(&a, "abc"));
    assert!(!text_eq(&a, "ab"));
    assert!(!text_eq(&a, "abd"));
    let b = copy_text(&a);
    assert!(chars_eq(&a, &b));
    assert!(!chars_eq(&a, &text("abd")));
}

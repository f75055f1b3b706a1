use hack_vm::assembler::{comp, dest, get_output_filename, jump, parse_filename, CommandType,
    Parser, SymbolTable};

fn lines(src: &[&str]) -> Vec<Vec<u8>> {
    src.iter().map(|s| s.as_bytes().to_vec()).collect()
}

#[test]
fn filename_from_arguments() {
    let args = vec!["translator".to_string(), "Prog.vm".to_string()];
    assert_eq!(parse_filename(&args), Ok("Prog.vm".to_string()));
    let none = vec!["translator".to_string()];
    assert!(parse_filename(&none).is_err());
}

#[test]
fn output_filename_from_input() {
    assert_eq!(get_output_filename(b"dir/Foo.vm"), b"Foo.asm".to_vec());
    assert_eq!(get_output_filename(b"Foo.vm"), b"Foo.asm".to_vec());
    assert_eq!(get_output_filename(b"Foo"), b"Foo.asm".to_vec());
    assert_eq!(get_output_filename(b"a/b/c.d.vm"), b"c.d.asm".to_vec());
}

#[test]
fn destination_bits() {
    assert_eq!(dest(b"M"), b"001".to_vec());
    assert_eq!(dest(b"D"), b"010".to_vec());
    assert_eq!(dest(b"MD"), b"011".to_vec());
    assert_eq!(dest(b"A"), b"100".to_vec());
    assert_eq!(dest(b"AM"), b"101".to_vec());
    assert_eq!(dest(b"AD"), b"110".to_vec());
    assert_eq!(dest(b"AMD"), b"111".to_vec());
    assert_eq!(dest(b"null"), b"000".to_vec());
    assert_eq!(dest(b""), b"000".to_vec());
}

#[test]
fn computation_bits() {
    assert_eq!(comp(b"0"), b"0101010".to_vec());
    assert_eq!(comp(b"D"), b"0001100".to_vec());
    assert_eq!(comp(b"D+A"), b"0000010".to_vec());
    assert_eq!(comp(b"M-D"), b"1000111".to_vec());
    assert_eq!(comp(b"D|M"), b"1010101".to_vec());
    assert_eq!(comp(b"!M"), b"1110001".to_vec());
}

#[test]
fn jump_bits() {
    assert_eq!(jump(b"JGT"), b"001".to_vec());
    assert_eq!(jump(b"JEQ"), b"010".to_vec());
    assert_eq!(jump(b"JGE"), b"011".to_vec());
    assert_eq!(jump(b"JLT"), b"100".to_vec());
    assert_eq!(jump(b"JNE"), b"101".to_vec());
    assert_eq!(jump(b"JLE"), b"110".to_vec());
    assert_eq!(jump(b"JMP"), b"111".to_vec());
    assert_eq!(jump(b"null"), b"000".to_vec());
}

#[test]
fn symbol_table_predefined_and_user_entries() {
    let mut t = SymbolTable::new();
    assert!(t.contains(b"SP"));
    assert_eq!(t.get_address(b"SP"), Some(0));
    assert_eq!(t.get_address(b"LCL"), Some(1));
    assert_eq!(t.get_address(b"ARG"), Some(2));
    assert_eq!(t.get_address(b"THIS"), Some(3));
    assert_eq!(t.get_address(b"THAT"), Some(4));
    assert_eq!(t.get_address(b"R13"), Some(13));
    assert_eq!(t.get_address(b"SCREEN"), Some(16384));
    assert_eq!(t.get_address(b"KBD"), Some(24576));
    assert_eq!(t.get_address(b"loop"), None);
    assert!(!t.contains(b"loop"));
    t.add_entry(b"loop".to_vec(), 16);
    assert_eq!(t.get_address(b"loop"), Some(16));
    // A bound symbol keeps its first address.
    t.add_entry(b"loop".to_vec(), 99);
    assert_eq!(t.get_address(b"loop"), Some(16));
}

#[test]
fn assembly_lines_classified_and_split() {
    let mut p = Parser::new(&lines(&[
        "@21 // load a constant",
        "D=A",
        "(LOOP)",
        "@LOOP",
        "D=M+1;JGT",
        "0;JMP",
    ]));
    assert_eq!(p.command_type(), Some(CommandType::ACOMMAND));
    assert_eq!(p.symbol(), Some(b"21".to_vec()));
    p.advance();
    assert_eq!(p.command_type(), Some(CommandType::CCOMMAND));
    assert_eq!(p.dest(), Some(b"D".to_vec()));
    assert_eq!(p.comp(), Some(b"A".to_vec()));
    assert_eq!(p.jump(), None);
    p.advance();
    assert_eq!(p.command_type(), Some(CommandType::LCOMMAND));
    assert_eq!(p.symbol(), Some(b"LOOP".to_vec()));
    p.advance();
    assert_eq!(p.symbol(), Some(b"LOOP".to_vec()));
    p.advance();
    assert_eq!(p.command_type(), Some(CommandType::CCOMMAND));
    assert_eq!(p.dest(), Some(b"D".to_vec()));
    assert_eq!(p.comp(), Some(b"M+1".to_vec()));
    assert_eq!(p.jump(), Some(b"JGT".to_vec()));
    p.advance();
    assert_eq!(p.dest(), None);
    assert_eq!(p.comp(), Some(b"0".to_vec()));
    assert_eq!(p.jump(), Some(b"JMP".to_vec()));
    p.advance();
    assert_eq!(p.command_type(), None);
    assert_eq!(p.symbol(), None);
    p.reset();
    assert_eq!(p.command_type(), Some(CommandType::ACOMMAND));
}

use hack_vm::parser::{clean, tokenize, CommandType, Parser};

fn lines(src: &[&str]) -> Vec<Vec<u8>> {
    src.iter().map(|s| s.as_bytes().to_vec()).collect()
}

#[test]
fn clean_strips_comments_and_whitespace() {
    assert_eq!(clean(b"push local 2 // comment"), b"push local 2".to_vec());
    assert_eq!(clean(b"   push local 2   "), b"push local 2".to_vec());
    assert_eq!(clean(b"// only a comment"), Vec::<u8>::new());
    assert_eq!(clean(b"   "), Vec::<u8>::new());
    assert_eq!(clean(b"add"), b"add".to_vec());
}

#[test]
fn comment_and_whitespace_insensitivity() {
    let a = Parser::new(&lines(&["push local 2 // comment"]));
    let b = Parser::new(&lines(&["   push local 2   "]));
    assert_eq!(a.commands, b.commands);
    assert_eq!(a.get_command(), b.get_command());
    assert_eq!(a.get_command(), &b"push local 2".to_vec());
}

#[test]
fn empty_lines_are_dropped() {
    let p = Parser::new(&lines(&["", "  // nothing", "push constant 1", "", "add"]));
    assert_eq!(p.commands.len(), 2);
    assert_eq!(p.commands[0], b"push constant 1".to_vec());
    assert_eq!(p.commands[1], b"add".to_vec());
}

#[test]
fn classification_by_keyword() {
    let p = Parser::new(&lines(&[
        "push constant 1",
        "pop local 0",
        "label LOOP",
        "goto LOOP",
        "if-goto END",
        "function f 2",
        "call f 1",
        "return",
        "add",
    ]));
    let mut kinds = Vec::new();
    let mut p = p;
    while p.has_more_commands() {
        kinds.push(p.command_type());
        p.advance();
    }
    assert_eq!(
        kinds,
        vec![
            CommandType::CPUSH,
            CommandType::CPOP,
            CommandType::CLABEL,
            CommandType::CGOTO,
            CommandType::CIF,
            CommandType::CFUNCTION,
            CommandType::CCALL,
            CommandType::CRETURN,
            CommandType::CARITHMETIC,
        ]
    );
}

#[test]
fn operand_extraction() {
    let p = Parser::new(&lines(&["push local 2"]));
    assert_eq!(p.arg1(), b"local".to_vec());
    assert_eq!(p.arg2(), b"2".to_vec());

    let p = Parser::new(&lines(&["add"]));
    assert_eq!(p.arg1(), b"add".to_vec());

    let p = Parser::new(&lines(&["goto END"]));
    assert_eq!(p.arg1(), b"END".to_vec());

    let p = Parser::new(&lines(&["call Main.fibonacci 1"]));
    assert_eq!(p.arg1(), b"Main.fibonacci".to_vec());
    assert_eq!(p.arg2(), b"1".to_vec());
}

#[test]
fn tokenize_splits_on_any_whitespace() {
    let toks = tokenize(b"push\t local\t\t2");
    assert_eq!(
        toks,
        vec![b"push".to_vec(), b"local".to_vec(), b"2".to_vec()]
    );
    assert_eq!(tokenize(b""), Vec::<Vec<u8>>::new());
    assert_eq!(tokenize(b"  add  "), vec![b"add".to_vec()]);
}

#[test]
fn cursor_walks_and_restarts() {
    let mut p = Parser::new(&lines(&["add", "sub"]));
    assert!(p.has_more_commands());
    assert_eq!(p.get_command(), &b"add".to_vec());
    p.advance();
    assert!(p.has_more_commands());
    assert_eq!(p.get_command(), &b"sub".to_vec());
    p.advance();
    assert!(!p.has_more_commands());
    p.reset();
    assert!(p.has_more_commands());
    assert_eq!(p.get_command(), &b"add".to_vec());
}

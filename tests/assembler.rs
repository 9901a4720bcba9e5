use rh24::{assemble, assemble_tokens, AsmError, Op, OpKind};

#[test]
fn assembles_mnemonics_and_literals() {
    let words = assemble("fun 0 push 2 16 4 dif 1 exe 0").unwrap();
    assert_eq!(
        words,
        vec![
            Op::new(OpKind::Fun, 0),
            Op::new(OpKind::Push, 2),
            16,
            4,
            Op::new(OpKind::Dif, 1),
            Op::new(OpKind::Exe, 0),
        ]
    );
}

#[test]
fn whitespace_of_any_kind_separates_tokens() {
    let words = assemble("  push\t1\n\n  7   ").unwrap();
    assert_eq!(words, vec![Op::new(OpKind::Push, 1), 7]);
    assert_eq!(assemble("").unwrap(), Vec::<u128>::new());
}

#[test]
fn numbers_in_decimal_and_hex() {
    assert_eq!(assemble("push 0x10").unwrap(), vec![Op::new(OpKind::Push, 16)]);
    assert_eq!(assemble("0xff").unwrap(), vec![255]);
    assert_eq!(assemble("+12").unwrap(), vec![12]);
    assert_eq!(assemble("lod 0x1A").unwrap(), vec![Op::new(OpKind::Lod, 26)]);
    assert_eq!(
        assemble("340282366920938463463374607431768211455").unwrap(),
        vec![u128::MAX]
    );
}

#[test]
fn trailing_mnemonic_expects_a_number() {
    let e = assemble("push 3 add").unwrap_err();
    assert_eq!(e.kind, AsmError::ExpectedNum);
    assert_eq!(e.word, "add");
    assert_eq!(e.message(), "[Assembler] Error parsing token: Expected number, found add");
}

#[test]
fn mnemonic_followed_by_a_non_number() {
    let e = assemble("fun push 2 15 30").unwrap_err();
    assert_eq!(e.kind, AsmError::ExpectedNum);
    assert_eq!(e.word, "push");
    let e = assemble("push 0x").unwrap_err();
    assert_eq!(e.kind, AsmError::ExpectedNum);
    assert_eq!(e.word, "0x");
}

#[test]
fn unknown_word_expects_an_opcode() {
    let e = assemble("push 1 5 jump 3").unwrap_err();
    assert_eq!(e.kind, AsmError::InvalidOp);
    assert_eq!(e.word, "jump");
    assert_eq!(e.message(), "[Assembler] Error parsing token: Expected opcode, found jump");
}

#[test]
fn number_too_large_is_not_a_number() {
    let e = assemble("push 340282366920938463463374607431768211456").unwrap_err();
    assert_eq!(e.kind, AsmError::ExpectedNum);
}

#[test]
fn bare_hex_letters_are_not_numbers() {
    let e = assemble("ff").unwrap_err();
    assert_eq!(e.kind, AsmError::InvalidOp);
    assert_eq!(e.word, "ff");
    let e = assemble("push add").unwrap_err();
    assert_eq!(e.kind, AsmError::ExpectedNum);
    assert_eq!(e.word, "add");
}

#[test]
fn only_one_hex_prefix_is_removed() {
    let e = assemble("0x0x1A").unwrap_err();
    assert_eq!(e.kind, AsmError::InvalidOp);
    assert_eq!(e.word, "0x0x1A");
    let e = assemble("push 0x0x1A").unwrap_err();
    assert_eq!(e.kind, AsmError::ExpectedNum);
}

#[test]
fn assemble_tokens_takes_token_list() {
    let toks: Vec<String> = vec!["call".to_string(), "0x2".to_string(), "9".to_string()];
    assert_eq!(assemble_tokens(&toks).unwrap(), vec![Op::new(OpKind::Call, 2), 9]);
    let toks: Vec<String> = vec!["exe".to_string()];
    let e = assemble_tokens(&toks).unwrap_err();
    assert_eq!(e.kind, AsmError::ExpectedNum);
    assert_eq!(e.word, "exe");
}

use tiny_cpu::{
    assemble, assemble_bytes, AsmError, Inst, ZeroPageAdd, ZeroPageAnd, ZeroPageImmediateLoad,
    ZeroPageLoad, ZeroPageLoadIfPos, ZeroPageNegate, ZeroPageOr, ZeroPageStore, ZeroPageXor,
};

fn words(src: &str) -> Vec<u32> {
    assemble(src.to_string()).unwrap().0.bytes()
}

fn error(src: &str) -> AsmError {
    match assemble(src.to_string()) {
        Ok(_) => panic!("assembled"),
        Err(e) => e,
    }
}

#[test]
fn every_mnemonic_matches_its_encoder() {
    let src = "ADD 1 2 3\nNEG 4 5\nAND 6 7 8\nOR 9 10 11\nXOR 12 13 14\nL 0xFFFE 15\nS 16 0xFFFF\nLI 0x10 0x1234\nLP 17 18 19";
    let expected = vec![
        ZeroPageAdd { lhs: 1, rhs: 2, out: 3 }.to_bytes()[0],
        ZeroPageNegate { input: 4, out: 5 }.to_bytes()[0],
        ZeroPageAnd { lhs: 6, rhs: 7, out: 8 }.to_bytes()[0],
        ZeroPageOr { lhs: 9, rhs: 10, out: 11 }.to_bytes()[0],
        ZeroPageXor { lhs: 12, rhs: 13, out: 14 }.to_bytes()[0],
        ZeroPageLoad { from: 0xFFFE, to: 15 }.to_bytes()[0],
        ZeroPageStore { from: 16, to: 0xFFFF }.to_bytes()[0],
        ZeroPageImmediateLoad { addr: 0x10, imm: 0x1234 }.to_bytes()[0],
        ZeroPageLoadIfPos { cond: 17, from: 18, to: 19 }.to_bytes()[0],
    ];
    assert_eq!(words(src), expected);
}

#[test]
fn forward_reference_resolves() {
    let src = "L target 5\nADD 1 2 3\ntarget: LI 1 2";
    let w = words(src);
    assert_eq!(w[0], ZeroPageLoad { from: 0x8002, to: 5 }.to_bytes()[0]);
}

#[test]
fn backward_reference_and_colon_marker() {
    let src = "start: ADD 1 2 3\nS 1 :start\nL ::start 0";
    let w = words(src);
    assert_eq!(w[1], ZeroPageStore { from: 1, to: 0x8000 }.to_bytes()[0]);
    assert_eq!(w[2], ZeroPageLoad { from: 0x8000, to: 0 }.to_bytes()[0]);
}

#[test]
fn later_definition_wins() {
    let w = words("L x 1\nx: ADD 1 2 3\nx: ADD 1 2 3");
    assert_eq!(w[0], ZeroPageLoad { from: 0x8002, to: 1 }.to_bytes()[0]);
}

#[test]
fn breakpoint_markers() {
    let (p, bps) = assemble("ADD 1 2 3\n~ADD 1 2 3\nhere: ~ LI 1 2\n".to_string()).unwrap();
    assert_eq!(p.bytes().len(), 3);
    assert_eq!(bps, vec![0x8001, 0x8002]);
}

#[test]
fn blank_lines_are_skipped() {
    let w = words("\n\n  ADD 1 2 3  \r\n   \n\nLI 1 2\n");
    assert_eq!(
        w,
        vec![
            ZeroPageAdd { lhs: 1, rhs: 2, out: 3 }.to_bytes()[0],
            ZeroPageImmediateLoad { addr: 1, imm: 2 }.to_bytes()[0]
        ]
    );
    assert!(words("").is_empty());
}

#[test]
fn operands_are_cut_to_field_width() {
    let w = words("LI 0x1FF 0x12345\nADD 256 257 300");
    assert_eq!(w[0], ZeroPageImmediateLoad { addr: 0xFF, imm: 0x2345 }.to_bytes()[0]);
    assert_eq!(w[1], ZeroPageAdd { lhs: 0, rhs: 1, out: 44 }.to_bytes()[0]);
}

#[test]
fn extra_operands_are_ignored() {
    let w = words("NEG 1 2 3");
    assert_eq!(w[0], ZeroPageNegate { input: 1, out: 2 }.to_bytes()[0]);
}

#[test]
fn unknown_mnemonic_fails_whole_assembly() {
    assert_eq!(error("ADD 1 2 3\nFOO 1 2\nLI 1 2"), AsmError::UnknownMnemonic);
    assert_eq!(error("add 1 2 3"), AsmError::UnknownMnemonic);
    assert_eq!(error("lonely:"), AsmError::UnknownMnemonic);
}

#[test]
fn unresolved_symbol_fails() {
    assert_eq!(error("L nowhere 1"), AsmError::UnresolvedSymbol);
}

#[test]
fn missing_and_empty_operands_fail() {
    assert_eq!(error("ADD 1 2"), AsmError::MissingOperand);
    assert_eq!(error("ADD 1  2 3"), AsmError::EmptyOperand);
    assert_eq!(error("LI 1 :"), AsmError::EmptyOperand);
}

#[test]
fn bad_literals_fail() {
    assert_eq!(error("LI 1 0xZZ"), AsmError::BadLiteral);
    assert_eq!(error("LI 1 0x"), AsmError::BadLiteral);
    assert_eq!(error("LI 1 12a"), AsmError::BadLiteral);
    assert_eq!(error("LI 1 99999999999999999999"), AsmError::BadLiteral);
    assert_eq!(words("LI 1 18446744073709551615")[0], 0x0A01_FFFF);
}

#[test]
fn first_pass_errors_come_before_second_pass_errors() {
    assert_eq!(error("L nowhere 1\nBAD 1"), AsmError::UnknownMnemonic);
}

#[test]
fn bytes_entry_point_matches_string_entry_point() {
    let (p, b) = assemble_bytes("x: ~LI 1 x".as_bytes()).unwrap();
    assert_eq!(p.bytes(), vec![ZeroPageImmediateLoad { addr: 1, imm: 0x8000 }.to_bytes()[0]]);
    assert_eq!(b, vec![0x8000]);
}

#[test]
fn unicode_white_space_is_trimmed() {
    let plain = words("ADD 1 2 3\nLI 1 2");
    assert_eq!(words("ADD 1 2 3\u{a0}\n\u{3000}\n\u{85}\u{2028} \t\nLI 1 2\u{205f}"), plain);
    assert_eq!(words("\u{2000}\u{200a}ADD 1 2 3\u{1680}\nLI 1 2\u{202f}\u{2029}"), plain);
    assert_eq!(words("x: \u{3000}~\u{a0}ADD 1 2 3\nLI 1 2"), plain);
}

#[test]
fn other_non_ascii_is_not_space() {
    assert_eq!(error("ADD 1 2 3\u{200b}"), AsmError::BadLiteral);
}

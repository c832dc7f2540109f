use tiny_cpu::{
    decode, Inst, Instruction, MachineError, Opcodes, Program, ZeroPageAdd, ZeroPageAnd,
    ZeroPageImmediateLoad, ZeroPageLoad, ZeroPageLoadIfPos, ZeroPageNegate, ZeroPageOr,
    ZeroPageStore, ZeroPageXor,
};

#[test]
fn add_encodes_big_endian() {
    let i = ZeroPageAdd { lhs: 1, rhs: 2, out: 3 };
    assert_eq!(i.to_bytes(), [0x0001_0203]);
}

#[test]
fn immediate_load_field_is_little_endian() {
    let i = ZeroPageImmediateLoad { addr: 0x10, imm: 0x1234 };
    assert_eq!(i.to_bytes(), [0x0A10_3412]);
}

#[test]
fn load_and_store_wide_fields() {
    assert_eq!(ZeroPageLoad { from: 0xFFFE, to: 5 }.to_bytes(), [0x06FE_FF05]);
    assert_eq!(ZeroPageStore { from: 3, to: 0xFFFF }.to_bytes(), [0x0903_FFFF]);
}

#[test]
fn negate_pads_last_byte() {
    assert_eq!(ZeroPageNegate { input: 4, out: 5 }.to_bytes(), [0x0104_0500]);
    let back = ZeroPageNegate::from_bytes(&[0x0104_05FF]).unwrap();
    assert_eq!(back, ZeroPageNegate { input: 4, out: 5 });
}

#[test]
fn round_trip_every_kind() {
    for v in [0u8, 1, 0x7F, 0x80, 0xFF] {
        let w = (v as u16) << 8 | 0x5A;
        let a = ZeroPageAdd { lhs: v, rhs: 0xFF - v, out: v / 2 };
        assert_eq!(ZeroPageAdd::from_bytes(&a.to_bytes()).unwrap(), a);
        let b = ZeroPageAnd { lhs: v, rhs: 3, out: 9 };
        assert_eq!(ZeroPageAnd::from_bytes(&b.to_bytes()).unwrap(), b);
        let c = ZeroPageOr { lhs: 1, rhs: v, out: 2 };
        assert_eq!(ZeroPageOr::from_bytes(&c.to_bytes()).unwrap(), c);
        let d = ZeroPageXor { lhs: 7, rhs: 8, out: v };
        assert_eq!(ZeroPageXor::from_bytes(&d.to_bytes()).unwrap(), d);
        let e = ZeroPageNegate { input: v, out: 0xFF - v };
        assert_eq!(ZeroPageNegate::from_bytes(&e.to_bytes()).unwrap(), e);
        let f = ZeroPageImmediateLoad { addr: v, imm: w };
        assert_eq!(ZeroPageImmediateLoad::from_bytes(&f.to_bytes()).unwrap(), f);
        let g = ZeroPageLoad { from: w, to: v };
        assert_eq!(ZeroPageLoad::from_bytes(&g.to_bytes()).unwrap(), g);
        let h = ZeroPageStore { from: v, to: w };
        assert_eq!(ZeroPageStore::from_bytes(&h.to_bytes()).unwrap(), h);
        let k = ZeroPageLoadIfPos { cond: v, from: 1, to: 2 };
        assert_eq!(ZeroPageLoadIfPos::from_bytes(&k.to_bytes()).unwrap(), k);
        let inst = Instruction::Store(h);
        assert_eq!(decode(inst.word()), Ok(inst));
    }
}

#[test]
fn decoder_rejects_other_opcode() {
    let word = ZeroPageAnd { lhs: 1, rhs: 2, out: 3 }.to_bytes();
    assert_eq!(ZeroPageAdd::from_bytes(&word), Err(MachineError::FormatViolation));
}

#[test]
fn decode_refuses_multi_word_and_unknown() {
    assert_eq!(decode(0x0300_0000), Err(MachineError::Unsupported));
    assert_eq!(decode(0xFF00_0000), Err(MachineError::Unsupported));
    assert_eq!(decode(0x0800_0000), Err(MachineError::InvalidOpcode));
    assert_eq!(
        decode(0x0C01_0203),
        Ok(Instruction::LoadIfPos(ZeroPageLoadIfPos { cond: 1, from: 2, to: 3 }))
    );
}

#[test]
fn opcode_bytes() {
    assert_eq!(Opcodes::ZeroPageLoadIfPos.byte(), 0b0000_1100);
    assert_eq!(Opcodes::from_u8(0b0000_1001), Some(Opcodes::ZeroPageStore));
    assert_eq!(Opcodes::from_u8(0b0000_1000), None);
}

#[test]
fn program_appends_words() {
    let p = Program::new()
        .push(ZeroPageAdd { lhs: 1, rhs: 2, out: 3 })
        .push(ZeroPageImmediateLoad { addr: 0x10, imm: 0x1234 });
    assert_eq!(p.bytes(), vec![0x0001_0203, 0x0A10_3412]);
    assert!(Program::default().bytes().is_empty());
}

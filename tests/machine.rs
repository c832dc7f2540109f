use tiny_cpu::{
    assemble, binary_text, DebugReply, Machine, MachineError, Stop, DATA, LOAD_ADDRESS,
    MEMORY_WORDS, PC, WRITING,
};

fn load(src: &str) -> Machine {
    let (p, bps) = assemble(src.to_string()).unwrap();
    let mut m = Machine::new()
        .set(PC, LOAD_ADDRESS as u32)
        .program(&p.bytes(), LOAD_ADDRESS)
        .unwrap();
    for b in bps {
        m = m.breakpoint(b);
    }
    m
}

#[test]
fn add_sums_and_advances() {
    let mut m = load("ADD 1 2 3").set(1, 5).set(2, 7);
    assert_eq!(m.step(), Ok(None));
    assert_eq!(m.read(3), 12);
    assert_eq!(m.read(PC), 0x8001);
}

#[test]
fn add_wraps() {
    let mut m = load("ADD 1 2 3").set(1, 0xFFFF_FFFF).set(2, 2);
    m.step().unwrap();
    assert_eq!(m.read(3), 1);
}

#[test]
fn immediate_load_one_step() {
    let mut m = load("LI 0x10 0x1234");
    m.step().unwrap();
    assert_eq!(m.read(0x10), 0x1234);
}

#[test]
fn load_if_pos_negative_leaves_destination() {
    let mut m = load("LP 1 2 3").set(1, 0x8000_0000).set(2, 99).set(3, 7);
    m.step().unwrap();
    assert_eq!(m.read(3), 7);
    let mut z = load("LP 1 2 3").set(1, 0).set(2, 99).set(3, 7);
    z.step().unwrap();
    assert_eq!(z.read(3), 7);
    let mut p = load("LP 1 2 3").set(1, 1).set(2, 99).set(3, 7);
    p.step().unwrap();
    assert_eq!(p.read(3), 99);
}

#[test]
fn negate_is_twos_complement() {
    let mut m = load("NEG 1 2\nNEG 3 4\nNEG 5 6")
        .set(1, 5)
        .set(3, 0x8000_0000)
        .set(5, 0);
    m.step().unwrap();
    m.step().unwrap();
    m.step().unwrap();
    assert_eq!(m.read(2), 0xFFFF_FFFB);
    assert_eq!(m.read(4), 0x8000_0000);
    assert_eq!(m.read(6), 0);
}

#[test]
fn bitwise_and_moves() {
    let mut m = load("AND 1 2 3\nOR 1 2 4\nXOR 1 2 5\nL 0x9000 6\nS 1 0x9001")
        .set(1, 0b1100)
        .set(2, 0b1010)
        .set(0x9000, 42);
    for _ in 0..5 {
        m.step().unwrap();
    }
    assert_eq!(m.read(3), 0b1000);
    assert_eq!(m.read(4), 0b1110);
    assert_eq!(m.read(5), 0b0110);
    assert_eq!(m.read(6), 42);
    assert_eq!(m.read(0x9001), 0b1100);
}

#[test]
fn output_device_emits_once() {
    let mut m = load("S 1 0xFFFF\nLI 2 1\nS 2 0xFFFE\nADD 0 0 9").set(1, 0x41);
    assert_eq!(m.step(), Ok(None));
    assert_eq!(m.read(DATA), 0x41);
    assert_eq!(m.step(), Ok(None));
    assert_eq!(m.step(), Ok(Some(b'A')));
    assert_eq!(m.read(WRITING), 0);
    assert_eq!(m.step(), Ok(None));
}

#[test]
fn writing_pc_jumps() {
    let mut m = load("LI 0 0x9000");
    m.step().unwrap();
    assert_eq!(m.read(PC), 0x9000);
}

#[test]
fn faults_leave_memory() {
    let mut m = Machine::new().set(PC, 0x8000).set(0x8000, 0x0300_0000);
    assert_eq!(m.step(), Err(MachineError::Unsupported));
    assert_eq!(m.read(PC), 0x8000);
    let mut n = Machine::new().set(PC, 0x8000).set(0x8000, 0x0800_0000);
    assert_eq!(n.step(), Err(MachineError::InvalidOpcode));
}

#[test]
fn breakpoint_suspends_then_resumes() {
    let mut m = load("~ADD 1 2 3\nADD 3 3 4").set(1, 5).set(2, 7);
    assert_eq!(m.run(10, false), Ok(Stop::Breakpoint(0x8000)));
    assert_eq!(m.read(3), 0);
    assert_eq!(m.read(PC), 0x8000);
    assert_eq!(m.run(1, true), Ok(Stop::Budget));
    assert_eq!(m.read(3), 12);
    assert_eq!(m.read(PC), 0x8001);
    assert_eq!(m.run(1, false), Ok(Stop::Budget));
    assert_eq!(m.read(4), 24);
}

#[test]
fn run_stops_on_output_and_faults() {
    let mut m = load("S 1 0xFFFF\nLI 2 1\nS 2 0xFFFE")
        .set(1, 0x42)
        .set(0x8003, 0x0800_0000);
    assert_eq!(m.run(100, false), Ok(Stop::Output(0x42)));
    assert_eq!(m.read(PC), 0x8003);
    assert_eq!(m.run(100, false), Err(MachineError::InvalidOpcode));
}

#[test]
fn bounds_are_checked() {
    let mut m = Machine::default();
    assert_eq!(m.read_n(0xFFFF, 2).err(), Some(MachineError::OutOfBounds));
    assert_eq!(m.read_n(0xFFFE, 2).unwrap().len(), 2);
    assert_eq!(m.write_n(0xFFFF, &[1, 2]), Err(MachineError::OutOfBounds));
    assert_eq!(m.read(0xFFFF), 0);
    assert_eq!(m.write_n(0xFFFE, &[1, 2]), Ok(()));
    assert_eq!(m.read(0xFFFF), 2);
    assert_eq!(m.write_bytes(0x10, &[7, 8, 9]), Ok(()));
    assert_eq!(m.read_bytes::<3>(0x10), Ok([7, 8, 9]));
    assert_eq!(m.read_bytes::<2>(0xFFFF), Err(MachineError::OutOfBounds));
    assert!(Machine::new().program(&[1, 2], 0xFFFF).is_err());
    m.write(5, 6);
    assert_eq!(m.read(5), 6);
    assert_eq!(MEMORY_WORDS, 65536);
}

#[test]
fn debugger_commands() {
    let m = Machine::new().set(0x8000, 0xF).breakpoint(0x8000);
    assert!(m.is_breakpoint(0x8000));
    assert!(!m.is_breakpoint(0x8001));
    assert_eq!(m.debug("c"), DebugReply::Continue);
    assert_eq!(m.debug("  continue\n"), DebugReply::Continue);
    assert_eq!(m.debug("cont"), DebugReply::Continue);
    assert_eq!(m.debug("r 8000"), DebugReply::Read(0x8000, 0xF));
    assert_eq!(m.debug("read FFFF"), DebugReply::Read(0xFFFF, 0));
    assert_eq!(m.debug("r"), DebugReply::Invalid);
    assert_eq!(m.debug("r zz"), DebugReply::Invalid);
    assert_eq!(m.debug("r 10000"), DebugReply::Invalid);
    assert_eq!(m.debug("exit"), DebugReply::Exit);
    assert_eq!(m.debug("quit"), DebugReply::Invalid);
}

#[test]
fn binary_text_groups_bits() {
    let t = String::from_utf8(binary_text(0x8000_000F)).unwrap();
    assert_eq!(t, "1000 0000  0000 0000  0000 0000  0000 1111  ");
}

#[test]
fn load_follows_the_load_convention() {
    let m = Machine::load(&[0x0001_0203, 0x0A10_3412], &[0x8001]).unwrap();
    assert_eq!(m.read(PC), 0x8000);
    assert_eq!(m.read(0x8000), 0x0001_0203);
    assert_eq!(m.read(0x8001), 0x0A10_3412);
    assert_eq!(m.read(0x8002), 0);
    assert!(m.is_breakpoint(0x8000));
    assert!(m.is_breakpoint(0x8001));
    assert!(!m.is_breakpoint(0x8002));
    assert!(Machine::load(&vec![0; 0x8000], &[]).is_ok());
    assert_eq!(Machine::load(&vec![0; 0x8001], &[]).err(), Some(MachineError::OutOfBounds));
}

#[test]
fn debugger_trims_unicode_space() {
    let m = Machine::new();
    assert_eq!(m.debug("\u{3000}c\u{a0}"), DebugReply::Continue);
}

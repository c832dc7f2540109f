use vstd::prelude::*;

verus! {

/// An address of the word-indexed memory.
pub type Address = u16;

/// The cell that holds the program counter.
pub const PC: Address = 0x0;

/// The output strobe: a nonzero value emits the byte held at `DATA`.
pub const WRITING: Address = 0xFFFE;

/// The byte to emit when `WRITING` is set.
pub const DATA: Address = 0xFFFF;

/// The address at which a program is loaded and started; it is always a
/// breakpoint.
pub const LOAD_ADDRESS: Address = 0x8000;

/// Why the machine stopped executing.
#[derive(Clone, Copy, Debug, PartialEq, Eq, Structural)]
pub enum MachineError {
    /// The leading byte of a word does not match the decoder that read it.
    FormatViolation,
    /// A multi-word instruction, whose format is not defined.
    Unsupported,
    /// A leading byte that names no instruction.
    InvalidOpcode,
    /// An access past the end of memory.
    OutOfBounds,
}

/// The opcodes of the instruction set.
#[derive(Clone, Copy, Debug, PartialEq, Eq, Structural)]
pub enum Opcodes {
    ZeroPageAdd,
    ZeroPageNeg,
    ZeroPageAnd,
    ZeroPageOr,
    ZeroPageXor,
    ZeroPageLoad,
    ZeroPageStore,
    ZeroPageImmediateLoad,
    ZeroPageLoadIfPos,
}

impl Opcodes {
    pub open spec fn spec_byte(self) -> u8 {
        match self {
            Opcodes::ZeroPageAdd => 0b0000_0000,
            Opcodes::ZeroPageNeg => 0b0000_0001,
            Opcodes::ZeroPageAnd => 0b0000_0010,
            Opcodes::ZeroPageOr => 0b0000_0100,
            Opcodes::ZeroPageXor => 0b0000_0101,
            Opcodes::ZeroPageLoad => 0b0000_0110,
            Opcodes::ZeroPageStore => 0b0000_1001,
            Opcodes::ZeroPageImmediateLoad => 0b0000_1010,
            Opcodes::ZeroPageLoadIfPos => 0b0000_1100,
        }
    }

    /// The opcode that a leading byte names, if any.
    pub open spec fn spec_from_u8(b: u8) -> Option<Opcodes> {
        if b == 0b0000_0000 {
            Some(Opcodes::ZeroPageAdd)
        } else if b == 0b0000_0001 {
            Some(Opcodes::ZeroPageNeg)
        } else if b == 0b0000_0010 {
            Some(Opcodes::ZeroPageAnd)
        } else if b == 0b0000_0100 {
            Some(Opcodes::ZeroPageOr)
        } else if b == 0b0000_0101 {
            Some(Opcodes::ZeroPageXor)
        } else if b == 0b0000_0110 {
            Some(Opcodes::ZeroPageLoad)
        } else if b == 0b0000_1001 {
            Some(Opcodes::ZeroPageStore)
        } else if b == 0b0000_1010 {
            Some(Opcodes::ZeroPageImmediateLoad)
        } else if b == 0b0000_1100 {
            Some(Opcodes::ZeroPageLoadIfPos)
        } else {
            None
        }
    }

    /// The opcode's byte value.
    pub fn byte(&self) -> (r: u8)
        ensures
            r == self.spec_byte(),
    {
        match self {
            Opcodes::ZeroPageAdd => 0b0000_0000,
            Opcodes::ZeroPageNeg => 0b0000_0001,
            Opcodes::ZeroPageAnd => 0b0000_0010,
            Opcodes::ZeroPageOr => 0b0000_0100,
            Opcodes::ZeroPageXor => 0b0000_0101,
            Opcodes::ZeroPageLoad => 0b0000_0110,
            Opcodes::ZeroPageStore => 0b0000_1001,
            Opcodes::ZeroPageImmediateLoad => 0b0000_1010,
            Opcodes::ZeroPageLoadIfPos => 0b0000_1100,
        }
    }

    /// The opcode that a leading byte names, or `None`.
    pub fn from_u8(b: u8) -> (r: Option<Opcodes>)
        ensures
            r == Self::spec_from_u8(b),
            r matches Some(o) ==> o.spec_byte() == b,
    {
        if b == 0b0000_0000 {
            Some(Opcodes::ZeroPageAdd)
        } else if b == 0b0000_0001 {
            Some(Opcodes::ZeroPageNeg)
        } else if b == 0b0000_0010 {
            Some(Opcodes::ZeroPageAnd)
        } else if b == 0b0000_0100 {
            Some(Opcodes::ZeroPageOr)
        } else if b == 0b0000_0101 {
            Some(Opcodes::ZeroPageXor)
        } else if b == 0b0000_0110 {
            Some(Opcodes::ZeroPageLoad)
        } else if b == 0b0000_1001 {
            Some(Opcodes::ZeroPageStore)
        } else if b == 0b0000_1010 {
            Some(Opcodes::ZeroPageImmediateLoad)
        } else if b == 0b0000_1100 {
            Some(Opcodes::ZeroPageLoadIfPos)
        } else {
            None
        }
    }
}

/// A word made of four bytes, the first one most significant.
pub open spec fn pack(b0: u8, b1: u8, b2: u8, b3: u8) -> u32 {
    ((b0 as u32) << 24u32) | ((b1 as u32) << 16u32) | ((b2 as u32) << 8u32) | (b3 as u32)
}

/// The most significant byte of a word.
pub open spec fn byte0(w: u32) -> u8 {
    (w >> 24u32) as u8
}

pub open spec fn byte1(w: u32) -> u8 {
    ((w >> 16u32) & 0xffu32) as u8
}

pub open spec fn byte2(w: u32) -> u8 {
    ((w >> 8u32) & 0xffu32) as u8
}

/// The least significant byte of a word.
pub open spec fn byte3(w: u32) -> u8 {
    (w & 0xffu32) as u8
}

/// A 16-bit value from its low and high byte.
pub open spec fn join_le(lo: u8, hi: u8) -> u16 {
    (lo as u16) | ((hi as u16) << 8u16)
}

pub open spec fn low_byte(v: u16) -> u8 {
    (v & 0xffu16) as u8
}

pub open spec fn high_byte(v: u16) -> u8 {
    (v >> 8u16) as u8
}

/// Splitting a packed word gives back its bytes.
pub proof fn lemma_unpack(b0: u8, b1: u8, b2: u8, b3: u8)
    ensures
        byte0(pack(b0, b1, b2, b3)) == b0,
        byte1(pack(b0, b1, b2, b3)) == b1,
        byte2(pack(b0, b1, b2, b3)) == b2,
        byte3(pack(b0, b1, b2, b3)) == b3,
{
    assert(byte0(pack(b0, b1, b2, b3)) == b0) by (bit_vector);
    assert(byte1(pack(b0, b1, b2, b3)) == b1) by (bit_vector);
    assert(byte2(pack(b0, b1, b2, b3)) == b2) by (bit_vector);
    assert(byte3(pack(b0, b1, b2, b3)) == b3) by (bit_vector);
}

/// Splitting a 16-bit value and joining the halves gives it back.
pub proof fn lemma_split_join(v: u16)
    ensures
        join_le(low_byte(v), high_byte(v)) == v,
{
    assert(join_le(low_byte(v), high_byte(v)) == v) by (bit_vector);
}


/// An instruction of `N` words with its binary encoding.
pub trait Inst<const N: usize>: Sized {
    /// The words that encode the instruction.
    spec fn encoding(&self) -> Seq<u32>;

    /// The instruction that `words` encode, or `None` where the leading
    /// byte is not this kind's opcode.
    spec fn decoding(words: Seq<u32>) -> Option<Self>;

    /// Decodes the instruction, or gives `FormatViolation` where the
    /// leading byte is not this kind's opcode.
    fn from_bytes(bytes: &[u32; N]) -> (r: Result<Self, MachineError>)
        ensures
            match Self::decoding(bytes@) {
                Some(i) => r == Ok::<Self, MachineError>(i),
                None => r == Err::<Self, MachineError>(MachineError::FormatViolation),
            },
    ;

    /// Encodes the instruction.
    fn to_bytes(&self) -> (r: [u32; N])
        ensures
            r@ == self.encoding(),
    ;
}

fn pack_word(b0: u8, b1: u8, b2: u8, b3: u8) -> (r: u32)
    ensures
        r == pack(b0, b1, b2, b3),
{
    ((b0 as u32) << 24u32) | ((b1 as u32) << 16u32) | ((b2 as u32) << 8u32) | (b3 as u32)
}

fn unpack_word(w: u32) -> (r: (u8, u8, u8, u8))
    ensures
        r == (byte0(w), byte1(w), byte2(w), byte3(w)),
{
    ((w >> 24u32) as u8, ((w >> 16u32) & 0xffu32) as u8, ((w >> 8u32) & 0xffu32) as u8, (w & 0xffu32) as u8)
}

fn split_u16(v: u16) -> (r: (u8, u8))
    ensures
        r == (low_byte(v), high_byte(v)),
{
    ((v & 0xffu16) as u8, (v >> 8u16) as u8)
}

fn join_u16(lo: u8, hi: u8) -> (r: u16)
    ensures
        r == join_le(lo, hi),
{
    (lo as u16) | ((hi as u16) << 8u16)
}

/// `mem[out] = mem[lhs] + mem[rhs]`, wrapping.
#[derive(Clone, Copy, Debug, PartialEq, Eq, Structural)]
pub struct ZeroPageAdd {
    pub lhs: u8,
    pub rhs: u8,
    pub out: u8,
}

impl Inst<1> for ZeroPageAdd {
    open spec fn encoding(&self) -> Seq<u32> {
        seq![pack(Opcodes::ZeroPageAdd.spec_byte(), self.lhs, self.rhs, self.out)]
    }

    open spec fn decoding(words: Seq<u32>) -> Option<Self> {
        if words.len() == 1 && byte0(words[0]) == Opcodes::ZeroPageAdd.spec_byte() {
            let w = words[0];
            Some(ZeroPageAdd { lhs: byte1(w), rhs: byte2(w), out: byte3(w) })
        } else {
            None
        }
    }

    fn from_bytes(bytes: &[u32; 1]) -> (r: Result<Self, MachineError>) {
        let (b0, b1, b2, b3) = unpack_word(bytes[0]);
        if b0 != Opcodes::ZeroPageAdd.byte() {
            return Err(MachineError::FormatViolation);
        }
        Ok(ZeroPageAdd { lhs: b1, rhs: b2, out: b3 })
    }

    fn to_bytes(&self) -> (r: [u32; 1]) {
        let w = pack_word(Opcodes::ZeroPageAdd.byte(), self.lhs, self.rhs, self.out);
        let r = [w];
        assert(r@ =~= self.encoding());
        r
    }
}

/// `mem[out] = mem[lhs] & mem[rhs]`.
#[derive(Clone, Copy, Debug, PartialEq, Eq, Structural)]
pub struct ZeroPageAnd {
    pub lhs: u8,
    pub rhs: u8,
    pub out: u8,
}

impl Inst<1> for ZeroPageAnd {
    open spec fn encoding(&self) -> Seq<u32> {
        seq![pack(Opcodes::ZeroPageAnd.spec_byte(), self.lhs, self.rhs, self.out)]
    }

    open spec fn decoding(words: Seq<u32>) -> Option<Self> {
        if words.len() == 1 && byte0(words[0]) == Opcodes::ZeroPageAnd.spec_byte() {
            let w = words[0];
            Some(ZeroPageAnd { lhs: byte1(w), rhs: byte2(w), out: byte3(w) })
        } else {
            None
        }
    }

    fn from_bytes(bytes: &[u32; 1]) -> (r: Result<Self, MachineError>) {
        let (b0, b1, b2, b3) = unpack_word(bytes[0]);
        if b0 != Opcodes::ZeroPageAnd.byte() {
            return Err(MachineError::FormatViolation);
        }
        Ok(ZeroPageAnd { lhs: b1, rhs: b2, out: b3 })
    }

    fn to_bytes(&self) -> (r: [u32; 1]) {
        let w = pack_word(Opcodes::ZeroPageAnd.byte(), self.lhs, self.rhs, self.out);
        let r = [w];
        assert(r@ =~= self.encoding());
        r
    }
}

/// `mem[out] = mem[lhs] | mem[rhs]`.
#[derive(Clone, Copy, Debug, PartialEq, Eq, Structural)]
pub struct ZeroPageOr {
    pub lhs: u8,
    pub rhs: u8,
    pub out: u8,
}

impl Inst<1> for ZeroPageOr {
    open spec fn encoding(&self) -> Seq<u32> {
        seq![pack(Opcodes::ZeroPageOr.spec_byte(), self.lhs, self.rhs, self.out)]
    }

    open spec fn decoding(words: Seq<u32>) -> Option<Self> {
        if words.len() == 1 && byte0(words[0]) == Opcodes::ZeroPageOr.spec_byte() {
            let w = words[0];
            Some(ZeroPageOr { lhs: byte1(w), rhs: byte2(w), out: byte3(w) })
        } else {
            None
        }
    }

    fn from_bytes(bytes: &[u32; 1]) -> (r: Result<Self, MachineError>) {
        let (b0, b1, b2, b3) = unpack_word(bytes[0]);
        if b0 != Opcodes::ZeroPageOr.byte() {
            return Err(MachineError::FormatViolation);
        }
        Ok(ZeroPageOr { lhs: b1, rhs: b2, out: b3 })
    }

    fn to_bytes(&self) -> (r: [u32; 1]) {
        let w = pack_word(Opcodes::ZeroPageOr.byte(), self.lhs, self.rhs, self.out);
        let r = [w];
        assert(r@ =~= self.encoding());
        r
    }
}

/// `mem[out] = mem[lhs] ^ mem[rhs]`.
#[derive(Clone, Copy, Debug, PartialEq, Eq, Structural)]
pub struct ZeroPageXor {
    pub lhs: u8,
    pub rhs: u8,
    pub out: u8,
}

impl Inst<1> for ZeroPageXor {
    open spec fn encoding(&self) -> Seq<u32> {
        seq![pack(Opcodes::ZeroPageXor.spec_byte(), self.lhs, self.rhs, self.out)]
    }

    open spec fn decoding(words: Seq<u32>) -> Option<Self> {
        if words.len() == 1 && byte0(words[0]) == Opcodes::ZeroPageXor.spec_byte() {
            let w = words[0];
            Some(ZeroPageXor { lhs: byte1(w), rhs: byte2(w), out: byte3(w) })
        } else {
            None
        }
    }

    fn from_bytes(bytes: &[u32; 1]) -> (r: Result<Self, MachineError>) {
        let (b0, b1, b2, b3) = unpack_word(bytes[0]);
        if b0 != Opcodes::ZeroPageXor.byte() {
            return Err(MachineError::FormatViolation);
        }
        Ok(ZeroPageXor { lhs: b1, rhs: b2, out: b3 })
    }

    fn to_bytes(&self) -> (r: [u32; 1]) {
        let w = pack_word(Opcodes::ZeroPageXor.byte(), self.lhs, self.rhs, self.out);
        let r = [w];
        assert(r@ =~= self.encoding());
        r
    }
}

/// `mem[out]` becomes the two's-complement negation of `mem[input]`.
#[derive(Clone, Copy, Debug, PartialEq, Eq, Structural)]
pub struct ZeroPageNegate {
    pub input: u8,
    pub out: u8,
}

impl Inst<1> for ZeroPageNegate {
    open spec fn encoding(&self) -> Seq<u32> {
        seq![pack(Opcodes::ZeroPageNeg.spec_byte(), self.input, self.out, 0)]
    }

    open spec fn decoding(words: Seq<u32>) -> Option<Self> {
        if words.len() == 1 && byte0(words[0]) == Opcodes::ZeroPageNeg.spec_byte() {
            let w = words[0];
            Some(ZeroPageNegate { input: byte1(w), out: byte2(w) })
        } else {
            None
        }
    }

    fn from_bytes(bytes: &[u32; 1]) -> (r: Result<Self, MachineError>) {
        let (b0, b1, b2, b3) = unpack_word(bytes[0]);
        if b0 != Opcodes::ZeroPageNeg.byte() {
            return Err(MachineError::FormatViolation);
        }
        Ok(ZeroPageNegate { input: b1, out: b2 })
    }

    fn to_bytes(&self) -> (r: [u32; 1]) {
        let w = pack_word(Opcodes::ZeroPageNeg.byte(), self.input, self.out, 0);
        let r = [w];
        assert(r@ =~= self.encoding());
        r
    }
}

/// `mem[addr] = imm`, zero-extended.
#[derive(Clone, Copy, Debug, PartialEq, Eq, Structural)]
pub struct ZeroPageImmediateLoad {
    pub addr: u8,
    pub imm: u16,
}

impl Inst<1> for ZeroPageImmediateLoad {
    open spec fn encoding(&self) -> Seq<u32> {
        seq![pack(Opcodes::ZeroPageImmediateLoad.spec_byte(), self.addr, low_byte(self.imm), high_byte(self.imm))]
    }

    open spec fn decoding(words: Seq<u32>) -> Option<Self> {
        if words.len() == 1 && byte0(words[0]) == Opcodes::ZeroPageImmediateLoad.spec_byte() {
            let w = words[0];
            Some(ZeroPageImmediateLoad { addr: byte1(w), imm: join_le(byte2(w), byte3(w)) })
        } else {
            None
        }
    }

    fn from_bytes(bytes: &[u32; 1]) -> (r: Result<Self, MachineError>) {
        let (b0, b1, b2, b3) = unpack_word(bytes[0]);
        if b0 != Opcodes::ZeroPageImmediateLoad.byte() {
            return Err(MachineError::FormatViolation);
        }
        Ok(ZeroPageImmediateLoad { addr: b1, imm: join_u16(b2, b3) })
    }

    fn to_bytes(&self) -> (r: [u32; 1]) {
        let (lo, hi) = split_u16(self.imm);
        let w = pack_word(Opcodes::ZeroPageImmediateLoad.byte(), self.addr, lo, hi);
        let r = [w];
        assert(r@ =~= self.encoding());
        r
    }
}

/// `mem[to] = mem[from]`, where `from` spans the whole address space.
#[derive(Clone, Copy, Debug, PartialEq, Eq, Structural)]
pub struct ZeroPageLoad {
    pub from: u16,
    pub to: u8,
}

impl Inst<1> for ZeroPageLoad {
    open spec fn encoding(&self) -> Seq<u32> {
        seq![pack(Opcodes::ZeroPageLoad.spec_byte(), low_byte(self.from), high_byte(self.from), self.to)]
    }

    open spec fn decoding(words: Seq<u32>) -> Option<Self> {
        if words.len() == 1 && byte0(words[0]) == Opcodes::ZeroPageLoad.spec_byte() {
            let w = words[0];
            Some(ZeroPageLoad { from: join_le(byte1(w), byte2(w)), to: byte3(w) })
        } else {
            None
        }
    }

    fn from_bytes(bytes: &[u32; 1]) -> (r: Result<Self, MachineError>) {
        let (b0, b1, b2, b3) = unpack_word(bytes[0]);
        if b0 != Opcodes::ZeroPageLoad.byte() {
            return Err(MachineError::FormatViolation);
        }
        Ok(ZeroPageLoad { from: join_u16(b1, b2), to: b3 })
    }

    fn to_bytes(&self) -> (r: [u32; 1]) {
        let (lo, hi) = split_u16(self.from);
        let w = pack_word(Opcodes::ZeroPageLoad.byte(), lo, hi, self.to);
        let r = [w];
        assert(r@ =~= self.encoding());
        r
    }
}

/// `mem[to] = mem[from]`, where `to` spans the whole address space.
#[derive(Clone, Copy, Debug, PartialEq, Eq, Structural)]
pub struct ZeroPageStore {
    pub from: u8,
    pub to: u16,
}

impl Inst<1> for ZeroPageStore {
    open spec fn encoding(&self) -> Seq<u32> {
        seq![pack(Opcodes::ZeroPageStore.spec_byte(), self.from, low_byte(self.to), high_byte(self.to))]
    }

    open spec fn decoding(words: Seq<u32>) -> Option<Self> {
        if words.len() == 1 && byte0(words[0]) == Opcodes::ZeroPageStore.spec_byte() {
            let w = words[0];
            Some(ZeroPageStore { from: byte1(w), to: join_le(byte2(w), byte3(w)) })
        } else {
            None
        }
    }

    fn from_bytes(bytes: &[u32; 1]) -> (r: Result<Self, MachineError>) {
        let (b0, b1, b2, b3) = unpack_word(bytes[0]);
        if b0 != Opcodes::ZeroPageStore.byte() {
            return Err(MachineError::FormatViolation);
        }
        Ok(ZeroPageStore { from: b1, to: join_u16(b2, b3) })
    }

    fn to_bytes(&self) -> (r: [u32; 1]) {
        let (lo, hi) = split_u16(self.to);
        let w = pack_word(Opcodes::ZeroPageStore.byte(), self.from, lo, hi);
        let r = [w];
        assert(r@ =~= self.encoding());
        r
    }
}

/// `mem[to] = mem[from]` when `mem[cond]`, read as signed, is positive.
#[derive(Clone, Copy, Debug, PartialEq, Eq, Structural)]
pub struct ZeroPageLoadIfPos {
    pub cond: u8,
    pub from: u8,
    pub to: u8,
}

impl Inst<1> for ZeroPageLoadIfPos {
    open spec fn encoding(&self) -> Seq<u32> {
        seq![pack(Opcodes::ZeroPageLoadIfPos.spec_byte(), self.cond, self.from, self.to)]
    }

    open spec fn decoding(words: Seq<u32>) -> Option<Self> {
        if words.len() == 1 && byte0(words[0]) == Opcodes::ZeroPageLoadIfPos.spec_byte() {
            let w = words[0];
            Some(ZeroPageLoadIfPos { cond: byte1(w), from: byte2(w), to: byte3(w) })
        } else {
            None
        }
    }

    fn from_bytes(bytes: &[u32; 1]) -> (r: Result<Self, MachineError>) {
        let (b0, b1, b2, b3) = unpack_word(bytes[0]);
        if b0 != Opcodes::ZeroPageLoadIfPos.byte() {
            return Err(MachineError::FormatViolation);
        }
        Ok(ZeroPageLoadIfPos { cond: b1, from: b2, to: b3 })
    }

    fn to_bytes(&self) -> (r: [u32; 1]) {
        let w = pack_word(Opcodes::ZeroPageLoadIfPos.byte(), self.cond, self.from, self.to);
        let r = [w];
        assert(r@ =~= self.encoding());
        r
    }
}

/// One instruction of any kind.
#[derive(Clone, Copy, Debug, PartialEq, Eq, Structural)]
pub enum Instruction {
    Add(ZeroPageAdd),
    Neg(ZeroPageNegate),
    And(ZeroPageAnd),
    Or(ZeroPageOr),
    Xor(ZeroPageXor),
    Load(ZeroPageLoad),
    Store(ZeroPageStore),
    ImmediateLoad(ZeroPageImmediateLoad),
    LoadIfPos(ZeroPageLoadIfPos),
}

impl Instruction {
    /// The word that encodes the instruction.
    pub open spec fn spec_word(self) -> u32 {
        match self {
            Instruction::Add(i) => i.encoding()[0],
            Instruction::Neg(i) => i.encoding()[0],
            Instruction::And(i) => i.encoding()[0],
            Instruction::Or(i) => i.encoding()[0],
            Instruction::Xor(i) => i.encoding()[0],
            Instruction::Load(i) => i.encoding()[0],
            Instruction::Store(i) => i.encoding()[0],
            Instruction::ImmediateLoad(i) => i.encoding()[0],
            Instruction::LoadIfPos(i) => i.encoding()[0],
        }
    }

    /// The word that encodes the instruction.
    pub fn word(&self) -> (r: u32)
        ensures
            r == self.spec_word(),
    {
        match self {
            Instruction::Add(i) => i.to_bytes()[0],
            Instruction::Neg(i) => i.to_bytes()[0],
            Instruction::And(i) => i.to_bytes()[0],
            Instruction::Or(i) => i.to_bytes()[0],
            Instruction::Xor(i) => i.to_bytes()[0],
            Instruction::Load(i) => i.to_bytes()[0],
            Instruction::Store(i) => i.to_bytes()[0],
            Instruction::ImmediateLoad(i) => i.to_bytes()[0],
            Instruction::LoadIfPos(i) => i.to_bytes()[0],
        }
    }
}

/// Whether the two low bits of an opcode mark a multi-word format.
pub open spec fn is_multi_word(op: u8) -> bool {
    op & 0b11u8 == 0b11u8
}

/// The instruction a word encodes: the multi-word format is refused
/// first, then a leading byte that names no opcode.
pub open spec fn spec_decode(w: u32) -> Result<Instruction, MachineError> {
    let op = byte0(w);
    if is_multi_word(op) {
        Err(MachineError::Unsupported)
    } else {
        match Opcodes::spec_from_u8(op) {
            None => Err(MachineError::InvalidOpcode),
                Some(Opcodes::ZeroPageAdd) => Ok(Instruction::Add(ZeroPageAdd::decoding(seq![w]).unwrap())),
                Some(Opcodes::ZeroPageNeg) => Ok(Instruction::Neg(ZeroPageNegate::decoding(seq![w]).unwrap())),
                Some(Opcodes::ZeroPageAnd) => Ok(Instruction::And(ZeroPageAnd::decoding(seq![w]).unwrap())),
                Some(Opcodes::ZeroPageOr) => Ok(Instruction::Or(ZeroPageOr::decoding(seq![w]).unwrap())),
                Some(Opcodes::ZeroPageXor) => Ok(Instruction::Xor(ZeroPageXor::decoding(seq![w]).unwrap())),
                Some(Opcodes::ZeroPageLoad) => Ok(Instruction::Load(ZeroPageLoad::decoding(seq![w]).unwrap())),
                Some(Opcodes::ZeroPageStore) => Ok(Instruction::Store(ZeroPageStore::decoding(seq![w]).unwrap())),
                Some(Opcodes::ZeroPageImmediateLoad) => Ok(Instruction::ImmediateLoad(ZeroPageImmediateLoad::decoding(seq![w]).unwrap())),
                Some(Opcodes::ZeroPageLoadIfPos) => Ok(Instruction::LoadIfPos(ZeroPageLoadIfPos::decoding(seq![w]).unwrap())),
        }
    }
}

/// Decodes one word, reading its opcode once and handing the word to
/// that kind's decoder.
pub fn decode(w: u32) -> (r: Result<Instruction, MachineError>)
    ensures
        r == spec_decode(w),
{
    let (op, _, _, _) = unpack_word(w);
    if op & 0b11u8 == 0b11u8 {
        return Err(MachineError::Unsupported);
    }
    let kind = match Opcodes::from_u8(op) {
        Some(k) => k,
        None => return Err(MachineError::InvalidOpcode),
    };
    proof {
        assert([w]@ =~= seq![w]);
    }
    match kind {
            Opcodes::ZeroPageAdd => match ZeroPageAdd::from_bytes(&[w]) {
                Ok(i) => Ok(Instruction::Add(i)),
                Err(e) => Err(e),
            },
            Opcodes::ZeroPageNeg => match ZeroPageNegate::from_bytes(&[w]) {
                Ok(i) => Ok(Instruction::Neg(i)),
                Err(e) => Err(e),
            },
            Opcodes::ZeroPageAnd => match ZeroPageAnd::from_bytes(&[w]) {
                Ok(i) => Ok(Instruction::And(i)),
                Err(e) => Err(e),
            },
            Opcodes::ZeroPageOr => match ZeroPageOr::from_bytes(&[w]) {
                Ok(i) => Ok(Instruction::Or(i)),
                Err(e) => Err(e),
            },
            Opcodes::ZeroPageXor => match ZeroPageXor::from_bytes(&[w]) {
                Ok(i) => Ok(Instruction::Xor(i)),
                Err(e) => Err(e),
            },
            Opcodes::ZeroPageLoad => match ZeroPageLoad::from_bytes(&[w]) {
                Ok(i) => Ok(Instruction::Load(i)),
                Err(e) => Err(e),
            },
            Opcodes::ZeroPageStore => match ZeroPageStore::from_bytes(&[w]) {
                Ok(i) => Ok(Instruction::Store(i)),
                Err(e) => Err(e),
            },
            Opcodes::ZeroPageImmediateLoad => match ZeroPageImmediateLoad::from_bytes(&[w]) {
                Ok(i) => Ok(Instruction::ImmediateLoad(i)),
                Err(e) => Err(e),
            },
            Opcodes::ZeroPageLoadIfPos => match ZeroPageLoadIfPos::from_bytes(&[w]) {
                Ok(i) => Ok(Instruction::LoadIfPos(i)),
                Err(e) => Err(e),
            },
    }
}

/// No opcode of the instruction set is of the multi-word format.
proof fn lemma_single_word(o: Opcodes)
    ensures
        !is_multi_word(o.spec_byte()),
{
    assert(0u8 & 0b11u8 != 0b11u8) by (bit_vector);
    assert(1u8 & 0b11u8 != 0b11u8) by (bit_vector);
    assert(2u8 & 0b11u8 != 0b11u8) by (bit_vector);
    assert(4u8 & 0b11u8 != 0b11u8) by (bit_vector);
    assert(5u8 & 0b11u8 != 0b11u8) by (bit_vector);
    assert(6u8 & 0b11u8 != 0b11u8) by (bit_vector);
    assert(9u8 & 0b11u8 != 0b11u8) by (bit_vector);
    assert(10u8 & 0b11u8 != 0b11u8) by (bit_vector);
    assert(12u8 & 0b11u8 != 0b11u8) by (bit_vector);
}

/// Decoding an encoded instruction gives it back, for every kind and
/// every value of its fields, both from the kind's own words and from
/// the single word through `spec_decode`.
pub proof fn lemma_round_trip(i: Instruction)
    ensures
        spec_decode(i.spec_word()) == Ok::<Instruction, MachineError>(i),
        match i {
            Instruction::Add(x) => ZeroPageAdd::decoding(x.encoding()) == Some(x),
            Instruction::Neg(x) => ZeroPageNegate::decoding(x.encoding()) == Some(x),
            Instruction::And(x) => ZeroPageAnd::decoding(x.encoding()) == Some(x),
            Instruction::Or(x) => ZeroPageOr::decoding(x.encoding()) == Some(x),
            Instruction::Xor(x) => ZeroPageXor::decoding(x.encoding()) == Some(x),
            Instruction::Load(x) => ZeroPageLoad::decoding(x.encoding()) == Some(x),
            Instruction::Store(x) => ZeroPageStore::decoding(x.encoding()) == Some(x),
            Instruction::ImmediateLoad(x) => ZeroPageImmediateLoad::decoding(x.encoding()) == Some(x),
            Instruction::LoadIfPos(x) => ZeroPageLoadIfPos::decoding(x.encoding()) == Some(x),
        },
{
    match i {
        Instruction::Add(x) => {
            lemma_single_word(Opcodes::ZeroPageAdd);
            let w = x.encoding()[0];
            assert(seq![w] =~= x.encoding());
            lemma_unpack(Opcodes::ZeroPageAdd.spec_byte(), x.lhs, x.rhs, x.out);
        },
        Instruction::Neg(x) => {
            lemma_single_word(Opcodes::ZeroPageNeg);
            let w = x.encoding()[0];
            assert(seq![w] =~= x.encoding());
            lemma_unpack(Opcodes::ZeroPageNeg.spec_byte(), x.input, x.out, 0);
        },
        Instruction::And(x) => {
            lemma_single_word(Opcodes::ZeroPageAnd);
            let w = x.encoding()[0];
            assert(seq![w] =~= x.encoding());
            lemma_unpack(Opcodes::ZeroPageAnd.spec_byte(), x.lhs, x.rhs, x.out);
        },
        Instruction::Or(x) => {
            lemma_single_word(Opcodes::ZeroPageOr);
            let w = x.encoding()[0];
            assert(seq![w] =~= x.encoding());
            lemma_unpack(Opcodes::ZeroPageOr.spec_byte(), x.lhs, x.rhs, x.out);
        },
        Instruction::Xor(x) => {
            lemma_single_word(Opcodes::ZeroPageXor);
            let w = x.encoding()[0];
            assert(seq![w] =~= x.encoding());
            lemma_unpack(Opcodes::ZeroPageXor.spec_byte(), x.lhs, x.rhs, x.out);
        },
        Instruction::Load(x) => {
            lemma_single_word(Opcodes::ZeroPageLoad);
            let w = x.encoding()[0];
            assert(seq![w] =~= x.encoding());
            lemma_unpack(Opcodes::ZeroPageLoad.spec_byte(), low_byte(x.from), high_byte(x.from), x.to);
            lemma_split_join(x.from);
        },
        Instruction::Store(x) => {
            lemma_single_word(Opcodes::ZeroPageStore);
            let w = x.encoding()[0];
            assert(seq![w] =~= x.encoding());
            lemma_unpack(Opcodes::ZeroPageStore.spec_byte(), x.from, low_byte(x.to), high_byte(x.to));
            lemma_split_join(x.to);
        },
        Instruction::ImmediateLoad(x) => {
            lemma_single_word(Opcodes::ZeroPageImmediateLoad);
            let w = x.encoding()[0];
            assert(seq![w] =~= x.encoding());
            lemma_unpack(Opcodes::ZeroPageImmediateLoad.spec_byte(), x.addr, low_byte(x.imm), high_byte(x.imm));
            lemma_split_join(x.imm);
        },
        Instruction::LoadIfPos(x) => {
            lemma_single_word(Opcodes::ZeroPageLoadIfPos);
            let w = x.encoding()[0];
            assert(seq![w] =~= x.encoding());
            lemma_unpack(Opcodes::ZeroPageLoadIfPos.spec_byte(), x.cond, x.from, x.to);
        },
    }
}

/// An instruction stream, flattened to words.
pub struct Program {
    program: Vec<u32>,
}

impl View for Program {
    type V = Seq<u32>;

    closed spec fn view(&self) -> Seq<u32> {
        self.program@
    }
}

impl Program {
    /// An empty program.
    pub fn new() -> (r: Self)
        ensures
            r@ == Seq::<u32>::empty(),
    {
        Program { program: Vec::new() }
    }

    /// The program with the words of `inst` appended.
    pub fn push<const N: usize, I: Inst<N>>(self, inst: I) -> (r: Self)
        ensures
            r@ == self@ + inst.encoding(),
    {
        let words = inst.to_bytes();
        let mut program = self.program;
        let mut i: usize = 0;
        while i < N
            invariant
                i <= N,
                words@.len() == N,
                program@ == self@ + words@.subrange(0, i as int),
            decreases N - i,
        {
            program.push(words[i]);
            i = i + 1;
            assert(program@ =~= self@ + words@.subrange(0, i as int));
        }
        assert(words@.subrange(0, i as int) =~= words@);
        Program { program }
    }

    /// The program's words, in order.
    pub fn bytes(self) -> (r: Vec<u32>)
        ensures
            r@ == self@,
    {
        self.program
    }
}

impl Default for Program {
    fn default() -> (r: Self)
        ensures
            r@ == Seq::<u32>::empty(),
    {
        Program::new()
    }
}

} // verus!

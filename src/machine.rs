use vstd::prelude::*;

use crate::codec::{
    decode, spec_decode, Address, Instruction, MachineError, ZeroPageLoadIfPos, DATA, LOAD_ADDRESS, PC, WRITING,
};

verus! {

/// The number of words in the address space.
pub const MEMORY_WORDS: usize = 65536;

/// Relies on bytemuck::cast::<u32, i32>: the same four bytes read as a
/// two's-complement signed value.
#[verifier::external_body]
fn as_signed(w: u32) -> (r: i32)
    ensures
        r as int == signed_value(w),
{
    bytemuck::cast::<u32, i32>(w)
}

/// Relies on bytemuck::cast::<i32, u32>: the same four bytes read as an
/// unsigned value.
#[verifier::external_body]
fn as_unsigned(v: i32) -> (r: u32)
    ensures
        r as int == if v >= 0 { v as int } else { v as int + 0x1_0000_0000 },
{
    bytemuck::cast::<i32, u32>(v)
}

/// A word read as a two's-complement signed value.
pub open spec fn signed_value(w: u32) -> int {
    if w < 0x8000_0000 {
        w as int
    } else {
        w as int - 0x1_0000_0000
    }
}

/// The two's-complement negation of a word.
pub open spec fn negated(w: u32) -> u32 {
    if w == 0 {
        0
    } else {
        (0x1_0000_0000 - w) as u32
    }
}

/// The sum of two words, wrapping.
pub open spec fn wrapped_sum(a: u32, b: u32) -> u32 {
    if a + b > u32::MAX {
        (a + b - 0x1_0000_0000) as u32
    } else {
        (a + b) as u32
    }
}

/// Memory after an instruction's effect, before the output device and
/// the program counter are looked at.
pub open spec fn execute(mem: Seq<u32>, i: Instruction) -> Seq<u32> {
    match i {
        Instruction::Add(x) => mem.update(
            x.out as int,
            wrapped_sum(mem[x.lhs as int], mem[x.rhs as int]),
        ),
        Instruction::Neg(x) => mem.update(x.out as int, negated(mem[x.input as int])),
        Instruction::And(x) => mem.update(x.out as int, mem[x.lhs as int] & mem[x.rhs as int]),
        Instruction::Or(x) => mem.update(x.out as int, mem[x.lhs as int] | mem[x.rhs as int]),
        Instruction::Xor(x) => mem.update(x.out as int, mem[x.lhs as int] ^ mem[x.rhs as int]),
        Instruction::Load(x) => mem.update(x.to as int, mem[x.from as int]),
        Instruction::Store(x) => mem.update(x.to as int, mem[x.from as int]),
        Instruction::ImmediateLoad(x) => mem.update(x.addr as int, x.imm as u32),
        Instruction::LoadIfPos(x) => if signed_value(mem[x.cond as int]) > 0 {
            mem.update(x.to as int, mem[x.from as int])
        } else {
            mem
        },
    }
}

/// The fetch address: the program counter's cell cut to an address.
pub open spec fn pc_of(mem: Seq<u32>) -> Address {
    mem[PC as int] as Address
}

/// One step of the machine from memory `mem`: fetch at the program
/// counter, decode, execute, serve the output device, and advance the
/// program counter by one word unless the instruction moved it. Gives
/// the memory after the step and the byte emitted, if any.
pub open spec fn spec_step(mem: Seq<u32>) -> Result<(Seq<u32>, Option<u8>), MachineError> {
    let pc = pc_of(mem);
    match spec_decode(mem[pc as int]) {
        Err(e) => Err(e),
        Ok(i) => {
            let m1 = execute(mem, i);
            let out = if m1[WRITING as int] != 0 {
                Some(m1[DATA as int] as u8)
            } else {
                None::<u8>
            };
            let m2 = if m1[WRITING as int] != 0 {
                m1.update(WRITING as int, 0)
            } else {
                m1
            };
            let m3 = if pc_of(m2) == pc {
                m2.update(PC as int, (pc + 1) as u32)
            } else {
                m2
            };
            Ok((m3, out))
        },
    }
}

/// Why a run stopped without a fault.
#[derive(Clone, Copy, Debug, PartialEq, Eq, Structural)]
pub enum Stop {
    /// The program counter reached a breakpoint; nothing of the
    /// instruction there has been executed.
    Breakpoint(Address),
    /// An instruction emitted this byte through the output device.
    Output(u8),
    /// The number of steps asked for has been executed.
    Budget,
}

/// What `steps` iterations of the run loop do from memory `mem`: stop at
/// a breakpoint before executing there (unless `resume` and this is the
/// first iteration), after an instruction that emitted a byte, on a
/// fault, or when the steps are spent. Gives the memory then and why it
/// stopped.
pub open spec fn spec_run(mem: Seq<u32>, bps: Seq<Address>, steps: nat, resume: bool) -> (
    Seq<u32>,
    Result<Stop, MachineError>,
)
    decreases steps,
{
    if steps == 0 {
        (mem, Ok(Stop::Budget))
    } else if bps.contains(pc_of(mem)) && !resume {
        (mem, Ok(Stop::Breakpoint(pc_of(mem))))
    } else {
        match spec_step(mem) {
            Err(e) => (mem, Err(e)),
            Ok((m, Some(c))) => (m, Ok(Stop::Output(c))),
            Ok((m, None)) => spec_run(m, bps, (steps - 1) as nat, false),
        }
    }
}

/// `mem` with the words from `addr` on replaced by `data`.
pub open spec fn overwrite(mem: Seq<u32>, addr: int, data: Seq<u32>) -> Seq<u32> {
    mem.subrange(0, addr) + data + mem.subrange(addr + data.len(), mem.len() as int)
}

/// The machine: its whole memory and its breakpoints.
#[derive(Clone, Debug)]
pub struct Machine {
    memory: Vec<u32>,
    breakpoints: Vec<Address>,
}

impl Machine {
    /// The memory, one word per address.
    pub closed spec fn mem(&self) -> Seq<u32> {
        self.memory@
    }

    /// The breakpoint addresses, in the order they were added.
    pub closed spec fn bps(&self) -> Seq<Address> {
        self.breakpoints@
    }

    pub open spec fn wf(&self) -> bool {
        self.mem().len() == MEMORY_WORDS
    }

    /// A machine with all memory zero and no breakpoints.
    pub fn new() -> (r: Self)
        ensures
            r.wf(),
            r.mem() == Seq::new(MEMORY_WORDS as nat, |i: int| 0u32),
            r.bps() == Seq::<Address>::empty(),
    {
        let mut memory: Vec<u32> = Vec::new();
        let mut i: usize = 0;
        while i < MEMORY_WORDS
            invariant
                i <= MEMORY_WORDS,
                memory@ == Seq::new(i as nat, |k: int| 0u32),
            decreases MEMORY_WORDS - i,
        {
            memory.push(0);
            i = i + 1;
            assert(memory@ =~= Seq::new(i as nat, |k: int| 0u32));
        }
        Machine { memory, breakpoints: Vec::new() }
    }

    /// The word at `addr`.
    pub fn read(&self, addr: Address) -> (r: u32)
        requires
            self.wf(),
        ensures
            r == self.mem()[addr as int],
    {
        self.memory[addr as usize]
    }

    /// Stores `value` at `addr`.
    pub fn write(&mut self, addr: Address, value: u32)
        requires
            old(self).wf(),
        ensures
            final(self).wf(),
            final(self).mem() == old(self).mem().update(addr as int, value),
            final(self).bps() == old(self).bps(),
    {
        self.memory.set(addr as usize, value);
    }

    /// The `len` words from `addr` on, or `OutOfBounds` where they run
    /// past the end of memory.
    pub fn read_n(&self, addr: Address, len: usize) -> (r: Result<&[u32], MachineError>)
        requires
            self.wf(),
        ensures
            addr as int + len as int <= MEMORY_WORDS <==> r is Ok,
            r matches Ok(s) ==> s@ == self.mem().subrange(addr as int, addr as int + len as int),
            r matches Err(e) ==> e == MachineError::OutOfBounds,
    {
        if len > MEMORY_WORDS - addr as usize {
            return Err(MachineError::OutOfBounds);
        }
        Ok(vstd::slice::slice_subrange(self.memory.as_slice(), addr as usize, addr as usize + len))
    }

    /// Copies `data` into memory from `addr` on, or gives `OutOfBounds`
    /// and changes nothing where it would run past the end of memory.
    pub fn write_n(&mut self, addr: Address, data: &[u32]) -> (r: Result<(), MachineError>)
        requires
            old(self).wf(),
        ensures
            final(self).wf(),
            final(self).bps() == old(self).bps(),
            addr as int + data@.len() <= MEMORY_WORDS <==> r is Ok,
            r is Ok ==> final(self).mem() == overwrite(old(self).mem(), addr as int, data@),
            r matches Err(e) ==> e == MachineError::OutOfBounds && final(self).mem() == old(self).mem(),
    {
        if data.len() > MEMORY_WORDS - addr as usize {
            return Err(MachineError::OutOfBounds);
        }
        let ghost before = self.mem();
        let mut i: usize = 0;
        while i < data.len()
            invariant
                self.wf(),
                self.bps() == old(self).bps(),
                before == old(self).mem(),
                addr as int + data@.len() <= MEMORY_WORDS,
                i <= data@.len(),
                forall|k: int|
                    0 <= k < MEMORY_WORDS ==> #[trigger] self.mem()[k] == if addr <= k < addr + i {
                        data@[k - addr]
                    } else {
                        before[k]
                    },
            decreases data@.len() - i,
        {
            self.memory.set(addr as usize + i, data[i]);
            i = i + 1;
        }
        assert(self.mem() =~= overwrite(before, addr as int, data@));
        Ok(())
    }

    /// Performs an instruction's effect on memory.
    fn apply(&mut self, inst: Instruction)
        requires
            old(self).wf(),
        ensures
            final(self).wf(),
            final(self).bps() == old(self).bps(),
            final(self).mem() == execute(old(self).mem(), inst),
    {
        match inst {
            Instruction::Add(x) => {
                let v = self.read(x.lhs as Address).wrapping_add(self.read(x.rhs as Address));
                self.write(x.out as Address, v);
            },
            Instruction::Neg(x) => {
                let s = as_signed(self.read(x.input as Address));
                let n = if s == i32::MIN {
                    s
                } else {
                    -s
                };
                self.write(x.out as Address, as_unsigned(n));
            },
            Instruction::And(x) => {
                let v = self.read(x.lhs as Address) & self.read(x.rhs as Address);
                self.write(x.out as Address, v);
            },
            Instruction::Or(x) => {
                let v = self.read(x.lhs as Address) | self.read(x.rhs as Address);
                self.write(x.out as Address, v);
            },
            Instruction::Xor(x) => {
                let v = self.read(x.lhs as Address) ^ self.read(x.rhs as Address);
                self.write(x.out as Address, v);
            },
            Instruction::Load(x) => {
                let v = self.read(x.from);
                self.write(x.to as Address, v);
            },
            Instruction::Store(x) => {
                let v = self.read(x.from as Address);
                self.write(x.to, v);
            },
            Instruction::ImmediateLoad(x) => {
                self.write(x.addr as Address, x.imm as u32);
            },
            Instruction::LoadIfPos(x) => {
                if as_signed(self.read(x.cond as Address)) > 0 {
                    let v = self.read(x.from as Address);
                    self.write(x.to as Address, v);
                }
            },
        }
    }

    /// Executes the instruction at the program counter, as `spec_step`
    /// describes, and gives the byte it emitted, if any. On a fault
    /// memory is left as it was.
    pub fn step(&mut self) -> (r: Result<Option<u8>, MachineError>)
        requires
            old(self).wf(),
        ensures
            final(self).wf(),
            final(self).bps() == old(self).bps(),
            match spec_step(old(self).mem()) {
                Ok((m, o)) => r == Ok::<Option<u8>, MachineError>(o) && final(self).mem() == m,
                Err(e) => r == Err::<Option<u8>, MachineError>(e) && final(self).mem() == old(
                    self,
                ).mem(),
            },
    {
        let pc = self.read(PC) as Address;
        let inst = match decode(self.read(pc)) {
            Ok(i) => i,
            Err(e) => return Err(e),
        };
        self.apply(inst);
        let mut out: Option<u8> = None;
        if self.read(WRITING) != 0 {
            out = Some(self.read(DATA) as u8);
            self.write(WRITING, 0);
        }
        if pc == self.read(PC) as Address {
            self.write(PC, pc as u32 + 1);
        }
        Ok(out)
    }

    /// Whether `addr` is one of the breakpoints.
    pub fn is_breakpoint(&self, addr: Address) -> (r: bool)
        ensures
            r == self.bps().contains(addr),
    {
        let mut i: usize = 0;
        while i < self.breakpoints.len()
            invariant
                i <= self.bps().len(),
                forall|k: int| 0 <= k < i ==> self.bps()[k] != addr,
            decreases self.bps().len() - i,
        {
            if self.breakpoints[i] == addr {
                return true;
            }
            i = i + 1;
        }
        false
    }

    /// Runs the machine for at most `steps` instructions. It stops before
    /// executing at a breakpoint, except at the first instruction where
    /// `resume` is set (to go on from the breakpoint it last stopped
    /// at), after an instruction that emitted a byte, and on a fault.
    pub fn run(&mut self, steps: u64, resume: bool) -> (r: Result<Stop, MachineError>)
        requires
            old(self).wf(),
        ensures
            final(self).wf(),
            final(self).bps() == old(self).bps(),
            (final(self).mem(), r) == spec_run(old(self).mem(), old(self).bps(), steps as nat, resume),
    {
        let mut left = steps;
        let mut skip = resume;
        loop
            invariant
                self.wf(),
                self.bps() == old(self).bps(),
                spec_run(old(self).mem(), old(self).bps(), steps as nat, resume) == spec_run(
                    self.mem(),
                    self.bps(),
                    left as nat,
                    skip,
                ),
            decreases left,
        {
            if left == 0 {
                return Ok(Stop::Budget);
            }
            let pc = self.read(PC) as Address;
            if !skip && self.is_breakpoint(pc) {
                return Ok(Stop::Breakpoint(pc));
            }
            match self.step() {
                Err(e) => return Err(e),
                Ok(Some(c)) => return Ok(Stop::Output(c)),
                Ok(None) => {},
            }
            left = left - 1;
            skip = false;
        }
    }

    /// The machine with `program` copied into memory from `addr` on, or
    /// `OutOfBounds` where it would run past the end of memory.
    pub fn program(self, program: &[u32], addr: Address) -> (r: Result<Self, MachineError>)
        requires
            self.wf(),
        ensures
            addr as int + program@.len() <= MEMORY_WORDS <==> r is Ok,
            r matches Ok(m) ==> m.wf() && m.bps() == self.bps() && m.mem() == overwrite(
                self.mem(),
                addr as int,
                program@,
            ),
            r matches Err(e) ==> e == MachineError::OutOfBounds,
    {
        let mut m = self;
        match m.write_n(addr, program) {
            Ok(()) => Ok(m),
            Err(e) => Err(e),
        }
    }

    /// A fresh machine ready to run `program`: memory zero but for the
    /// program copied in from `LOAD_ADDRESS` on and the program counter set
    /// to `LOAD_ADDRESS`; breakpoints at `LOAD_ADDRESS`, then at `bps`. Gives
    /// `OutOfBounds` where the program does not fit below the end of memory.
    pub fn load(program: &[u32], bps: &[Address]) -> (r: Result<Machine, MachineError>)
        ensures
            program@.len() <= 0x8000 <==> r is Ok,
            r matches Ok(m) ==> m.wf() && m.mem() == overwrite(
                Seq::new(MEMORY_WORDS as nat, |i: int| 0u32).update(PC as int, LOAD_ADDRESS as u32),
                LOAD_ADDRESS as int,
                program@,
            ) && m.bps() == seq![LOAD_ADDRESS] + bps@,
            r matches Err(e) ==> e == MachineError::OutOfBounds,
    {
        let m = Machine::new().set(PC, LOAD_ADDRESS as u32);
        let mut m = match m.program(program, LOAD_ADDRESS) {
            Ok(m) => m.breakpoint(LOAD_ADDRESS),
            Err(e) => return Err(e),
        };
        let ghost mem = m.mem();
        let mut i: usize = 0;
        assert(bps@.subrange(0, 0) =~= Seq::<Address>::empty());
        assert(m.bps() =~= seq![LOAD_ADDRESS]);
        while i < bps.len()
            invariant
                i <= bps@.len(),
                m.wf(),
                m.mem() == mem,
                m.bps() == seq![LOAD_ADDRESS] + bps@.subrange(0, i as int),
            decreases bps@.len() - i,
        {
            m = m.breakpoint(bps[i]);
            i = i + 1;
            assert(m.bps() =~= seq![LOAD_ADDRESS] + bps@.subrange(0, i as int));
        }
        assert(bps@.subrange(0, i as int) =~= bps@);
        Ok(m)
    }

    /// The machine with one more breakpoint, at `addr`.
    pub fn breakpoint(self, addr: Address) -> (r: Self)
        ensures
            r.mem() == self.mem(),
            r.bps() == self.bps().push(addr),
    {
        let mut m = self;
        m.breakpoints.push(addr);
        m
    }

    /// The machine with `value` stored at `addr`.
    pub fn set(self, addr: Address, value: u32) -> (r: Self)
        requires
            self.wf(),
        ensures
            r.wf(),
            r.mem() == self.mem().update(addr as int, value),
            r.bps() == self.bps(),
    {
        let mut m = self;
        m.write(addr, value);
        m
    }

    /// The `N` words from `addr` on, or `OutOfBounds` where they run past
    /// the end of memory.
    pub fn read_bytes<const N: usize>(&self, addr: Address) -> (r: Result<[u32; N], MachineError>)
        requires
            self.wf(),
        ensures
            addr as int + N <= MEMORY_WORDS <==> r is Ok,
            r matches Ok(a) ==> a@ == self.mem().subrange(addr as int, addr as int + N),
            r matches Err(e) ==> e == MachineError::OutOfBounds,
    {
        if N > MEMORY_WORDS - addr as usize {
            return Err(MachineError::OutOfBounds);
        }
        let mut a: [u32; N] = vstd::array::array_fill_for_copy_types(0u32);
        let mut i: usize = 0;
        while i < N
            invariant
                self.wf(),
                addr as int + N <= MEMORY_WORDS,
                i <= N,
                a@.len() == N,
                forall|k: int| 0 <= k < i ==> #[trigger] a@[k] == self.mem()[addr as int + k],
            decreases N - i,
        {
            a[i] = self.memory[addr as usize + i];
            i = i + 1;
        }
        assert(a@ =~= self.mem().subrange(addr as int, addr as int + N));
        Ok(a)
    }

    /// Copies the `N` words of `data` into memory from `addr` on, or gives
    /// `OutOfBounds` and changes nothing where they would run past the end
    /// of memory.
    pub fn write_bytes<const N: usize>(&mut self, addr: Address, data: &[u32; N]) -> (r: Result<
        (),
        MachineError,
    >)
        requires
            old(self).wf(),
        ensures
            final(self).wf(),
            final(self).bps() == old(self).bps(),
            addr as int + N <= MEMORY_WORDS <==> r is Ok,
            r is Ok ==> final(self).mem() == overwrite(old(self).mem(), addr as int, data@),
            r matches Err(e) ==> e == MachineError::OutOfBounds && final(self).mem() == old(
                self,
            ).mem(),
    {
        self.write_n(addr, vstd::array::array_as_slice(data))
    }
}

impl Default for Machine {
    fn default() -> (r: Self)
        ensures
            r.wf(),
            r.mem() == Seq::new(MEMORY_WORDS as nat, |i: int| 0u32),
            r.bps() == Seq::<Address>::empty(),
    {
        Machine::new()
    }
}

/// A conditional load whose condition word has its top bit set (a
/// negative value when read as signed) leaves memory unchanged.
pub proof fn lemma_load_if_pos_negative(mem: Seq<u32>, x: ZeroPageLoadIfPos)
    requires
        mem[x.cond as int] >= 0x8000_0000,
    ensures
        execute(mem, Instruction::LoadIfPos(x)) == mem,
{
}

/// After every step that does not fault the output strobe is clear, and
/// the step emitted a byte, the low byte of `DATA`, exactly when its
/// instruction left the strobe set.
pub proof fn lemma_output_strobe(mem: Seq<u32>)
    requires
        mem.len() == MEMORY_WORDS,
    ensures
        spec_step(mem) matches Ok((m, o)) ==> {
            let i = spec_decode(mem[pc_of(mem) as int])->Ok_0;
            let m1 = execute(mem, i);
            &&& m[WRITING as int] == 0
            &&& o == if m1[WRITING as int] != 0 {
                Some(m1[DATA as int] as u8)
            } else {
                None
            }
        },
{
}

/// A run that reaches a breakpoint stops there before the instruction
/// has any effect, and a run resumed from it starts by executing exactly
/// that instruction.
pub proof fn lemma_breakpoint_suspends(mem: Seq<u32>, bps: Seq<Address>, steps: nat)
    requires
        steps > 0,
        bps.contains(pc_of(mem)),
    ensures
        spec_run(mem, bps, steps, false) == (mem, Ok::<Stop, MachineError>(Stop::Breakpoint(pc_of(mem)))),
        spec_run(mem, bps, steps, true) == match spec_step(mem) {
            Err(e) => (mem, Err(e)),
            Ok((m, Some(c))) => (m, Ok(Stop::Output(c))),
            Ok((m, None)) => spec_run(m, bps, (steps - 1) as nat, false),
        },
{
}

} // verus!

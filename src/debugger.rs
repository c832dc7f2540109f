use vstd::prelude::*;

use crate::assembler::{literal, parse_literal, same_bytes, split, split_bytes, trim, trim_bytes};
use crate::codec::Address;
use crate::machine::Machine;

verus! {

/// What the debugger does with one command line.
#[derive(Clone, Copy, Debug, PartialEq, Eq, Structural)]
pub enum DebugReply {
    /// Leave the debugger and go on running.
    Continue,
    /// Show the word at this address, which holds this value.
    Read(Address, u32),
    /// Stop the whole process.
    Exit,
    /// A command that is not understood; the prompt repeats.
    Invalid,
}

/// The command words, in ASCII.
pub open spec fn word_c() -> Seq<u8> {
    seq![99u8]
}

pub open spec fn word_cont() -> Seq<u8> {
    seq![99u8, 111, 110, 116]
}

pub open spec fn word_continue() -> Seq<u8> {
    seq![99u8, 111, 110, 116, 105, 110, 117, 101]
}

pub open spec fn word_r() -> Seq<u8> {
    seq![114u8]
}

pub open spec fn word_read() -> Seq<u8> {
    seq![114u8, 101, 97, 100]
}

pub open spec fn word_exit() -> Seq<u8> {
    seq![101u8, 120, 105, 116]
}

/// The reply to a command line, given the memory: `c`, `cont` or
/// `continue` go on; `r` or `read` with a hexadecimal address show the
/// word there; `exit` stops; anything else, a read without a valid
/// address included, is invalid.
pub open spec fn spec_debug(mem: Seq<u32>, cmd: Seq<u8>) -> DebugReply {
    let toks = split(trim(cmd), 32);
    let op = toks[0];
    if op == word_c() || op == word_cont() || op == word_continue() {
        DebugReply::Continue
    } else if op == word_r() || op == word_read() {
        if toks.len() > 1 && literal(toks[1], 16) is Ok && literal(toks[1], 16)->Ok_0 <= 0xFFFF {
            let a = literal(toks[1], 16)->Ok_0 as Address;
            DebugReply::Read(a, mem[a as int])
        } else {
            DebugReply::Invalid
        }
    } else if op == word_exit() {
        DebugReply::Exit
    } else {
        DebugReply::Invalid
    }
}

/// The character of bit `i` of a word, counting from the most
/// significant: `'0'` or `'1'`.
pub open spec fn bit_char(w: u32, i: int) -> u8 {
    if (w >> ((31 - i) as u32)) & 1u32 == 1u32 {
        49
    } else {
        48
    }
}

/// What follows the `i`-th bit: two spaces after each byte, one after
/// each other group of four bits.
pub open spec fn gap(i: int) -> Seq<u8> {
    if i % 8 == 7 {
        seq![32u8, 32]
    } else if i % 4 == 3 {
        seq![32u8]
    } else {
        Seq::empty()
    }
}

/// The first `n` bits of a word, most significant first, with their gaps.
pub open spec fn grouped_bits(w: u32, n: int) -> Seq<u8>
    decreases n,
{
    if n <= 0 {
        Seq::empty()
    } else {
        grouped_bits(w, n - 1) + seq![bit_char(w, n - 1)] + gap(n - 1)
    }
}

fn is_word<const N: usize>(a: &[u8], w: [u8; N]) -> (r: bool)
    ensures
        r == (a@ == w@),
{
    same_bytes(a, vstd::array::array_as_slice(&w))
}

/// A word as 32 binary digits, grouped by four with wider gaps between
/// bytes, as the debugger shows it.
pub fn binary_text(w: u32) -> (r: Vec<u8>)
    ensures
        r@ == grouped_bits(w, 32),
{
    let mut r: Vec<u8> = Vec::new();
    let mut i: u32 = 0;
    while i < 32
        invariant
            i <= 32,
            r@ == grouped_bits(w, i as int),
        decreases 32 - i,
    {
        let bit = (w >> (31 - i)) & 1u32;
        if bit == 1 {
            r.push(49);
        } else {
            r.push(48);
        }
        if i % 8 == 7 {
            r.push(32);
            r.push(32);
        } else if i % 4 == 3 {
            r.push(32);
        }
        i = i + 1;
        assert(r@ =~= grouped_bits(w, i as int));
    }
    r
}

impl Machine {
    /// The debugger's reply to one command line, as `spec_debug` says; it
    /// only reads memory.
    pub fn debug(&self, cmd: &str) -> (r: DebugReply)
        requires
            self.wf(),
        ensures
            r == spec_debug(self.mem(), vstd::utf8::encode_utf8(cmd@)),
    {
        let line = trim_bytes(cmd.as_bytes());
        let toks = split_bytes(line.as_slice(), 32);
        proof {
            crate::assembler::lemma_split_nonempty(trim(vstd::utf8::encode_utf8(cmd@)), 32);
        }
        let op = toks[0].as_slice();
        proof {
            assert([99u8]@ =~= word_c());
            assert([99u8, 111, 110, 116]@ =~= word_cont());
            assert([99u8, 111, 110, 116, 105, 110, 117, 101]@ =~= word_continue());
            assert([114u8]@ =~= word_r());
            assert([114u8, 101, 97, 100]@ =~= word_read());
            assert([101u8, 120, 105, 116]@ =~= word_exit());
        }
        if is_word(op, [99u8]) || is_word(op, [99u8, 111, 110, 116]) || is_word(
            op,
            [99u8, 111, 110, 116, 105, 110, 117, 101],
        ) {
            DebugReply::Continue
        } else if is_word(op, [114u8]) || is_word(op, [114u8, 101, 97, 100]) {
            if toks.len() < 2 {
                return DebugReply::Invalid;
            }
            let arg = toks[1].as_slice();
            assert(arg@.subrange(0, arg@.len() as int) =~= arg@);
            match parse_literal(arg, 0, 16) {
                Ok(v) => {
                    if v <= 0xFFFF {
                        let a = v as Address;
                        DebugReply::Read(a, self.read(a))
                    } else {
                        DebugReply::Invalid
                    }
                },
                Err(_) => DebugReply::Invalid,
            }
        } else if is_word(op, [101u8, 120, 105, 116]) {
            DebugReply::Exit
        } else {
            DebugReply::Invalid
        }
    }
}

} // verus!

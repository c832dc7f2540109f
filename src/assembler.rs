use vstd::prelude::*;

use crate::codec::{
    spec_decode, Address, Instruction, LOAD_ADDRESS, MachineError, Opcodes, Program, ZeroPageAdd, ZeroPageAnd, ZeroPageImmediateLoad, ZeroPageLoad,
    ZeroPageLoadIfPos, ZeroPageNegate, ZeroPageOr, ZeroPageStore, ZeroPageXor,
};

verus! {

/// Whether a byte is an ASCII white space character (tab, line feed,
/// vertical tab, form feed, carriage return, space).
pub open spec fn is_space(b: u8) -> bool {
    b == 32 || b == 9 || b == 10 || b == 11 || b == 12 || b == 13
}

/// Whether two bytes are the UTF-8 form of a white space character
/// (U+0085, U+00A0).
pub open spec fn is_space2(a: u8, b: u8) -> bool {
    a == 0xC2 && (b == 0x85 || b == 0xA0)
}

/// Whether three bytes are the UTF-8 form of a white space character
/// (U+1680, U+2000 to U+200A, U+2028, U+2029, U+202F, U+205F, U+3000).
pub open spec fn is_space3(a: u8, b: u8, c: u8) -> bool {
    (a == 0xE1 && b == 0x9A && c == 0x80) || (a == 0xE2 && b == 0x80 && ((0x80 <= c
        && c <= 0x8A) || c == 0xA8 || c == 0xA9 || c == 0xAF)) || (a == 0xE2 && b == 0x81
        && c == 0x9F) || (a == 0xE3 && b == 0x80 && c == 0x80)
}

/// The length in bytes of the white space character that `s` starts
/// with, or zero.
pub open spec fn space_prefix(s: Seq<u8>) -> int {
    if s.len() >= 1 && is_space(s[0]) {
        1
    } else if s.len() >= 2 && is_space2(s[0], s[1]) {
        2
    } else if s.len() >= 3 && is_space3(s[0], s[1], s[2]) {
        3
    } else {
        0
    }
}

/// The length in bytes of the white space character that `s` ends
/// with, or zero.
pub open spec fn space_suffix(s: Seq<u8>) -> int {
    let n = s.len() as int;
    if n >= 1 && is_space(s[n - 1]) {
        1
    } else if n >= 2 && is_space2(s[n - 2], s[n - 1]) {
        2
    } else if n >= 3 && is_space3(s[n - 3], s[n - 2], s[n - 1]) {
        3
    } else {
        0
    }
}

/// `s` without its leading white space.
pub open spec fn trim_start(s: Seq<u8>) -> Seq<u8>
    decreases s.len(),
{
    if space_prefix(s) > 0 {
        trim_start(s.subrange(space_prefix(s), s.len() as int))
    } else {
        s
    }
}

/// `s` without its trailing white space.
pub open spec fn trim_end(s: Seq<u8>) -> Seq<u8>
    decreases s.len(),
{
    if space_suffix(s) > 0 {
        trim_end(s.subrange(0, s.len() - space_suffix(s)))
    } else {
        s
    }
}

/// `s` without white space at either end.
pub open spec fn trim(s: Seq<u8>) -> Seq<u8> {
    trim_end(trim_start(s))
}

/// The pieces of `s` between the separators `sep`; there is one piece
/// more than there are separators, and pieces may be empty.
pub open spec fn split(s: Seq<u8>, sep: u8) -> Seq<Seq<u8>>
    decreases s.len(),
{
    if s.len() == 0 {
        seq![Seq::<u8>::empty()]
    } else {
        let p = split(s.drop_last(), sep);
        if s.last() == sep {
            p.push(Seq::<u8>::empty())
        } else {
            p.update(p.len() - 1, p.last().push(s.last()))
        }
    }
}

/// The index of the first space in `s`, or its length.
pub open spec fn first_space(s: Seq<u8>) -> int
    decreases s.len(),
{
    if s.len() == 0 || s[0] == 32 {
        0
    } else {
        1 + first_space(s.drop_first())
    }
}

pub(crate) fn copy_range(s: &[u8], lo: usize, hi: usize) -> (r: Vec<u8>)
    requires
        lo <= hi <= s@.len(),
    ensures
        r@ == s@.subrange(lo as int, hi as int),
{
    let mut r: Vec<u8> = Vec::new();
    let mut i = lo;
    while i < hi
        invariant
            lo <= i <= hi <= s@.len(),
            r@ == s@.subrange(lo as int, i as int),
        decreases hi - i,
    {
        r.push(s[i]);
        i = i + 1;
        assert(r@ =~= s@.subrange(lo as int, i as int));
    }
    r
}

fn space(b: u8) -> (r: bool)
    ensures
        r == is_space(b),
{
    b == 32 || b == 9 || b == 10 || b == 11 || b == 12 || b == 13
}

fn space3(a: u8, b: u8, c: u8) -> (r: bool)
    ensures
        r == is_space3(a, b, c),
{
    (a == 0xE1 && b == 0x9A && c == 0x80) || (a == 0xE2 && b == 0x80 && ((0x80 <= c && c
        <= 0x8A) || c == 0xA8 || c == 0xA9 || c == 0xAF)) || (a == 0xE2 && b == 0x81 && c
        == 0x9F) || (a == 0xE3 && b == 0x80 && c == 0x80)
}

/// The length of the white space character at the start of `s[lo..hi]`.
fn space_at_start(s: &[u8], lo: usize, hi: usize) -> (r: usize)
    requires
        lo <= hi <= s@.len(),
    ensures
        r as int == space_prefix(s@.subrange(lo as int, hi as int)),
{
    let n = hi - lo;
    if n >= 1 && space(s[lo]) {
        1
    } else if n >= 2 && s[lo] == 0xC2 && (s[lo + 1] == 0x85 || s[lo + 1] == 0xA0) {
        2
    } else if n >= 3 && space3(s[lo], s[lo + 1], s[lo + 2]) {
        3
    } else {
        0
    }
}

/// The length of the white space character at the end of `s[lo..hi]`.
fn space_at_end(s: &[u8], lo: usize, hi: usize) -> (r: usize)
    requires
        lo <= hi <= s@.len(),
    ensures
        r as int == space_suffix(s@.subrange(lo as int, hi as int)),
{
    let n = hi - lo;
    if n >= 1 && space(s[hi - 1]) {
        1
    } else if n >= 2 && s[hi - 2] == 0xC2 && (s[hi - 1] == 0x85 || s[hi - 1] == 0xA0) {
        2
    } else if n >= 3 && space3(s[hi - 3], s[hi - 2], s[hi - 1]) {
        3
    } else {
        0
    }
}

/// `s` without white space at either end.
pub fn trim_bytes(s: &[u8]) -> (r: Vec<u8>)
    ensures
        r@ == trim(s@),
{
    let n = s.len();
    let mut lo: usize = 0;
    assert(s@.subrange(0, n as int) =~= s@);
    loop
        invariant
            lo <= n == s@.len(),
            trim_start(s@) == trim_start(s@.subrange(lo as int, n as int)),
        ensures
            lo <= n,
            trim_start(s@) == s@.subrange(lo as int, n as int),
        decreases n - lo,
    {
        let k = space_at_start(s, lo, n);
        if k == 0 {
            break;
        }
        assert(s@.subrange(lo as int, n as int).subrange(k as int, n - lo) =~= s@.subrange(
            lo + k,
            n as int,
        ));
        lo = lo + k;
    }
    let mut hi: usize = n;
    loop
        invariant
            lo <= hi <= n == s@.len(),
            trim(s@) == trim_end(s@.subrange(lo as int, hi as int)),
        ensures
            lo <= hi <= n,
            trim(s@) == s@.subrange(lo as int, hi as int),
        decreases hi,
    {
        let k = space_at_end(s, lo, hi);
        if k == 0 {
            break;
        }
        assert(s@.subrange(lo as int, hi as int).subrange(0, hi - lo - k) =~= s@.subrange(
            lo as int,
            hi - k,
        ));
        hi = hi - k;
    }
    copy_range(s, lo, hi)
}

/// The pieces of `s` between the separators `sep`.
pub fn split_bytes(s: &[u8], sep: u8) -> (r: Vec<Vec<u8>>)
    ensures
        r@.len() == split(s@, sep).len(),
        forall|k: int| 0 <= k < r@.len() ==> #[trigger] r@[k]@ == split(s@, sep)[k],
{
    let mut done: Vec<Vec<u8>> = Vec::new();
    let mut cur: Vec<u8> = Vec::new();
    let ghost mut g: Seq<Seq<u8>> = Seq::empty();
    let mut i: usize = 0;
    assert(s@.subrange(0, 0) =~= Seq::<u8>::empty());
    while i < s.len()
        invariant
            i <= s@.len(),
            done@.len() == g.len(),
            forall|k: int| 0 <= k < g.len() ==> #[trigger] done@[k]@ == g[k],
            split(s@.subrange(0, i as int), sep) == g.push(cur@),
        decreases s@.len() - i,
    {
        assert(s@.subrange(0, i + 1).drop_last() =~= s@.subrange(0, i as int));
        if s[i] == sep {
            let piece = cur;
            proof {
                g = g.push(piece@);
            }
            done.push(piece);
            cur = Vec::new();
            assert(g.push(cur@) =~= split(s@.subrange(0, i + 1), sep));
        } else {
            cur.push(s[i]);
            assert(g.push(cur@) =~= split(s@.subrange(0, i + 1), sep));
        }
        i = i + 1;
    }
    assert(s@.subrange(0, i as int) =~= s@);
    let ghost last = cur@;
    done.push(cur);
    assert(g.push(last) =~= split(s@, sep));
    done
}

/// The index of the first space in `s`, or its length.
fn find_space(s: &[u8]) -> (r: usize)
    ensures
        r as int == first_space(s@),
        r <= s@.len(),
{
    let n = s.len();
    let mut k: usize = 0;
    assert(s@.subrange(0, n as int) =~= s@);
    while k < n && s[k] != 32
        invariant
            k <= n == s@.len(),
            first_space(s@) == k + first_space(s@.subrange(k as int, n as int)),
        decreases n - k,
    {
        assert(s@.subrange(k as int, n as int).drop_first() =~= s@.subrange(k + 1, n as int));
        k = k + 1;
    }
    k
}

/// Whether two byte strings are equal.
pub(crate) fn same_bytes(a: &[u8], b: &[u8]) -> (r: bool)
    ensures
        r == (a@ == b@),
{
    if a.len() != b.len() {
        return false;
    }
    let mut i: usize = 0;
    while i < a.len()
        invariant
            a@.len() == b@.len(),
            i <= a@.len(),
            forall|k: int| 0 <= k < i ==> a@[k] == b@[k],
        decreases a@.len() - i,
    {
        if a[i] != b[i] {
            return false;
        }
        i = i + 1;
    }
    assert(a@ =~= b@);
    true
}

/// Why a source text could not be assembled.
#[derive(Clone, Copy, Debug, PartialEq, Eq, Structural)]
pub enum AsmError {
    /// A line's first word names no instruction.
    UnknownMnemonic,
    /// An instruction has fewer operands than its kind takes.
    MissingOperand,
    /// An operand is empty (two spaces in a row, or a lone `:`).
    EmptyOperand,
    /// A numeric operand with a bad digit, no digits, or over 64 bits.
    BadLiteral,
    /// An operand names a label that no line defines.
    UnresolvedSymbol,
    /// More instructions than fit between the load address and the end
    /// of memory.
    ProgramTooLarge,
}

/// The value of a digit in `base` (10 or 16), if it is one.
pub open spec fn digit_value(b: u8, base: nat) -> Option<nat> {
    if 48 <= b <= 57 {
        Some((b - 48) as nat)
    } else if base == 16 && 97 <= b <= 102 {
        Some((b - 87) as nat)
    } else if base == 16 && 65 <= b <= 70 {
        Some((b - 55) as nat)
    } else {
        None
    }
}

pub open spec fn all_digits(s: Seq<u8>, base: nat) -> bool {
    forall|i: int| 0 <= i < s.len() ==> (#[trigger] digit_value(s[i], base)) is Some
}

/// The number that the digits `s` write in `base`.
pub open spec fn digits_value(s: Seq<u8>, base: nat) -> nat
    decreases s.len(),
{
    if s.len() == 0 {
        0
    } else {
        digits_value(s.drop_last(), base) * base + match digit_value(s.last(), base) {
            Some(d) => d,
            None => 0,
        }
    }
}

/// A literal in `base`: at least one digit, all valid, and a value that
/// fits in 64 bits.
pub open spec fn literal(s: Seq<u8>, base: nat) -> Result<u64, AsmError> {
    if s.len() > 0 && all_digits(s, base) && digits_value(s, base) <= u64::MAX {
        Ok(digits_value(s, base) as u64)
    } else {
        Err(AsmError::BadLiteral)
    }
}

/// The address of a label: the last definition of `name` in `table`.
pub open spec fn lookup(table: Seq<(Seq<u8>, u16)>, name: Seq<u8>) -> Option<u16>
    decreases table.len(),
{
    if table.len() == 0 {
        None
    } else if table.last().0 == name {
        Some(table.last().1)
    } else {
        lookup(table.drop_last(), name)
    }
}

/// The value of one operand token. A leading `0x` gives a hexadecimal
/// literal, a leading `:` is dropped, a leading digit gives a decimal
/// literal, and anything else is a label: worth zero where no table is
/// given, else its address in the table.
pub open spec fn operand_value(tok: Seq<u8>, syms: Option<Seq<(Seq<u8>, u16)>>) -> Result<
    u64,
    AsmError,
>
    decreases tok.len(),
{
    if tok.len() >= 2 && tok[0] == 48 && tok[1] == 120 {
        literal(tok.subrange(2, tok.len() as int), 16)
    } else if tok.len() >= 1 && tok[0] == 58 {
        operand_value(tok.drop_first(), syms)
    } else if tok.len() == 0 {
        Err(AsmError::EmptyOperand)
    } else if 48 <= tok[0] <= 57 {
        literal(tok, 10)
    } else {
        match syms {
            None => Ok(0),
            Some(t) => match lookup(t, tok) {
                Some(a) => Ok(a as u64),
                None => Err(AsmError::UnresolvedSymbol),
            },
        }
    }
}

/// The symbol table that a vector of entries holds.
pub open spec fn table_view(t: Seq<(Vec<u8>, u16)>) -> Seq<(Seq<u8>, u16)> {
    t.map_values(|e: (Vec<u8>, u16)| (e.0@, e.1))
}

fn digit(b: u8, base: u64) -> (r: Option<u64>)
    ensures
        match digit_value(b, base as nat) {
            Some(d) => r == Some(d as u64),
            None => r is None,
        },
{
    if 48 <= b && b <= 57 {
        Some((b - 48) as u64)
    } else if base == 16 && 97 <= b && b <= 102 {
        Some((b - 87) as u64)
    } else if base == 16 && 65 <= b && b <= 70 {
        Some((b - 55) as u64)
    } else {
        None
    }
}

/// A prefix of digits is worth no more than the whole.
proof fn lemma_prefix_value(s: Seq<u8>, k: int, base: nat)
    requires
        0 <= k <= s.len(),
        base >= 1,
    ensures
        digits_value(s.subrange(0, k), base) <= digits_value(s, base),
    decreases s.len(),
{
    if k < s.len() {
        lemma_prefix_value(s.drop_last(), k, base);
        assert(s.drop_last().subrange(0, k) =~= s.subrange(0, k));
        let v = digits_value(s.drop_last(), base);
        assert(v <= v * base) by (nonlinear_arith)
            requires
                base >= 1,
        ;
    } else {
        assert(s.subrange(0, k) =~= s);
    }
}

/// The literal written by `s` from `start` on, in `base`.
pub(crate) fn parse_literal(s: &[u8], start: usize, base: u64) -> (r: Result<u64, AsmError>)
    requires
        start <= s@.len(),
        base == 10 || base == 16,
    ensures
        r == literal(s@.subrange(start as int, s@.len() as int), base as nat),
{
    let ghost whole = s@.subrange(start as int, s@.len() as int);
    if start == s.len() {
        return Err(AsmError::BadLiteral);
    }
    let mut acc: u64 = 0;
    let mut i: usize = start;
    assert(s@.subrange(start as int, start as int) =~= Seq::<u8>::empty());
    while i < s.len()
        invariant
            start <= i <= s@.len(),
            whole == s@.subrange(start as int, s@.len() as int),
            base == 10 || base == 16,
            all_digits(s@.subrange(start as int, i as int), base as nat),
            acc as nat == digits_value(s@.subrange(start as int, i as int), base as nat),
        decreases s@.len() - i,
    {
        let ghost p = s@.subrange(start as int, i + 1);
        assert(p.drop_last() =~= s@.subrange(start as int, i as int));
        assert(p =~= whole.subrange(0, i + 1 - start));
        let d = match digit(s[i], base) {
            Some(d) => d,
            None => {
                assert(!all_digits(whole, base as nat)) by {
                    assert(whole[i - start] == s@[i as int]);
                }
                return Err(AsmError::BadLiteral);
            },
        };
        let m = match acc.checked_mul(base) {
            Some(m) => m,
            None => {
                proof {
                    lemma_prefix_value(whole, i + 1 - start, base as nat);
                }
                return Err(AsmError::BadLiteral);
            },
        };
        acc = match m.checked_add(d) {
            Some(v) => v,
            None => {
                proof {
                    lemma_prefix_value(whole, i + 1 - start, base as nat);
                }
                return Err(AsmError::BadLiteral);
            },
        };
        i = i + 1;
        assert(all_digits(s@.subrange(start as int, i as int), base as nat)) by {
            assert forall|j: int| 0 <= j < p.len() implies (#[trigger] digit_value(p[j], base as nat)) is Some by {
                if j < p.len() - 1 {
                    assert(p[j] == s@.subrange(start as int, i - 1)[j]);
                }
            }
        }
    }
    assert(s@.subrange(start as int, i as int) =~= whole);
    Ok(acc)
}

/// The address of label `name`: its last entry in `table`.
fn lookup_symbol(table: &Vec<(Vec<u8>, u16)>, name: &[u8]) -> (r: Option<u16>)
    ensures
        r == lookup(table_view(table@), name@),
{
    let ghost tv = table_view(table@);
    let mut i: usize = table.len();
    assert(tv.subrange(0, i as int) =~= tv);
    while i > 0
        invariant
            i <= table@.len(),
            tv == table_view(table@),
            lookup(tv, name@) == lookup(tv.subrange(0, i as int), name@),
        decreases i,
    {
        let ghost sub = tv.subrange(0, i as int);
        assert(sub.drop_last() =~= tv.subrange(0, i - 1));
        if same_bytes(table[i - 1].0.as_slice(), name) {
            return Some(table[i - 1].1);
        }
        i = i - 1;
    }
    None
}

/// The symbol table that an optional vector of entries holds.
pub open spec fn table_opt(symbols: Option<&Vec<(Vec<u8>, u16)>>) -> Option<Seq<(Seq<u8>, u16)>> {
    match symbols {
        Some(t) => Some(table_view(t@)),
        None => None,
    }
}

/// The value of one operand token, as `operand_value` says.
fn operand(tok: &[u8], symbols: Option<&Vec<(Vec<u8>, u16)>>) -> (r: Result<u64, AsmError>)
    ensures
        r == operand_value(tok@, table_opt(symbols)),
{
    let ghost syms = table_opt(symbols);
    let n = tok.len();
    let mut start: usize = 0;
    assert(tok@.subrange(0, n as int) =~= tok@);
    while start < n && tok[start] == 58
        invariant
            start <= n == tok@.len(),
            operand_value(tok@, syms) == operand_value(tok@.subrange(start as int, n as int), syms),
        decreases n - start,
    {
        assert(tok@.subrange(start as int, n as int).drop_first() =~= tok@.subrange(
            start + 1,
            n as int,
        ));
        start = start + 1;
    }
    let ghost t = tok@.subrange(start as int, n as int);
    if n - start >= 2 && tok[start] == 48 && tok[start + 1] == 120 {
        assert(t.subrange(2, t.len() as int) =~= tok@.subrange(start + 2, n as int));
        parse_literal(tok, start + 2, 16)
    } else if start == n {
        Err(AsmError::EmptyOperand)
    } else if 48 <= tok[start] && tok[start] <= 57 {
        parse_literal(tok, start, 10)
    } else {
        match symbols {
            None => Ok(0),
            Some(table) => {
                let name = copy_range(tok, start, n);
                match lookup_symbol(table, name.as_slice()) {
                    Some(a) => Ok(a as u64),
                    None => Err(AsmError::UnresolvedSymbol),
                }
            },
        }
    }
}

/// The instruction kind that a mnemonic names (`ADD`, `NEG`, `AND`, `OR`,
/// `XOR`, `L`, `S`, `LI`, `LP`).
pub open spec fn spec_mnemonic(m: Seq<u8>) -> Option<Opcodes> {
    if m == seq![65u8, 68, 68] {
        Some(Opcodes::ZeroPageAdd)
    } else if m == seq![78u8, 69, 71] {
        Some(Opcodes::ZeroPageNeg)
    } else if m == seq![65u8, 78, 68] {
        Some(Opcodes::ZeroPageAnd)
    } else if m == seq![79u8, 82] {
        Some(Opcodes::ZeroPageOr)
    } else if m == seq![88u8, 79, 82] {
        Some(Opcodes::ZeroPageXor)
    } else if m == seq![76u8] {
        Some(Opcodes::ZeroPageLoad)
    } else if m == seq![83u8] {
        Some(Opcodes::ZeroPageStore)
    } else if m == seq![76u8, 73] {
        Some(Opcodes::ZeroPageImmediateLoad)
    } else if m == seq![76u8, 80] {
        Some(Opcodes::ZeroPageLoadIfPos)
    } else {
        None
    }
}

/// The instruction kind that a mnemonic names.
fn mnemonic(m: &[u8]) -> (r: Option<Opcodes>)
    ensures
        r == spec_mnemonic(m@),
{
    let n = m.len();
    if n == 3 && m[0] == 65 && m[1] == 68 && m[2] == 68 {
        assert(m@ =~= seq![65u8, 68, 68]);
        return Some(Opcodes::ZeroPageAdd);
    }
    if n == 3 && m[0] == 78 && m[1] == 69 && m[2] == 71 {
        assert(m@ =~= seq![78u8, 69, 71]);
        return Some(Opcodes::ZeroPageNeg);
    }
    if n == 3 && m[0] == 65 && m[1] == 78 && m[2] == 68 {
        assert(m@ =~= seq![65u8, 78, 68]);
        return Some(Opcodes::ZeroPageAnd);
    }
    if n == 2 && m[0] == 79 && m[1] == 82 {
        assert(m@ =~= seq![79u8, 82]);
        return Some(Opcodes::ZeroPageOr);
    }
    if n == 3 && m[0] == 88 && m[1] == 79 && m[2] == 82 {
        assert(m@ =~= seq![88u8, 79, 82]);
        return Some(Opcodes::ZeroPageXor);
    }
    if n == 1 && m[0] == 76 {
        assert(m@ =~= seq![76u8]);
        return Some(Opcodes::ZeroPageLoad);
    }
    if n == 1 && m[0] == 83 {
        assert(m@ =~= seq![83u8]);
        return Some(Opcodes::ZeroPageStore);
    }
    if n == 2 && m[0] == 76 && m[1] == 73 {
        assert(m@ =~= seq![76u8, 73]);
        return Some(Opcodes::ZeroPageImmediateLoad);
    }
    if n == 2 && m[0] == 76 && m[1] == 80 {
        assert(m@ =~= seq![76u8, 80]);
        return Some(Opcodes::ZeroPageLoadIfPos);
    }
    None
}

/// How many operands an instruction kind takes.
pub open spec fn arity(op: Opcodes) -> nat {
    match op {
        Opcodes::ZeroPageNeg | Opcodes::ZeroPageLoad | Opcodes::ZeroPageStore
        | Opcodes::ZeroPageImmediateLoad => 2,
        _ => 3,
    }
}

/// The instruction of kind `op` with operand values `a`, `b` and `c`,
/// each cut to its field's width (`c` is unused by two-operand kinds).
pub open spec fn spec_build(op: Opcodes, a: u64, b: u64, c: u64) -> Instruction {
    match op {
        Opcodes::ZeroPageAdd => Instruction::Add(ZeroPageAdd { lhs: a as u8, rhs: b as u8, out: c as u8 }),
        Opcodes::ZeroPageNeg => Instruction::Neg(ZeroPageNegate { input: a as u8, out: b as u8 }),
        Opcodes::ZeroPageAnd => Instruction::And(ZeroPageAnd { lhs: a as u8, rhs: b as u8, out: c as u8 }),
        Opcodes::ZeroPageOr => Instruction::Or(ZeroPageOr { lhs: a as u8, rhs: b as u8, out: c as u8 }),
        Opcodes::ZeroPageXor => Instruction::Xor(ZeroPageXor { lhs: a as u8, rhs: b as u8, out: c as u8 }),
        Opcodes::ZeroPageLoad => Instruction::Load(ZeroPageLoad { from: a as u16, to: b as u8 }),
        Opcodes::ZeroPageStore => Instruction::Store(ZeroPageStore { from: a as u8, to: b as u16 }),
        Opcodes::ZeroPageImmediateLoad => Instruction::ImmediateLoad(
            ZeroPageImmediateLoad { addr: a as u8, imm: b as u16 },
        ),
        Opcodes::ZeroPageLoadIfPos => Instruction::LoadIfPos(
            ZeroPageLoadIfPos { cond: a as u8, from: b as u8, to: c as u8 },
        ),
    }
}

fn build(op: Opcodes, a: u64, b: u64, c: u64) -> (r: Instruction)
    ensures
        r == spec_build(op, a, b, c),
{
    match op {
        Opcodes::ZeroPageAdd => Instruction::Add(ZeroPageAdd { lhs: a as u8, rhs: b as u8, out: c as u8 }),
        Opcodes::ZeroPageNeg => Instruction::Neg(ZeroPageNegate { input: a as u8, out: b as u8 }),
        Opcodes::ZeroPageAnd => Instruction::And(ZeroPageAnd { lhs: a as u8, rhs: b as u8, out: c as u8 }),
        Opcodes::ZeroPageOr => Instruction::Or(ZeroPageOr { lhs: a as u8, rhs: b as u8, out: c as u8 }),
        Opcodes::ZeroPageXor => Instruction::Xor(ZeroPageXor { lhs: a as u8, rhs: b as u8, out: c as u8 }),
        Opcodes::ZeroPageLoad => Instruction::Load(ZeroPageLoad { from: a as u16, to: b as u8 }),
        Opcodes::ZeroPageStore => Instruction::Store(ZeroPageStore { from: a as u8, to: b as u16 }),
        Opcodes::ZeroPageImmediateLoad => Instruction::ImmediateLoad(
            ZeroPageImmediateLoad { addr: a as u8, imm: b as u16 },
        ),
        Opcodes::ZeroPageLoadIfPos => Instruction::LoadIfPos(
            ZeroPageLoadIfPos { cond: a as u8, from: b as u8, to: c as u8 },
        ),
    }
}

/// The value of the `i`-th token, or `MissingOperand` where there is none.
pub open spec fn operand_at(toks: Seq<Seq<u8>>, i: int, syms: Option<Seq<(Seq<u8>, u16)>>) -> Result<
    u64,
    AsmError,
> {
    if i < toks.len() {
        operand_value(toks[i], syms)
    } else {
        Err(AsmError::MissingOperand)
    }
}

/// The instruction that a line's text (its words separated by single
/// spaces) writes: the mnemonic, then its operands from left to right;
/// the first failure is the one reported, and words past the operands
/// are ignored.
pub open spec fn parse_inst(body: Seq<u8>, syms: Option<Seq<(Seq<u8>, u16)>>) -> Result<
    Instruction,
    AsmError,
> {
    let toks = split(body, 32);
    match spec_mnemonic(toks[0]) {
        None => Err(AsmError::UnknownMnemonic),
        Some(op) => match operand_at(toks, 1, syms) {
            Err(e) => Err(e),
            Ok(a) => match operand_at(toks, 2, syms) {
                Err(e) => Err(e),
                Ok(b) => if arity(op) == 2 {
                    Ok(spec_build(op, a, b, 0))
                } else {
                    match operand_at(toks, 3, syms) {
                        Err(e) => Err(e),
                        Ok(c) => Ok(spec_build(op, a, b, c)),
                    }
                },
            },
        },
    }
}

/// Splitting gives at least one piece.
pub(crate) proof fn lemma_split_nonempty(s: Seq<u8>, sep: u8)
    ensures
        split(s, sep).len() >= 1,
    decreases s.len(),
{
    if s.len() > 0 {
        lemma_split_nonempty(s.drop_last(), sep);
    }
}


fn operand_of(toks: &Vec<Vec<u8>>, i: usize, symbols: Option<&Vec<(Vec<u8>, u16)>>, Ghost(
    g,
): Ghost<Seq<Seq<u8>>>) -> (r: Result<u64, AsmError>)
    requires
        toks@.len() == g.len(),
        forall|k: int| 0 <= k < g.len() ==> #[trigger] toks@[k]@ == g[k],
    ensures
        r == operand_at(g, i as int, table_opt(symbols)),
{
    if i < toks.len() {
        operand(toks[i].as_slice(), symbols)
    } else {
        Err(AsmError::MissingOperand)
    }
}

/// The instruction that a line's text writes, as `parse_inst` says.
fn parse_line(body: &[u8], symbols: Option<&Vec<(Vec<u8>, u16)>>) -> (r: Result<Instruction, AsmError>)
    ensures
        r == parse_inst(body@, table_opt(symbols)),
{
    let toks = split_bytes(body, 32);
    let ghost g = split(body@, 32);
    proof {
        lemma_split_nonempty(body@, 32);
    }
    let op = match mnemonic(toks[0].as_slice()) {
        Some(op) => op,
        None => return Err(AsmError::UnknownMnemonic),
    };
    let a = match operand_of(&toks, 1, symbols, Ghost(g)) {
        Ok(v) => v,
        Err(e) => return Err(e),
    };
    let b = match operand_of(&toks, 2, symbols, Ghost(g)) {
        Ok(v) => v,
        Err(e) => return Err(e),
    };
    let two = match op {
        Opcodes::ZeroPageNeg | Opcodes::ZeroPageLoad | Opcodes::ZeroPageStore
        | Opcodes::ZeroPageImmediateLoad => true,
        _ => false,
    };
    if two {
        return Ok(build(op, a, b, 0));
    }
    let c = match operand_of(&toks, 3, symbols, Ghost(g)) {
        Ok(v) => v,
        Err(e) => return Err(e),
    };
    Ok(build(op, a, b, c))
}

/// The parts of a source line once trimmed: the label that its first
/// word defines (that word minus its final `:`), whether a `~` marks a
/// breakpoint, and the instruction text.
pub open spec fn line_parts(raw: Seq<u8>) -> (Option<Seq<u8>>, bool, Seq<u8>) {
    let l = trim(raw);
    let k = first_space(l);
    let (label, t) = if k > 0 && l[k - 1] == 58 {
        (
            Some(l.subrange(0, k - 1)),
            if k < l.len() {
                trim(l.subrange(k + 1, l.len() as int))
            } else {
                Seq::<u8>::empty()
            },
        )
    } else {
        (None, l)
    };
    if t.len() > 0 && t[0] == 126 {
        (label, true, trim(t.drop_first()))
    } else {
        (label, false, t)
    }
}

/// Whether a line holds nothing but white space.
pub open spec fn is_blank(raw: Seq<u8>) -> bool {
    trim(raw).len() == 0
}

/// The first pass over `lines`: the symbol table (each label with the
/// address of the instruction that follows it), the breakpoint
/// addresses, and the number of instructions. Each line is parsed with
/// labels worth zero, so that its errors stop the assembly here.
pub open spec fn pass1(lines: Seq<Seq<u8>>) -> Result<(Seq<(Seq<u8>, u16)>, Seq<Address>, nat), AsmError>
    decreases lines.len(),
{
    if lines.len() == 0 {
        Ok((Seq::empty(), Seq::empty(), 0))
    } else {
        match pass1(lines.drop_last()) {
            Err(e) => Err(e),
            Ok((syms, bps, n)) => {
                let raw = lines.last();
                if is_blank(raw) {
                    Ok((syms, bps, n))
                } else if n >= 0x8000 {
                    Err(AsmError::ProgramTooLarge)
                } else {
                    let (label, bp, body) = line_parts(raw);
                    let addr = (LOAD_ADDRESS + n) as u16;
                    match parse_inst(body, None) {
                        Err(e) => Err(e),
                        Ok(_) => Ok(
                            (
                                match label {
                                    Some(l) => syms.push((l, addr)),
                                    None => syms,
                                },
                                if bp {
                                    bps.push(addr)
                                } else {
                                    bps
                                },
                                n + 1,
                            ),
                        ),
                    }
                }
            },
        }
    }
}

/// The second pass over `lines`: each line's instruction, with labels
/// resolved through `syms`.
pub open spec fn pass2(lines: Seq<Seq<u8>>, syms: Seq<(Seq<u8>, u16)>) -> Result<Seq<Instruction>, AsmError>
    decreases lines.len(),
{
    if lines.len() == 0 {
        Ok(Seq::empty())
    } else {
        match pass2(lines.drop_last(), syms) {
            Err(e) => Err(e),
            Ok(is) => {
                let raw = lines.last();
                if is_blank(raw) {
                    Ok(is)
                } else {
                    match parse_inst(line_parts(raw).2, Some(syms)) {
                        Err(e) => Err(e),
                        Ok(i) => Ok(is.push(i)),
                    }
                }
            },
        }
    }
}

/// What a source text assembles to: its instructions and breakpoint
/// addresses, or the first error of the first pass, else of the second.
pub open spec fn spec_assemble(src: Seq<u8>) -> Result<(Seq<Instruction>, Seq<Address>), AsmError> {
    let lines = split(src, 10);
    match pass1(lines) {
        Err(e) => Err(e),
        Ok((syms, bps, _)) => match pass2(lines, syms) {
            Err(e) => Err(e),
            Ok(is) => Ok((is, bps)),
        },
    }
}

/// The words of an instruction sequence, one per instruction.
pub open spec fn words_of(is: Seq<Instruction>) -> Seq<u32> {
    is.map_values(|i: Instruction| i.spec_word())
}

/// The parts of a source line, as `line_parts` says.
fn split_line(raw: &[u8]) -> (r: (Option<Vec<u8>>, bool, Vec<u8>))
    ensures
        (
            match r.0 {
                Some(v) => Some(v@),
                None => None,
            },
            r.1,
            r.2@,
        ) == line_parts(raw@),
{
    let l = trim_bytes(raw);
    let k = find_space(l.as_slice());
    let mut label: Option<Vec<u8>> = None;
    let mut t = l;
    if k > 0 && t[k - 1] == 58 {
        label = Some(copy_range(t.as_slice(), 0, k - 1));
        if k < t.len() {
            let rest = copy_range(t.as_slice(), k + 1, t.len());
            t = trim_bytes(rest.as_slice());
        } else {
            t = Vec::new();
        }
    }
    if t.len() > 0 && t[0] == 126 {
        let rest = copy_range(t.as_slice(), 1, t.len());
        assert(rest@ =~= t@.drop_first());
        (label, true, trim_bytes(rest.as_slice()))
    } else {
        (label, false, t)
    }
}

/// A failure in a prefix of the lines is the failure of the whole pass.
proof fn lemma_pass1_err(lines: Seq<Seq<u8>>, i: int)
    requires
        0 <= i <= lines.len(),
        pass1(lines.subrange(0, i)) is Err,
    ensures
        pass1(lines) == pass1(lines.subrange(0, i)),
    decreases lines.len(),
{
    if i < lines.len() {
        assert(lines.drop_last().subrange(0, i) =~= lines.subrange(0, i));
        lemma_pass1_err(lines.drop_last(), i);
    } else {
        assert(lines.subrange(0, i) =~= lines);
    }
}

/// A failure in a prefix of the lines is the failure of the whole pass.
proof fn lemma_pass2_err(lines: Seq<Seq<u8>>, syms: Seq<(Seq<u8>, u16)>, i: int)
    requires
        0 <= i <= lines.len(),
        pass2(lines.subrange(0, i), syms) is Err,
    ensures
        pass2(lines, syms) == pass2(lines.subrange(0, i), syms),
    decreases lines.len(),
{
    if i < lines.len() {
        assert(lines.drop_last().subrange(0, i) =~= lines.subrange(0, i));
        lemma_pass2_err(lines.drop_last(), syms, i);
    } else {
        assert(lines.subrange(0, i) =~= lines);
    }
}

fn push_instruction(p: Program, inst: Instruction) -> (r: Program)
    ensures
        r@ == p@.push(inst.spec_word()),
{
    let r = match inst {
        Instruction::Add(x) => p.push(x),
        Instruction::Neg(x) => p.push(x),
        Instruction::And(x) => p.push(x),
        Instruction::Or(x) => p.push(x),
        Instruction::Xor(x) => p.push(x),
        Instruction::Load(x) => p.push(x),
        Instruction::Store(x) => p.push(x),
        Instruction::ImmediateLoad(x) => p.push(x),
        Instruction::LoadIfPos(x) => p.push(x),
    };
    assert(r@ =~= p@.push(inst.spec_word()));
    r
}

/// Assembles source text given as bytes: the program's words and the
/// breakpoint addresses, exactly as `spec_assemble` says, or its error
/// with no program at all.
pub fn assemble_bytes(src: &[u8]) -> (r: Result<(Program, Vec<Address>), AsmError>)
    ensures
        match spec_assemble(src@) {
            Ok((is, bps)) => r matches Ok((p, b)) && p@ == words_of(is) && b@ == bps,
            Err(e) => r == Err::<(Program, Vec<Address>), AsmError>(e),
        },
{
    let lines = split_bytes(src, 10);
    let ghost ls = split(src@, 10);
    let mut syms: Vec<(Vec<u8>, u16)> = Vec::new();
    let mut bps: Vec<Address> = Vec::new();
    let mut n: u16 = 0;
    let mut i: usize = 0;
    assert(ls.subrange(0, 0) =~= Seq::<Seq<u8>>::empty());
    assert(table_view(syms@) =~= Seq::<(Seq<u8>, u16)>::empty());
    while i < lines.len()
        invariant
            i <= lines@.len() == ls.len(),
            ls == split(src@, 10),
            forall|k: int| 0 <= k < ls.len() ==> #[trigger] lines@[k]@ == ls[k],
            n <= 0x8000,
            pass1(ls.subrange(0, i as int)) == Ok::<_, AsmError>((table_view(syms@), bps@, n as nat)),
        decreases lines@.len() - i,
    {
        let raw = lines[i].as_slice();
        assert(ls.subrange(0, i + 1).drop_last() =~= ls.subrange(0, i as int));
        let t = trim_bytes(raw);
        if t.len() != 0 {
            if n >= 0x8000 {
                proof {
                    lemma_pass1_err(ls, i + 1);
                }
                return Err(AsmError::ProgramTooLarge);
            }
            let (label, bp, body) = split_line(raw);
            let addr: u16 = LOAD_ADDRESS + n;
            match parse_line(body.as_slice(), None) {
                Err(e) => {
                    proof {
                        lemma_pass1_err(ls, i + 1);
                    }
                    return Err(e);
                },
                Ok(_) => {},
            }
            match label {
                Some(l) => {
                    let ghost lv = l@;
                    let ghost before = syms@;
                    syms.push((l, addr));
                    assert(table_view(syms@) =~= table_view(before).push((lv, addr)));
                },
                None => {},
            }
            if bp {
                bps.push(addr);
            }
            n = n + 1;
        }
        i = i + 1;
    }
    assert(ls.subrange(0, i as int) =~= ls);
    let ghost table = table_view(syms@);
    let mut program = Program::new();
    let ghost mut is: Seq<Instruction> = Seq::empty();
    let mut j: usize = 0;
    assert(words_of(is) =~= Seq::<u32>::empty());
    while j < lines.len()
        invariant
            j <= lines@.len() == ls.len(),
            ls == split(src@, 10),
            forall|k: int| 0 <= k < ls.len() ==> #[trigger] lines@[k]@ == ls[k],
            table == table_view(syms@),
            pass1(ls) == Ok::<_, AsmError>((table, bps@, n as nat)),
            pass2(ls.subrange(0, j as int), table) == Ok::<_, AsmError>(is),
            program@ == words_of(is),
        decreases lines@.len() - j,
    {
        let raw = lines[j].as_slice();
        assert(ls.subrange(0, j + 1).drop_last() =~= ls.subrange(0, j as int));
        let t = trim_bytes(raw);
        if t.len() != 0 {
            let (_, _, body) = split_line(raw);
            match parse_line(body.as_slice(), Some(&syms)) {
                Err(e) => {
                    proof {
                        lemma_pass2_err(ls, table, j + 1);
                    }
                    return Err(e);
                },
                Ok(inst) => {
                    let ghost before = program@;
                    program = push_instruction(program, inst);
                    proof {
                        is = is.push(inst);
                    }
                    assert(words_of(is) =~= before.push(inst.spec_word()));
                },
            }
        }
        j = j + 1;
    }
    assert(ls.subrange(0, j as int) =~= ls);
    Ok((program, bps))
}

/// Assembles a source text: the program's words, to be loaded at
/// `LOAD_ADDRESS`, and the breakpoint addresses, as `spec_assemble` says
/// of the text's UTF-8 bytes.
pub fn assemble(source: String) -> (r: Result<(Program, Vec<Address>), AsmError>)
    ensures
        match spec_assemble(vstd::utf8::encode_utf8(source@)) {
            Ok((is, bps)) => r matches Ok((p, b)) && p@ == words_of(is) && b@ == bps,
            Err(e) => r == Err::<(Program, Vec<Address>), AsmError>(e),
        },
{
    assemble_bytes(source.as_str().as_bytes())
}

/// The number of lines of `lines` that are not blank: the number of
/// instructions they hold.
pub open spec fn instr_count(lines: Seq<Seq<u8>>) -> nat
    decreases lines.len(),
{
    if lines.len() == 0 {
        0
    } else {
        instr_count(lines.drop_last()) + if is_blank(lines.last()) {
            0nat
        } else {
            1nat
        }
    }
}

proof fn lemma_pass1_count(lines: Seq<Seq<u8>>)
    requires
        pass1(lines) is Ok,
    ensures
        pass1(lines)->Ok_0.2 == instr_count(lines),
        instr_count(lines) <= 0x8000,
    decreases lines.len(),
{
    if lines.len() > 0 {
        lemma_pass1_count(lines.drop_last());
    }
}

/// A label resolves to the load address plus the number of instructions
/// before the line that defines it (its last definition), wherever it is
/// used: the first pass sees every line before the second resolves any
/// operand, so a use before the definition resolves the same way.
pub proof fn lemma_label_address(lines: Seq<Seq<u8>>, k: int, name: Seq<u8>)
    requires
        pass1(lines) is Ok,
        0 <= k < lines.len(),
        !is_blank(lines[k]),
        line_parts(lines[k]).0 == Some(name),
        forall|j: int|
            k < j < lines.len() && !is_blank(lines[j]) ==> line_parts(lines[j]).0 != Some(
                name,
            ),
    ensures
        lookup(pass1(lines)->Ok_0.0, name) == Some(
            (LOAD_ADDRESS + instr_count(lines.subrange(0, k))) as u16,
        ),
        name.len() > 0 && !(48 <= name[0] <= 57) && name[0] != 58 ==> operand_value(
            name,
            Some(pass1(lines)->Ok_0.0),
        ) == Ok::<u64, AsmError>(((LOAD_ADDRESS + instr_count(lines.subrange(0, k))) as u16) as u64),
    decreases lines.len(),
{
    let init = lines.drop_last();
    assert(pass1(init) is Ok);
    lemma_pass1_count(init);
    let (syms, bps, n) = pass1(init)->Ok_0;
    let last = lines.last();
    let (label, bp, body) = line_parts(last);
    if k == lines.len() - 1 {
        assert(lines.subrange(0, k) =~= init);
        assert(!is_blank(last));
        assert(n < 0x8000);
        assert(parse_inst(body, None) is Ok);
        assert(pass1(lines)->Ok_0.0 == syms.push((name, (LOAD_ADDRESS + n) as u16)));
    } else {
        if !is_blank(last) {
            assert(parse_inst(body, None) is Ok);
            assert(label != Some(name));
            match label {
                Some(l) => {
                    let t = syms.push((l, (LOAD_ADDRESS + n) as u16));
                    assert(pass1(lines)->Ok_0.0 == t);
                    assert(t.drop_last() =~= syms);
                    assert(t.last().0 != name);
                },
                None => {
                    assert(pass1(lines)->Ok_0.0 == syms);
                },
            }
            assert(lookup(pass1(lines)->Ok_0.0, name) == lookup(syms, name));
        }
        assert forall|j: int| k < j < init.len() && !is_blank(init[j]) implies line_parts(
            init[j],
        ).0 != Some(name) by {
            assert(init[j] == lines[j]);
        }
        assert(init[k] == lines[k]);
        lemma_label_address(init, k, name);
        assert(init.subrange(0, k) =~= lines.subrange(0, k));
    }
}

/// A line whose first word names no instruction makes the whole assembly
/// fail, so that no program comes out.
pub proof fn lemma_unknown_mnemonic_fails(src: Seq<u8>, k: int)
    requires
        0 <= k < split(src, 10).len(),
        !is_blank(split(src, 10)[k]),
        spec_mnemonic(split(line_parts(split(src, 10)[k]).2, 32)[0]) is None,
    ensures
        spec_assemble(src) is Err,
{
    let ls = split(src, 10);
    let pre = ls.subrange(0, k + 1);
    assert(pre.drop_last() =~= ls.subrange(0, k));
    assert(pass1(pre) is Err);
    lemma_pass1_err(ls, k + 1);
}

/// The program that the assembler emits holds one word per instruction,
/// each the encoding of the record built from its line, and each decodes
/// back to that record.
pub proof fn lemma_emitted_words(src: Seq<u8>)
    requires
        spec_assemble(src) is Ok,
    ensures
        ({
            let is = spec_assemble(src)->Ok_0.0;
            &&& words_of(is).len() == is.len()
            &&& forall|k: int|
                0 <= k < is.len() ==> #[trigger] words_of(is)[k] == is[k].spec_word()
                    && spec_decode(words_of(is)[k]) == Ok::<Instruction, MachineError>(is[k])
        }),
{
    let is = spec_assemble(src)->Ok_0.0;
    assert forall|k: int| 0 <= k < is.len() implies #[trigger] words_of(is)[k] == is[k].spec_word()
        && spec_decode(words_of(is)[k]) == Ok::<Instruction, MachineError>(is[k]) by {
        crate::codec::lemma_round_trip(is[k]);
    }
}

/// A line written `MNEM t1 .. tk`, whose mnemonic names kind `op` and
/// whose `k` operands (the kind's arity) have the values `v`, gives the
/// record of kind `op` built from those values cut to their field
/// widths; the word emitted for it is that record's encoding.
pub proof fn lemma_line_matches_codec(
    body: Seq<u8>,
    syms: Option<Seq<(Seq<u8>, u16)>>,
    op: Opcodes,
    v: Seq<u64>,
)
    requires
        spec_mnemonic(split(body, 32)[0]) == Some(op),
        v.len() == arity(op),
        forall|j: int| 0 <= j < v.len() ==> operand_at(split(body, 32), j + 1, syms) == Ok::<u64, AsmError>(v[j]),
    ensures
        parse_inst(body, syms) == Ok::<Instruction, AsmError>(
            spec_build(op, v[0], v[1], if arity(op) == 3 { v[2] } else { 0 }),
        ),
{
    assert(operand_at(split(body, 32), 1, syms) == Ok::<u64, AsmError>(v[0]));
    assert(operand_at(split(body, 32), 2, syms) == Ok::<u64, AsmError>(v[1]));
    if arity(op) == 3 {
        assert(operand_at(split(body, 32), 3, syms) == Ok::<u64, AsmError>(v[2]));
    }
}

proof fn lemma_pass2_len(lines: Seq<Seq<u8>>, syms: Seq<(Seq<u8>, u16)>)
    requires
        pass2(lines, syms) is Ok,
    ensures
        pass2(lines, syms)->Ok_0.len() == instr_count(lines),
    decreases lines.len(),
{
    if lines.len() > 0 {
        lemma_pass2_len(lines.drop_last(), syms);
    }
}

proof fn lemma_pass2_line(lines: Seq<Seq<u8>>, syms: Seq<(Seq<u8>, u16)>, k: int)
    requires
        pass2(lines, syms) is Ok,
        0 <= k < lines.len(),
        !is_blank(lines[k]),
    ensures
        parse_inst(line_parts(lines[k]).2, Some(syms)) is Ok,
        instr_count(lines.subrange(0, k)) < pass2(lines, syms)->Ok_0.len(),
        pass2(lines, syms)->Ok_0[instr_count(lines.subrange(0, k)) as int] == parse_inst(
            line_parts(lines[k]).2,
            Some(syms),
        )->Ok_0,
    decreases lines.len(),
{
    let init = lines.drop_last();
    assert(pass2(init, syms) is Ok);
    lemma_pass2_len(init, syms);
    lemma_pass2_len(lines, syms);
    if k == lines.len() - 1 {
        assert(lines.subrange(0, k) =~= init);
    } else {
        assert(init[k] == lines[k]);
        assert(init.subrange(0, k) =~= lines.subrange(0, k));
        lemma_pass2_line(init, syms, k);
    }
}

/// In a source that assembles, the word emitted for a non-blank line is
/// the one at the index that counts the instructions before it, and it is
/// the encoding of the record that the line's text builds, with every
/// label (also one defined further down) resolved through the first
/// pass's table.
pub proof fn lemma_line_word(src: Seq<u8>, k: int)
    requires
        spec_assemble(src) is Ok,
        0 <= k < split(src, 10).len(),
        !is_blank(split(src, 10)[k]),
    ensures
        ({
            let ls = split(src, 10);
            let is = spec_assemble(src)->Ok_0.0;
            let idx = instr_count(ls.subrange(0, k)) as int;
            let rec = parse_inst(line_parts(ls[k]).2, Some(pass1(ls)->Ok_0.0));
            &&& rec is Ok
            &&& 0 <= idx < words_of(is).len()
            &&& is[idx] == rec->Ok_0
            &&& words_of(is)[idx] == rec->Ok_0.spec_word()
        }),
{
    let ls = split(src, 10);
    let syms = pass1(ls)->Ok_0.0;
    lemma_pass2_line(ls, syms, k);
}

/// In a source that assembles, an operand that names a label, on any
/// line, before its definition or after it, has the value of the label's
/// address: the load address plus the number of instructions before the
/// line that defines it (last). By `lemma_line_matches_codec` and
/// `lemma_line_word`, that value, cut to the field's width, is the field
/// of the emitted word.
pub proof fn lemma_label_operand(src: Seq<u8>, k: int, name: Seq<u8>, j: int, p: int)
    requires
        spec_assemble(src) is Ok,
        0 <= k < split(src, 10).len(),
        !is_blank(split(src, 10)[k]),
        line_parts(split(src, 10)[k]).0 == Some(name),
        forall|i: int|
            k < i < split(src, 10).len() && !is_blank(split(src, 10)[i]) ==> line_parts(
                split(src, 10)[i],
            ).0 != Some(name),
        name.len() > 0,
        !(48 <= name[0] <= 57),
        name[0] != 58,
        0 <= j < split(src, 10).len(),
        1 <= p < split(line_parts(split(src, 10)[j]).2, 32).len(),
        split(line_parts(split(src, 10)[j]).2, 32)[p] == name,
    ensures
        operand_at(
            split(line_parts(split(src, 10)[j]).2, 32),
            p,
            Some(pass1(split(src, 10))->Ok_0.0),
        ) == Ok::<u64, AsmError>(
            ((LOAD_ADDRESS + instr_count(split(src, 10).subrange(0, k))) as u16) as u64,
        ),
{
    lemma_label_address(split(src, 10), k, name);
}

} // verus!

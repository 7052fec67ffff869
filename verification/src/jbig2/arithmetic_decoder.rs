//! The arithmetic decoder, described in Annex E.
//!
//! The decoder keeps track of some state and continuously receives context labels as input, each
//! time yielding a new bit from the original data as output.

use vstd::prelude::*;

verus! {

/// A row of the probability estimation table (Table E.1).
#[derive(Debug, Clone, Copy, PartialEq, Eq, Structural)]
pub struct QeData {
    /// The estimated probability of the less probable symbol.
    pub qe: u32,
    /// The row after a more probable symbol.
    pub nmps: u8,
    /// The row after a less probable symbol.
    pub nlps: u8,
    /// Whether a less probable symbol exchanges the sense of the symbols.
    pub switch: bool,
}

/// Table E.1.
pub open spec fn qe_row(index: u8) -> QeData {
    match index {
        0 => QeData { qe: 0x5601, nmps: 1, nlps: 1, switch: true },
        1 => QeData { qe: 0x3401, nmps: 2, nlps: 6, switch: false },
        2 => QeData { qe: 0x1801, nmps: 3, nlps: 9, switch: false },
        3 => QeData { qe: 0x0AC1, nmps: 4, nlps: 12, switch: false },
        4 => QeData { qe: 0x0521, nmps: 5, nlps: 29, switch: false },
        5 => QeData { qe: 0x0221, nmps: 38, nlps: 33, switch: false },
        6 => QeData { qe: 0x5601, nmps: 7, nlps: 6, switch: true },
        7 => QeData { qe: 0x5401, nmps: 8, nlps: 14, switch: false },
        8 => QeData { qe: 0x4801, nmps: 9, nlps: 14, switch: false },
        9 => QeData { qe: 0x3801, nmps: 10, nlps: 14, switch: false },
        10 => QeData { qe: 0x3001, nmps: 11, nlps: 17, switch: false },
        11 => QeData { qe: 0x2401, nmps: 12, nlps: 18, switch: false },
        12 => QeData { qe: 0x1C01, nmps: 13, nlps: 20, switch: false },
        13 => QeData { qe: 0x1601, nmps: 29, nlps: 21, switch: false },
        14 => QeData { qe: 0x5601, nmps: 15, nlps: 14, switch: true },
        15 => QeData { qe: 0x5401, nmps: 16, nlps: 14, switch: false },
        16 => QeData { qe: 0x5101, nmps: 17, nlps: 15, switch: false },
        17 => QeData { qe: 0x4801, nmps: 18, nlps: 16, switch: false },
        18 => QeData { qe: 0x3801, nmps: 19, nlps: 17, switch: false },
        19 => QeData { qe: 0x3401, nmps: 20, nlps: 18, switch: false },
        20 => QeData { qe: 0x3001, nmps: 21, nlps: 19, switch: false },
        21 => QeData { qe: 0x2801, nmps: 22, nlps: 19, switch: false },
        22 => QeData { qe: 0x2401, nmps: 23, nlps: 20, switch: false },
        23 => QeData { qe: 0x2201, nmps: 24, nlps: 21, switch: false },
        24 => QeData { qe: 0x1C01, nmps: 25, nlps: 22, switch: false },
        25 => QeData { qe: 0x1801, nmps: 26, nlps: 23, switch: false },
        26 => QeData { qe: 0x1601, nmps: 27, nlps: 24, switch: false },
        27 => QeData { qe: 0x1401, nmps: 28, nlps: 25, switch: false },
        28 => QeData { qe: 0x1201, nmps: 29, nlps: 26, switch: false },
        29 => QeData { qe: 0x1101, nmps: 30, nlps: 27, switch: false },
        30 => QeData { qe: 0x0AC1, nmps: 31, nlps: 28, switch: false },
        31 => QeData { qe: 0x09C1, nmps: 32, nlps: 29, switch: false },
        32 => QeData { qe: 0x08A1, nmps: 33, nlps: 30, switch: false },
        33 => QeData { qe: 0x0521, nmps: 34, nlps: 31, switch: false },
        34 => QeData { qe: 0x0441, nmps: 35, nlps: 32, switch: false },
        35 => QeData { qe: 0x02A1, nmps: 36, nlps: 33, switch: false },
        36 => QeData { qe: 0x0221, nmps: 37, nlps: 34, switch: false },
        37 => QeData { qe: 0x0141, nmps: 38, nlps: 35, switch: false },
        38 => QeData { qe: 0x0111, nmps: 39, nlps: 36, switch: false },
        39 => QeData { qe: 0x0085, nmps: 40, nlps: 37, switch: false },
        40 => QeData { qe: 0x0049, nmps: 41, nlps: 38, switch: false },
        41 => QeData { qe: 0x0025, nmps: 42, nlps: 39, switch: false },
        42 => QeData { qe: 0x0015, nmps: 43, nlps: 40, switch: false },
        43 => QeData { qe: 0x0009, nmps: 44, nlps: 41, switch: false },
        44 => QeData { qe: 0x0005, nmps: 45, nlps: 42, switch: false },
        45 => QeData { qe: 0x0001, nmps: 45, nlps: 43, switch: false },
        _ => QeData { qe: 0x5601, nmps: 46, nlps: 46, switch: false },
    }
}

fn qe_data(index: u8) -> (row: QeData)
    ensures
        row == qe_row(index),
        1 <= row.qe <= 0x5601,
        row.nmps < 47,
        row.nlps < 47,
{
    match index {
        0 => QeData { qe: 0x5601, nmps: 1, nlps: 1, switch: true },
        1 => QeData { qe: 0x3401, nmps: 2, nlps: 6, switch: false },
        2 => QeData { qe: 0x1801, nmps: 3, nlps: 9, switch: false },
        3 => QeData { qe: 0x0AC1, nmps: 4, nlps: 12, switch: false },
        4 => QeData { qe: 0x0521, nmps: 5, nlps: 29, switch: false },
        5 => QeData { qe: 0x0221, nmps: 38, nlps: 33, switch: false },
        6 => QeData { qe: 0x5601, nmps: 7, nlps: 6, switch: true },
        7 => QeData { qe: 0x5401, nmps: 8, nlps: 14, switch: false },
        8 => QeData { qe: 0x4801, nmps: 9, nlps: 14, switch: false },
        9 => QeData { qe: 0x3801, nmps: 10, nlps: 14, switch: false },
        10 => QeData { qe: 0x3001, nmps: 11, nlps: 17, switch: false },
        11 => QeData { qe: 0x2401, nmps: 12, nlps: 18, switch: false },
        12 => QeData { qe: 0x1C01, nmps: 13, nlps: 20, switch: false },
        13 => QeData { qe: 0x1601, nmps: 29, nlps: 21, switch: false },
        14 => QeData { qe: 0x5601, nmps: 15, nlps: 14, switch: true },
        15 => QeData { qe: 0x5401, nmps: 16, nlps: 14, switch: false },
        16 => QeData { qe: 0x5101, nmps: 17, nlps: 15, switch: false },
        17 => QeData { qe: 0x4801, nmps: 18, nlps: 16, switch: false },
        18 => QeData { qe: 0x3801, nmps: 19, nlps: 17, switch: false },
        19 => QeData { qe: 0x3401, nmps: 20, nlps: 18, switch: false },
        20 => QeData { qe: 0x3001, nmps: 21, nlps: 19, switch: false },
        21 => QeData { qe: 0x2801, nmps: 22, nlps: 19, switch: false },
        22 => QeData { qe: 0x2401, nmps: 23, nlps: 20, switch: false },
        23 => QeData { qe: 0x2201, nmps: 24, nlps: 21, switch: false },
        24 => QeData { qe: 0x1C01, nmps: 25, nlps: 22, switch: false },
        25 => QeData { qe: 0x1801, nmps: 26, nlps: 23, switch: false },
        26 => QeData { qe: 0x1601, nmps: 27, nlps: 24, switch: false },
        27 => QeData { qe: 0x1401, nmps: 28, nlps: 25, switch: false },
        28 => QeData { qe: 0x1201, nmps: 29, nlps: 26, switch: false },
        29 => QeData { qe: 0x1101, nmps: 30, nlps: 27, switch: false },
        30 => QeData { qe: 0x0AC1, nmps: 31, nlps: 28, switch: false },
        31 => QeData { qe: 0x09C1, nmps: 32, nlps: 29, switch: false },
        32 => QeData { qe: 0x08A1, nmps: 33, nlps: 30, switch: false },
        33 => QeData { qe: 0x0521, nmps: 34, nlps: 31, switch: false },
        34 => QeData { qe: 0x0441, nmps: 35, nlps: 32, switch: false },
        35 => QeData { qe: 0x02A1, nmps: 36, nlps: 33, switch: false },
        36 => QeData { qe: 0x0221, nmps: 37, nlps: 34, switch: false },
        37 => QeData { qe: 0x0141, nmps: 38, nlps: 35, switch: false },
        38 => QeData { qe: 0x0111, nmps: 39, nlps: 36, switch: false },
        39 => QeData { qe: 0x0085, nmps: 40, nlps: 37, switch: false },
        40 => QeData { qe: 0x0049, nmps: 41, nlps: 38, switch: false },
        41 => QeData { qe: 0x0025, nmps: 42, nlps: 39, switch: false },
        42 => QeData { qe: 0x0015, nmps: 43, nlps: 40, switch: false },
        43 => QeData { qe: 0x0009, nmps: 44, nlps: 41, switch: false },
        44 => QeData { qe: 0x0005, nmps: 45, nlps: 42, switch: false },
        45 => QeData { qe: 0x0001, nmps: 45, nlps: 43, switch: false },
        _ => QeData { qe: 0x5601, nmps: 46, nlps: 46, switch: false },
    }
}

/// The adaptive state of a context label.
#[derive(Debug, Clone, Copy, PartialEq, Eq, Structural)]
pub struct ArithmeticDecoderContext {
    /// The row of the probability estimation table.
    pub index: u8,
    /// The more probable symbol.
    pub mps: bool,
}

impl ArithmeticDecoderContext {
    /// The state at the start of a segment.
    pub fn new() -> (context: Self)
        ensures
            context == (ArithmeticDecoderContext { index: 0, mps: false }),
    {
        ArithmeticDecoderContext { index: 0, mps: false }
    }
}

/// The registers of the decoder (Figure E.14).
pub struct Registers {
    /// The C-register.
    pub c: u32,
    /// The A-register.
    pub a: u32,
    /// The position of the current byte.
    pub bp: nat,
    /// The shifts left before another byte is needed.
    pub ct: nat,
}

/// The byte at a position; the data goes on with 0xFF bytes.
pub open spec fn coded_byte(data: Seq<u8>, at: nat) -> u8 {
    if at < data.len() {
        data[at as int]
    } else {
        0xFF
    }
}

/// BYTEIN (Figure E.19).
pub open spec fn byte_in(data: Seq<u8>, r: Registers) -> Registers {
    if coded_byte(data, r.bp) == 0xFF {
        let next = coded_byte(data, r.bp + 1);
        if next > 0x8F {
            Registers { c: r.c.wrapping_add(0xFF00), ct: 8, ..r }
        } else {
            Registers { c: r.c.wrapping_add((next as u32) << 9), bp: r.bp + 1, ct: 7, ..r }
        }
    } else {
        let next = coded_byte(data, r.bp + 1);
        Registers { c: r.c.wrapping_add((next as u32) << 8), bp: r.bp + 1, ct: 8, ..r }
    }
}

/// INITDEC (Figure E.20).
pub open spec fn init_dec(data: Seq<u8>) -> Registers {
    let first = byte_in(
        data,
        Registers { c: (coded_byte(data, 0) as u32) << 16, a: 0, bp: 0, ct: 0 },
    );
    Registers { c: first.c << 7, a: 0x8000, ct: (first.ct - 7) as nat, ..first }
}

/// RENORMD (Figure E.18).
pub open spec fn renorm(data: Seq<u8>, r: Registers) -> Registers
    decreases 0x1_0000 - r.a,
{
    if r.a == 0 || r.a >= 0x8000 {
        r
    } else {
        let filled = if r.ct == 0 {
            byte_in(data, r)
        } else {
            r
        };
        renorm(
            data,
            Registers {
                c: filled.c << 1,
                a: (2 * r.a) as u32,
                bp: filled.bp,
                ct: (filled.ct - 1) as nat,
            },
        )
    }
}

/// The result of decoding one bit.
pub struct Decision {
    pub bit: bool,
    pub context: ArithmeticDecoderContext,
    pub registers: Registers,
}

/// The context after the less probable symbol was decoded.
pub open spec fn after_lps(context: ArithmeticDecoderContext) -> ArithmeticDecoderContext {
    let row = qe_row(context.index);
    ArithmeticDecoderContext { index: row.nlps, mps: context.mps != row.switch }
}

/// The context after the more probable symbol was decoded.
pub open spec fn after_mps(context: ArithmeticDecoderContext) -> ArithmeticDecoderContext {
    ArithmeticDecoderContext { index: qe_row(context.index).nmps, ..context }
}

/// DECODE (Figures E.15 to E.17).
pub open spec fn decide(
    data: Seq<u8>,
    r: Registers,
    context: ArithmeticDecoderContext,
) -> Decision {
    let qe = qe_row(context.index).qe;
    let a = (r.a - qe) as u32;
    if (r.c >> 16) < qe {
        // The lower part of the interval belongs to the less probable symbol, unless the parts
        // are exchanged.
        let registers = renorm(data, Registers { a: qe, ..r });
        if a < qe {
            Decision { bit: context.mps, context: after_mps(context), registers }
        } else {
            Decision { bit: !context.mps, context: after_lps(context), registers }
        }
    } else {
        let lowered = Registers { c: r.c.wrapping_sub(qe << 16), a, ..r };
        if a >= 0x8000 {
            Decision { bit: context.mps, context, registers: lowered }
        } else if a < qe {
            Decision {
                bit: !context.mps,
                context: after_lps(context),
                registers: renorm(data, lowered),
            }
        } else {
            Decision {
                bit: context.mps,
                context: after_mps(context),
                registers: renorm(data, lowered),
            }
        }
    }
}

/// An arithmetic decoder.
pub struct ArithmeticDecoder<'a> {
    data: &'a [u8],
    c: u32,
    a: u32,
    base_pointer: usize,
    shift_count: u32,
}

impl<'a> ArithmeticDecoder<'a> {
    /// The encoded data.
    pub closed spec fn data(&self) -> Seq<u8> {
        self.data@
    }

    /// The state of the decoder.
    pub closed spec fn registers(&self) -> Registers {
        Registers {
            c: self.c,
            a: self.a,
            bp: self.base_pointer as nat,
            ct: self.shift_count as nat,
        }
    }

    spec fn in_bounds(&self) -> bool {
        &&& self.base_pointer <= self.data@.len()
        &&& self.shift_count <= 8
    }

    /// The interval is normalized.
    #[verifier::type_invariant]
    spec fn wf(&self) -> bool {
        &&& self.in_bounds()
        &&& 0x8000 <= self.a <= 0xFFFF
    }

    /// Create a decoder at the start of the data.
    pub fn new(data: &'a [u8]) -> (decoder: Self)
        ensures
            decoder.data() == data@,
            decoder.registers() == init_dec(data@),
    {
        let first: u8 = byte_or_end(data, 0);
        let (c, base_pointer, shift_count) = fill(data, (first as u32) << 16, 0);
        ArithmeticDecoder { data, c: c << 7, a: 0x8000, base_pointer, shift_count: shift_count - 7 }
    }

    /// Read the next bit using the given context label.
    pub fn read_bit(&mut self, context: &mut ArithmeticDecoderContext) -> (bit: u32)
        ensures
            final(self).data() == old(self).data(),
            ({
                let decision = decide(old(self).data(), old(self).registers(), *old(context));
                &&& bit == if decision.bit { 1u32 } else { 0u32 }
                &&& *final(context) == decision.context
                &&& final(self).registers() == decision.registers
            }),
    {
        proof {
            use_type_invariant(&*self);
        }
        let row = qe_data(context.index);
        let rest: u32 = self.a - row.qe;
        let lower = (self.c >> 16) < row.qe;
        let (c, a): (u32, u32) = if lower {
            (self.c, row.qe)
        } else {
            (self.c.wrapping_sub(row.qe << 16), rest)
        };
        let exchanged = rest < row.qe;
        let data = self.data;
        if !lower && rest >= 0x8000 {
            let base_pointer: usize = self.base_pointer;
            let shift_count: u32 = self.shift_count;
            *self = ArithmeticDecoder { data, c, a, base_pointer, shift_count };
            return if context.mps {
                1
            } else {
                0
            };
        }
        let less_probable = lower != exchanged;
        let bit = context.mps != less_probable;
        *context = if less_probable {
            ArithmeticDecoderContext { index: row.nlps, mps: context.mps != row.switch }
        } else {
            ArithmeticDecoderContext { index: row.nmps, mps: context.mps }
        };
        let (c, a, base_pointer, shift_count) = renormalize(
            data,
            c,
            a,
            self.base_pointer,
            self.shift_count,
        );
        *self = ArithmeticDecoder { data, c, a, base_pointer, shift_count };
        if bit {
            1
        } else {
            0
        }
    }
}

fn byte_or_end(data: &[u8], at: usize) -> (byte: u8)
    ensures
        byte == coded_byte(data@, at as nat),
{
    if at < data.len() {
        data[at]
    } else {
        0xFF
    }
}

/// Take in the next byte.
fn fill(data: &[u8], c: u32, base_pointer: usize) -> (result: (u32, usize, u32))
    requires
        base_pointer <= data@.len(),
    ensures
        result.1 <= data@.len(),
        7 <= result.2 <= 8,
        forall|r: Registers|
            r.c == c && r.bp == base_pointer ==> #[trigger] byte_in(data@, r) == (Registers {
                c: result.0,
                a: r.a,
                bp: result.1 as nat,
                ct: result.2 as nat,
            }),
{
    if base_pointer >= data.len() {
        return (c.wrapping_add(0xFF00), base_pointer, 8);
    }
    let next: u8 = byte_or_end(data, base_pointer + 1);
    if data[base_pointer] == 0xFF {
        if next > 0x8F {
            (c.wrapping_add(0xFF00), base_pointer, 8)
        } else {
            (c.wrapping_add((next as u32) << 9), base_pointer + 1, 7)
        }
    } else {
        (c.wrapping_add((next as u32) << 8), base_pointer + 1, 8)
    }
}

/// Shift until the interval is normalized.
fn renormalize(
    data: &[u8],
    c: u32,
    a: u32,
    base_pointer: usize,
    shift_count: u32,
) -> (result: (u32, u32, usize, u32))
    requires
        base_pointer <= data@.len(),
        shift_count <= 8,
        1 <= a <= 0xFFFF,
    ensures
        result.2 <= data@.len(),
        result.3 <= 8,
        0x8000 <= result.1 <= 0xFFFF,
        renorm(
            data@,
            Registers { c, a, bp: base_pointer as nat, ct: shift_count as nat },
        ) == (Registers {
            c: result.0,
            a: result.1,
            bp: result.2 as nat,
            ct: result.3 as nat,
        }),
{
    let ghost start = Registers { c, a, bp: base_pointer as nat, ct: shift_count as nat };
    let mut c: u32 = c;
    let mut a: u32 = a;
    let mut base_pointer: usize = base_pointer;
    let mut shift_count: u32 = shift_count;
    while a < 0x8000
        invariant
            base_pointer <= data@.len(),
            shift_count <= 8,
            1 <= a <= 0xFFFF,
            renorm(data@, start) == renorm(
                data@,
                Registers { c, a, bp: base_pointer as nat, ct: shift_count as nat },
            ),
        decreases 0x1_0000 - a,
    {
        let ghost before = Registers { c, a, bp: base_pointer as nat, ct: shift_count as nat };
        if shift_count == 0 {
            let (filled, moved, count) = fill(data, c, base_pointer);
            proof {
                assert(byte_in(data@, before).c == filled);
            }
            c = filled;
            base_pointer = moved;
            shift_count = count;
        }
        a = a * 2;
        c = c << 1;
        shift_count = shift_count - 1;
    }
    (c, a, base_pointer, shift_count)
}

} // verus!

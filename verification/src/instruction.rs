//! Decoder and encoder for the 16-bit opcodes of the instruction set.
//!
//! `Instruction::from` translates an opcode into a tagged instruction value
//! (total: undefined bit patterns yield `Instruction::Invalid`, which the
//! execution engine rejects as a fatal error), and `Instruction::encode` is its
//! inverse on well-formed instructions, producing the two big-endian opcode
//! bytes.

use vstd::prelude::*;

verus! {

/// Index of a general-purpose register, 0x0 to 0xF.
pub type Register = usize;

/// A 12-bit memory address, 0x000 to 0xFFF.
pub type Address = u16;

/// An 8-bit immediate value.
pub type Value = u8;

/// Decoded, semantically tagged representation of an opcode.
#[derive(Debug, Clone, Copy, PartialEq, Eq, Structural)]
pub enum Instruction {
    Invalid,
    Sys(Address),
    Cls,
    Ret,
    Jump(Address),
    Call(Address),
    SkipValEq(Register, Value),
    SkipValNotEq(Register, Value),
    SkipEq(Register, Register),
    LoadVal(Register, Value),
    AddVal(Register, Value),
    Load(Register, Register),
    Or(Register, Register),
    And(Register, Register),
    Xor(Register, Register),
    Add(Register, Register),
    Sub(Register, Register),
    ShiftRight(Register),
    SubN(Register, Register),
    ShiftLeft(Register),
    SkipNotEq(Register, Register),
    LoadAddr(Address),
    JumpRel(Address),
    Random(Register, Value),
    Draw(Register, Register, Value),
    SkipKeyPressed(Register),
    SkipKeyNotPressed(Register),
    LoadDelayTimer(Register),
    LoadKey(Register),
    SetDelayTimer(Register),
    SetSoundTimer(Register),
    AddI(Register),
    LoadSprite(Register),
    Bcd(Register),
    StoreRegs(Register),
    LoadRegs(Register),
}

impl Instruction {
    /// A well-formed instruction keeps every register index and draw height
    /// within a nibble and every address within 12 bits, so that it is
    /// representable as an opcode.
    pub open spec fn wf(self) -> bool {
        match self {
            Instruction::Invalid => true,
            Instruction::Sys(a) => a <= 0xFFF,
            Instruction::Cls => true,
            Instruction::Ret => true,
            Instruction::Jump(a) => a <= 0xFFF,
            Instruction::Call(a) => a <= 0xFFF,
            Instruction::SkipValEq(r, _) => r <= 0xF,
            Instruction::SkipValNotEq(r, _) => r <= 0xF,
            Instruction::SkipEq(d, s) => d <= 0xF && s <= 0xF,
            Instruction::LoadVal(r, _) => r <= 0xF,
            Instruction::AddVal(r, _) => r <= 0xF,
            Instruction::Load(d, s) => d <= 0xF && s <= 0xF,
            Instruction::Or(d, s) => d <= 0xF && s <= 0xF,
            Instruction::And(d, s) => d <= 0xF && s <= 0xF,
            Instruction::Xor(d, s) => d <= 0xF && s <= 0xF,
            Instruction::Add(d, s) => d <= 0xF && s <= 0xF,
            Instruction::Sub(d, s) => d <= 0xF && s <= 0xF,
            Instruction::ShiftRight(r) => r <= 0xF,
            Instruction::SubN(d, s) => d <= 0xF && s <= 0xF,
            Instruction::ShiftLeft(r) => r <= 0xF,
            Instruction::SkipNotEq(d, s) => d <= 0xF && s <= 0xF,
            Instruction::LoadAddr(a) => a <= 0xFFF,
            Instruction::JumpRel(a) => a <= 0xFFF,
            Instruction::Random(r, _) => r <= 0xF,
            Instruction::Draw(x, y, n) => x <= 0xF && y <= 0xF && n <= 0xF,
            Instruction::SkipKeyPressed(r) => r <= 0xF,
            Instruction::SkipKeyNotPressed(r) => r <= 0xF,
            Instruction::LoadDelayTimer(r) => r <= 0xF,
            Instruction::LoadKey(r) => r <= 0xF,
            Instruction::SetDelayTimer(r) => r <= 0xF,
            Instruction::SetSoundTimer(r) => r <= 0xF,
            Instruction::AddI(r) => r <= 0xF,
            Instruction::LoadSprite(r) => r <= 0xF,
            Instruction::Bcd(r) => r <= 0xF,
            Instruction::StoreRegs(r) => r <= 0xF,
            Instruction::LoadRegs(r) => r <= 0xF,
        }
    }
}

/// The opcode word a well-formed instruction encodes to.
pub open spec fn encode_spec(i: Instruction) -> u16 {
    match i {
        Instruction::Invalid => 0x0000,
        Instruction::Sys(a) => a,
        Instruction::Cls => 0x00E0,
        Instruction::Ret => 0x00EE,
        Instruction::Jump(a) => (0x1000 + a) as u16,
        Instruction::Call(a) => (0x2000 + a) as u16,
        Instruction::SkipValEq(r, v) => (0x3000 + r * 0x100 + v) as u16,
        Instruction::SkipValNotEq(r, v) => (0x4000 + r * 0x100 + v) as u16,
        Instruction::SkipEq(d, s) => (0x5000 + d * 0x100 + s * 0x10) as u16,
        Instruction::LoadVal(r, v) => (0x6000 + r * 0x100 + v) as u16,
        Instruction::AddVal(r, v) => (0x7000 + r * 0x100 + v) as u16,
        Instruction::Load(d, s) => (0x8000 + d * 0x100 + s * 0x10) as u16,
        Instruction::Or(d, s) => (0x8000 + d * 0x100 + s * 0x10 + 0x1) as u16,
        Instruction::And(d, s) => (0x8000 + d * 0x100 + s * 0x10 + 0x2) as u16,
        Instruction::Xor(d, s) => (0x8000 + d * 0x100 + s * 0x10 + 0x3) as u16,
        Instruction::Add(d, s) => (0x8000 + d * 0x100 + s * 0x10 + 0x4) as u16,
        Instruction::Sub(d, s) => (0x8000 + d * 0x100 + s * 0x10 + 0x5) as u16,
        Instruction::ShiftRight(r) => (0x8000 + r * 0x100 + 0x6) as u16,
        Instruction::SubN(d, s) => (0x8000 + d * 0x100 + s * 0x10 + 0x7) as u16,
        Instruction::ShiftLeft(r) => (0x8000 + r * 0x100 + 0xE) as u16,
        Instruction::SkipNotEq(d, s) => (0x9000 + d * 0x100 + s * 0x10) as u16,
        Instruction::LoadAddr(a) => (0xA000 + a) as u16,
        Instruction::JumpRel(a) => (0xB000 + a) as u16,
        Instruction::Random(r, v) => (0xC000 + r * 0x100 + v) as u16,
        Instruction::Draw(x, y, n) => (0xD000 + x * 0x100 + y * 0x10 + n) as u16,
        Instruction::SkipKeyPressed(r) => (0xE000 + r * 0x100 + 0x9E) as u16,
        Instruction::SkipKeyNotPressed(r) => (0xE000 + r * 0x100 + 0xA1) as u16,
        Instruction::LoadDelayTimer(r) => (0xF000 + r * 0x100 + 0x07) as u16,
        Instruction::LoadKey(r) => (0xF000 + r * 0x100 + 0x0A) as u16,
        Instruction::SetDelayTimer(r) => (0xF000 + r * 0x100 + 0x15) as u16,
        Instruction::SetSoundTimer(r) => (0xF000 + r * 0x100 + 0x18) as u16,
        Instruction::AddI(r) => (0xF000 + r * 0x100 + 0x1E) as u16,
        Instruction::LoadSprite(r) => (0xF000 + r * 0x100 + 0x29) as u16,
        Instruction::Bcd(r) => (0xF000 + r * 0x100 + 0x33) as u16,
        Instruction::StoreRegs(r) => (0xF000 + r * 0x100 + 0x55) as u16,
        Instruction::LoadRegs(r) => (0xF000 + r * 0x100 + 0x65) as u16,
    }
}

/// The instruction an opcode word decodes to; undefined bit patterns
/// decode to `Instruction::Invalid`.
pub open spec fn decode_spec(w: u16) -> Instruction {
    let hi: u16 = w / 0x1000;
    let r1: usize = ((w / 0x100) % 0x10) as usize;
    let r2: usize = ((w / 0x10) % 0x10) as usize;
    let v: u8 = (w % 0x100) as u8;
    let a: u16 = w % 0x1000;
    let n: u16 = w % 0x10;
    if w == 0x00E0 {
        Instruction::Cls
    } else if w == 0x00EE {
        Instruction::Ret
    } else if hi == 0x0 {
        Instruction::Sys(a)
    } else if hi == 0x1 {
        Instruction::Jump(a)
    } else if hi == 0x2 {
        Instruction::Call(a)
    } else if hi == 0x3 {
        Instruction::SkipValEq(r1, v)
    } else if hi == 0x4 {
        Instruction::SkipValNotEq(r1, v)
    } else if hi == 0x5 {
        if n == 0 {
            Instruction::SkipEq(r1, r2)
        } else {
            Instruction::Invalid
        }
    } else if hi == 0x6 {
        Instruction::LoadVal(r1, v)
    } else if hi == 0x7 {
        Instruction::AddVal(r1, v)
    } else if hi == 0x8 {
        if n == 0x0 {
            Instruction::Load(r1, r2)
        } else if n == 0x1 {
            Instruction::Or(r1, r2)
        } else if n == 0x2 {
            Instruction::And(r1, r2)
        } else if n == 0x3 {
            Instruction::Xor(r1, r2)
        } else if n == 0x4 {
            Instruction::Add(r1, r2)
        } else if n == 0x5 {
            Instruction::Sub(r1, r2)
        } else if n == 0x6 {
            Instruction::ShiftRight(r1)
        } else if n == 0x7 {
            Instruction::SubN(r1, r2)
        } else if n == 0xE {
            Instruction::ShiftLeft(r1)
        } else {
            Instruction::Invalid
        }
    } else if hi == 0x9 {
        if n == 0 {
            Instruction::SkipNotEq(r1, r2)
        } else {
            Instruction::Invalid
        }
    } else if hi == 0xA {
        Instruction::LoadAddr(a)
    } else if hi == 0xB {
        Instruction::JumpRel(a)
    } else if hi == 0xC {
        Instruction::Random(r1, v)
    } else if hi == 0xD {
        Instruction::Draw(r1, r2, n as u8)
    } else if hi == 0xE {
        if v == 0x9E {
            Instruction::SkipKeyPressed(r1)
        } else if v == 0xA1 {
            Instruction::SkipKeyNotPressed(r1)
        } else {
            Instruction::Invalid
        }
    } else {
        if v == 0x07 {
            Instruction::LoadDelayTimer(r1)
        } else if v == 0x0A {
            Instruction::LoadKey(r1)
        } else if v == 0x15 {
            Instruction::SetDelayTimer(r1)
        } else if v == 0x18 {
            Instruction::SetSoundTimer(r1)
        } else if v == 0x1E {
            Instruction::AddI(r1)
        } else if v == 0x29 {
            Instruction::LoadSprite(r1)
        } else if v == 0x33 {
            Instruction::Bcd(r1)
        } else if v == 0x55 {
            Instruction::StoreRegs(r1)
        } else if v == 0x65 {
            Instruction::LoadRegs(r1)
        } else {
            Instruction::Invalid
        }
    }
}

/// High byte of an opcode word.
pub open spec fn opcode_hi(w: u16) -> u8 {
    (w / 0x100) as u8
}

/// Low byte of an opcode word.
pub open spec fn opcode_lo(w: u16) -> u8 {
    (w % 0x100) as u8
}

/// The opcode word two big-endian bytes form.
pub open spec fn word_of(hi: u8, lo: u8) -> u16 {
    (hi * 0x100 + lo) as u16
}

fn instr_ptr(pfx: u8, ptr: Address) -> (r: [u8; 2])
    requires
        pfx <= 0x0F,
        ptr <= 0x0FFF,
    ensures
        r@.len() == 2,
        r@[0] == (pfx * 0x10 + ptr / 0x100) as u8,
        r@[1] == (ptr % 0x100) as u8,
{
    [pfx * 0x10 + (ptr / 0x100) as u8, (ptr % 0x100) as u8]
}

fn instr_val(pfx: u8, reg: Register, val: Value) -> (r: [u8; 2])
    requires
        pfx <= 0x0F,
        reg <= 0x0F,
    ensures
        r@.len() == 2,
        r@[0] == (pfx * 0x10 + reg) as u8,
        r@[1] == val,
{
    [pfx * 0x10 + reg as u8, val]
}

fn instr_reg(pfx: u8, dst: Register, src: Register, sfx: Value) -> (r: [u8; 2])
    requires
        pfx <= 0x0F,
        dst <= 0x0F,
        src <= 0x0F,
        sfx <= 0x0F,
    ensures
        r@.len() == 2,
        r@[0] == (pfx * 0x10 + dst) as u8,
        r@[1] == (src * 0x10 + sfx) as u8,
{
    [pfx * 0x10 + dst as u8, (src as u8) * 0x10 + sfx]
}

/// The quotient and remainder of a value composed as `q * d + r`.
pub(crate) proof fn lemma_decompose(q: int, d: int, r: int)
    by (nonlinear_arith)
    requires
        d > 0,
        0 <= r < d,
        0 <= q,
    ensures
        (q * d + r) / d == q,
        (q * d + r) % d == r,
{
}

/// Field extraction from an opcode built of a prefix nibble, a register
/// nibble, and an immediate byte.
proof fn lemma_fields_val(pfx: int, r: int, v: int)
    requires
        0 <= pfx <= 0xF,
        0 <= r <= 0xF,
        0 <= v <= 0xFF,
    ensures
        ({
            let w: u16 = (pfx * 0x1000 + r * 0x100 + v) as u16;
            &&& w == pfx * 0x1000 + r * 0x100 + v
            &&& w / 0x1000 == pfx
            &&& w / 0x100 == pfx * 0x10 + r
            &&& (w / 0x100) % 0x10 == r
            &&& w % 0x100 == v
            &&& w % 0x1000 == r * 0x100 + v
        }),
{
    let wi: int = pfx * 0x1000 + r * 0x100 + v;
    lemma_decompose(pfx, 0x1000, r * 0x100 + v);
    lemma_decompose(pfx * 0x10 + r, 0x100, v);
    lemma_decompose(pfx, 0x10, r);
    assert(wi == (pfx * 0x10 + r) * 0x100 + v);
}

/// Field extraction from an opcode built of a prefix nibble, two register
/// nibbles, and a suffix nibble.
proof fn lemma_fields_reg(pfx: int, d: int, s: int, n: int)
    requires
        0 <= pfx <= 0xF,
        0 <= d <= 0xF,
        0 <= s <= 0xF,
        0 <= n <= 0xF,
    ensures
        ({
            let w: u16 = (pfx * 0x1000 + d * 0x100 + s * 0x10 + n) as u16;
            &&& w == pfx * 0x1000 + d * 0x100 + s * 0x10 + n
            &&& w / 0x1000 == pfx
            &&& w / 0x100 == pfx * 0x10 + d
            &&& (w / 0x100) % 0x10 == d
            &&& (w / 0x10) % 0x10 == s
            &&& w % 0x100 == s * 0x10 + n
            &&& w % 0x10 == n
        }),
{
    let wi: int = pfx * 0x1000 + d * 0x100 + s * 0x10 + n;
    lemma_decompose(pfx, 0x1000, d * 0x100 + s * 0x10 + n);
    assert(wi == (pfx * 0x10 + d) * 0x100 + (s * 0x10 + n));
    lemma_decompose(pfx * 0x10 + d, 0x100, s * 0x10 + n);
    lemma_decompose(pfx, 0x10, d);
    assert(wi == (pfx * 0x100 + d * 0x10 + s) * 0x10 + n);
    lemma_decompose(pfx * 0x100 + d * 0x10 + s, 0x10, n);
    lemma_decompose(pfx * 0x10 + d, 0x10, s);
}

/// Field extraction from an opcode built of a prefix nibble and a 12-bit
/// address.
proof fn lemma_fields_ptr(pfx: int, a: int)
    requires
        0 <= pfx <= 0xF,
        0 <= a <= 0xFFF,
    ensures
        ({
            let w: u16 = (pfx * 0x1000 + a) as u16;
            &&& w == pfx * 0x1000 + a
            &&& w / 0x1000 == pfx
            &&& w % 0x1000 == a
            &&& w / 0x100 == pfx * 0x10 + a / 0x100
            &&& w % 0x100 == a % 0x100
        }),
{
    let wi: int = pfx * 0x1000 + a;
    lemma_decompose(pfx, 0x1000, a);
    assert(a == (a / 0x100) * 0x100 + a % 0x100);
    assert(wi == (pfx * 0x10 + a / 0x100) * 0x100 + a % 0x100);
    lemma_decompose(pfx * 0x10 + a / 0x100, 0x100, a % 0x100);
}

impl Instruction {
    /// The two big-endian opcode bytes this instruction encodes to.
    pub fn encode(&self) -> (r: [u8; 2])
        requires
            self.wf(),
        ensures
            r@.len() == 2,
            r@[0] == opcode_hi(encode_spec(*self)),
            r@[1] == opcode_lo(encode_spec(*self)),
    {
        match *self {
            Instruction::Invalid => [0x00, 0x00],
            Instruction::Sys(addr) => instr_ptr(0x0, addr),
            Instruction::Cls => [0x00, 0xE0],
            Instruction::Ret => [0x00, 0xEE],
            Instruction::Jump(addr) => {
                proof { lemma_fields_ptr(0x1, addr as int); }
                instr_ptr(0x1, addr)
            },
            Instruction::Call(addr) => {
                proof { lemma_fields_ptr(0x2, addr as int); }
                instr_ptr(0x2, addr)
            },
            Instruction::SkipValEq(reg, val) => {
                proof { lemma_fields_val(0x3, reg as int, val as int); }
                instr_val(0x3, reg, val)
            },
            Instruction::SkipValNotEq(reg, val) => {
                proof { lemma_fields_val(0x4, reg as int, val as int); }
                instr_val(0x4, reg, val)
            },
            Instruction::SkipEq(dst, src) => {
                proof { lemma_fields_reg(0x5, dst as int, src as int, 0x0); }
                instr_reg(0x5, dst, src, 0x0)
            },
            Instruction::LoadVal(reg, val) => {
                proof { lemma_fields_val(0x6, reg as int, val as int); }
                instr_val(0x6, reg, val)
            },
            Instruction::AddVal(reg, val) => {
                proof { lemma_fields_val(0x7, reg as int, val as int); }
                instr_val(0x7, reg, val)
            },
            Instruction::Load(dst, src) => {
                proof { lemma_fields_reg(0x8, dst as int, src as int, 0x0); }
                instr_reg(0x8, dst, src, 0x0)
            },
            Instruction::Or(dst, src) => {
                proof { lemma_fields_reg(0x8, dst as int, src as int, 0x1); }
                instr_reg(0x8, dst, src, 0x1)
            },
            Instruction::And(dst, src) => {
                proof { lemma_fields_reg(0x8, dst as int, src as int, 0x2); }
                instr_reg(0x8, dst, src, 0x2)
            },
            Instruction::Xor(dst, src) => {
                proof { lemma_fields_reg(0x8, dst as int, src as int, 0x3); }
                instr_reg(0x8, dst, src, 0x3)
            },
            Instruction::Add(dst, src) => {
                proof { lemma_fields_reg(0x8, dst as int, src as int, 0x4); }
                instr_reg(0x8, dst, src, 0x4)
            },
            Instruction::Sub(dst, src) => {
                proof { lemma_fields_reg(0x8, dst as int, src as int, 0x5); }
                instr_reg(0x8, dst, src, 0x5)
            },
            Instruction::ShiftRight(reg) => {
                proof { lemma_fields_reg(0x8, reg as int, 0x0, 0x6); }
                instr_reg(0x8, reg, 0x0, 0x6)
            },
            Instruction::SubN(dst, src) => {
                proof { lemma_fields_reg(0x8, dst as int, src as int, 0x7); }
                instr_reg(0x8, dst, src, 0x7)
            },
            Instruction::ShiftLeft(reg) => {
                proof { lemma_fields_reg(0x8, reg as int, 0x0, 0xE); }
                instr_reg(0x8, reg, 0x0, 0xE)
            },
            Instruction::SkipNotEq(dst, src) => {
                proof { lemma_fields_reg(0x9, dst as int, src as int, 0x0); }
                instr_reg(0x9, dst, src, 0x0)
            },
            Instruction::LoadAddr(addr) => {
                proof { lemma_fields_ptr(0xA, addr as int); }
                instr_ptr(0xA, addr)
            },
            Instruction::JumpRel(addr) => {
                proof { lemma_fields_ptr(0xB, addr as int); }
                instr_ptr(0xB, addr)
            },
            Instruction::Random(reg, val) => {
                proof { lemma_fields_val(0xC, reg as int, val as int); }
                instr_val(0xC, reg, val)
            },
            Instruction::Draw(x, y, n) => {
                proof { lemma_fields_reg(0xD, x as int, y as int, n as int); }
                instr_reg(0xD, x, y, n)
            },
            Instruction::SkipKeyPressed(reg) => {
                proof { lemma_fields_reg(0xE, reg as int, 0x9, 0xE); }
                instr_reg(0xE, reg, 0x9, 0xE)
            },
            Instruction::SkipKeyNotPressed(reg) => {
                proof { lemma_fields_reg(0xE, reg as int, 0xA, 0x1); }
                instr_reg(0xE, reg, 0xA, 0x1)
            },
            Instruction::LoadDelayTimer(reg) => {
                proof { lemma_fields_reg(0xF, reg as int, 0x0, 0x7); }
                instr_reg(0xF, reg, 0x0, 0x7)
            },
            Instruction::LoadKey(reg) => {
                proof { lemma_fields_reg(0xF, reg as int, 0x0, 0xA); }
                instr_reg(0xF, reg, 0x0, 0xA)
            },
            Instruction::SetDelayTimer(reg) => {
                proof { lemma_fields_reg(0xF, reg as int, 0x1, 0x5); }
                instr_reg(0xF, reg, 0x1, 0x5)
            },
            Instruction::SetSoundTimer(reg) => {
                proof { lemma_fields_reg(0xF, reg as int, 0x1, 0x8); }
                instr_reg(0xF, reg, 0x1, 0x8)
            },
            Instruction::AddI(reg) => {
                proof { lemma_fields_val(0xF, reg as int, 0x1E); }
                instr_val(0xF, reg, 0x1E)
            },
            Instruction::LoadSprite(reg) => {
                proof { lemma_fields_val(0xF, reg as int, 0x29); }
                instr_val(0xF, reg, 0x29)
            },
            Instruction::Bcd(reg) => {
                proof { lemma_fields_val(0xF, reg as int, 0x33); }
                instr_val(0xF, reg, 0x33)
            },
            Instruction::StoreRegs(reg) => {
                proof { lemma_fields_val(0xF, reg as int, 0x55); }
                instr_val(0xF, reg, 0x55)
            },
            Instruction::LoadRegs(reg) => {
                proof { lemma_fields_val(0xF, reg as int, 0x65); }
                instr_val(0xF, reg, 0x65)
            },
        }
    }

    /// Decode an opcode word; undefined bit patterns yield
    /// `Instruction::Invalid`.
    pub fn from(instr: u16) -> (r: Instruction)
        ensures
            r == decode_spec(instr),
    {
        let hi: u16 = instr / 0x1000;
        let r1: usize = ((instr / 0x100) % 0x10) as usize;
        let r2: usize = ((instr / 0x10) % 0x10) as usize;
        let v: u8 = (instr % 0x100) as u8;
        let a: u16 = instr % 0x1000;
        let n: u16 = instr % 0x10;
        if instr == 0x00E0 {
            Instruction::Cls
        } else if instr == 0x00EE {
            Instruction::Ret
        } else if hi == 0x0 {
            Instruction::Sys(a)
        } else if hi == 0x1 {
            Instruction::Jump(a)
        } else if hi == 0x2 {
            Instruction::Call(a)
        } else if hi == 0x3 {
            Instruction::SkipValEq(r1, v)
        } else if hi == 0x4 {
            Instruction::SkipValNotEq(r1, v)
        } else if hi == 0x5 {
            if n == 0 {
                Instruction::SkipEq(r1, r2)
            } else {
                Instruction::Invalid
            }
        } else if hi == 0x6 {
            Instruction::LoadVal(r1, v)
        } else if hi == 0x7 {
            Instruction::AddVal(r1, v)
        } else if hi == 0x8 {
            if n == 0x0 {
                Instruction::Load(r1, r2)
            } else if n == 0x1 {
                Instruction::Or(r1, r2)
            } else if n == 0x2 {
                Instruction::And(r1, r2)
            } else if n == 0x3 {
                Instruction::Xor(r1, r2)
            } else if n == 0x4 {
                Instruction::Add(r1, r2)
            } else if n == 0x5 {
                Instruction::Sub(r1, r2)
            } else if n == 0x6 {
                Instruction::ShiftRight(r1)
            } else if n == 0x7 {
                Instruction::SubN(r1, r2)
            } else if n == 0xE {
                Instruction::ShiftLeft(r1)
            } else {
                Instruction::Invalid
            }
        } else if hi == 0x9 {
            if n == 0 {
                Instruction::SkipNotEq(r1, r2)
            } else {
                Instruction::Invalid
            }
        } else if hi == 0xA {
            Instruction::LoadAddr(a)
        } else if hi == 0xB {
            Instruction::JumpRel(a)
        } else if hi == 0xC {
            Instruction::Random(r1, v)
        } else if hi == 0xD {
            Instruction::Draw(r1, r2, n as u8)
        } else if hi == 0xE {
            if v == 0x9E {
                Instruction::SkipKeyPressed(r1)
            } else if v == 0xA1 {
                Instruction::SkipKeyNotPressed(r1)
            } else {
                Instruction::Invalid
            }
        } else {
            if v == 0x07 {
                Instruction::LoadDelayTimer(r1)
            } else if v == 0x0A {
                Instruction::LoadKey(r1)
            } else if v == 0x15 {
                Instruction::SetDelayTimer(r1)
            } else if v == 0x18 {
                Instruction::SetSoundTimer(r1)
            } else if v == 0x1E {
                Instruction::AddI(r1)
            } else if v == 0x29 {
                Instruction::LoadSprite(r1)
            } else if v == 0x33 {
                Instruction::Bcd(r1)
            } else if v == 0x55 {
                Instruction::StoreRegs(r1)
            } else if v == 0x65 {
                Instruction::LoadRegs(r1)
            } else {
                Instruction::Invalid
            }
        }
    }
}

/// Decoding always yields a well-formed instruction: register indices and
/// draw heights fit in a nibble, addresses in 12 bits.
pub proof fn lemma_decode_wf(w: u16)
    ensures
        decode_spec(w).wf(),
{
}

/// Law: decoding the encoding of any defined, well-formed instruction yields
/// the instruction back. `Invalid` is not a defined instruction (its encoding
/// is the system-call word 0x0000), and the two system-call addresses that
/// coincide with the reserved control opcodes (0x0E0, clear-display, and
/// 0x0EE, return) are excluded, since their encodings decode to the reserved
/// meanings.
pub proof fn lemma_encode_then_decode(i: Instruction)
    requires
        i.wf(),
        !(i matches Instruction::Invalid),
        !(i matches Instruction::Sys(a) && (a == 0x0E0 || a == 0x0EE)),
    ensures
        decode_spec(encode_spec(i)) == i,
{
    match i {
        Instruction::Invalid => {},
        Instruction::Sys(a) => { lemma_fields_ptr(0x0, a as int); },
        Instruction::Cls => {},
        Instruction::Ret => {},
        Instruction::Jump(a) => { lemma_fields_ptr(0x1, a as int); },
        Instruction::Call(a) => { lemma_fields_ptr(0x2, a as int); },
        Instruction::SkipValEq(r, v) => { lemma_fields_val(0x3, r as int, v as int); },
        Instruction::SkipValNotEq(r, v) => { lemma_fields_val(0x4, r as int, v as int); },
        Instruction::SkipEq(d, s) => { lemma_fields_reg(0x5, d as int, s as int, 0x0); },
        Instruction::LoadVal(r, v) => { lemma_fields_val(0x6, r as int, v as int); },
        Instruction::AddVal(r, v) => { lemma_fields_val(0x7, r as int, v as int); },
        Instruction::Load(d, s) => { lemma_fields_reg(0x8, d as int, s as int, 0x0); },
        Instruction::Or(d, s) => { lemma_fields_reg(0x8, d as int, s as int, 0x1); },
        Instruction::And(d, s) => { lemma_fields_reg(0x8, d as int, s as int, 0x2); },
        Instruction::Xor(d, s) => { lemma_fields_reg(0x8, d as int, s as int, 0x3); },
        Instruction::Add(d, s) => { lemma_fields_reg(0x8, d as int, s as int, 0x4); },
        Instruction::Sub(d, s) => { lemma_fields_reg(0x8, d as int, s as int, 0x5); },
        Instruction::ShiftRight(r) => { lemma_fields_reg(0x8, r as int, 0x0, 0x6); },
        Instruction::SubN(d, s) => { lemma_fields_reg(0x8, d as int, s as int, 0x7); },
        Instruction::ShiftLeft(r) => { lemma_fields_reg(0x8, r as int, 0x0, 0xE); },
        Instruction::SkipNotEq(d, s) => { lemma_fields_reg(0x9, d as int, s as int, 0x0); },
        Instruction::LoadAddr(a) => { lemma_fields_ptr(0xA, a as int); },
        Instruction::JumpRel(a) => { lemma_fields_ptr(0xB, a as int); },
        Instruction::Random(r, v) => { lemma_fields_val(0xC, r as int, v as int); },
        Instruction::Draw(x, y, n) => { lemma_fields_reg(0xD, x as int, y as int, n as int); },
        Instruction::SkipKeyPressed(r) => { lemma_fields_reg(0xE, r as int, 0x9, 0xE); },
        Instruction::SkipKeyNotPressed(r) => { lemma_fields_reg(0xE, r as int, 0xA, 0x1); },
        Instruction::LoadDelayTimer(r) => { lemma_fields_reg(0xF, r as int, 0x0, 0x7); },
        Instruction::LoadKey(r) => { lemma_fields_reg(0xF, r as int, 0x0, 0xA); },
        Instruction::SetDelayTimer(r) => { lemma_fields_reg(0xF, r as int, 0x1, 0x5); },
        Instruction::SetSoundTimer(r) => { lemma_fields_reg(0xF, r as int, 0x1, 0x8); },
        Instruction::AddI(r) => { lemma_fields_val(0xF, r as int, 0x1E); },
        Instruction::LoadSprite(r) => { lemma_fields_val(0xF, r as int, 0x29); },
        Instruction::Bcd(r) => { lemma_fields_val(0xF, r as int, 0x33); },
        Instruction::StoreRegs(r) => { lemma_fields_val(0xF, r as int, 0x55); },
        Instruction::LoadRegs(r) => { lemma_fields_val(0xF, r as int, 0x65); },
    }
}

/// Law: every opcode below 0x1000 other than the reserved control words
/// 0x00E0 (clear-display) and 0x00EE (return) decodes to the system-call
/// variant carrying the full 12-bit address.
pub proof fn lemma_low_opcode_is_syscall(w: u16)
    requires
        w <= 0x0FFF,
        w != 0x00E0,
        w != 0x00EE,
    ensures
        decode_spec(w) == Instruction::Sys(w),
{
}

} // verus!

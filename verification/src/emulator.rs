//! The execution engine: owns the machine state and advances it one
//! instruction at a time.

use crate::instruction::{Address, Instruction, Register, Value};
use vstd::prelude::*;

verus! {

/// The display resolutions the machine can run at.
#[derive(Debug, Clone, Copy, PartialEq, Eq, Structural)]
pub enum DisplaySize {
    Basic64x32,
    Eti64x48,
    Eti64x64,
    Hp128x64,
}

/// Fatal conditions: execution cannot safely continue past any of these.
#[derive(Debug, Clone, Copy, PartialEq, Eq, Structural)]
pub enum EmuError {
    /// An undefined bit pattern reached execution; carries the opcode.
    InvalidOpcode(u16),
    /// Return from a subroutine with no call pending.
    StackUnderflow,
    /// A subroutine call with all sixteen return slots in use.
    StackOverflow,
    /// A program image larger than the memory past the load offset.
    ProgramTooLarge,
}

/// Width and height of a display mode, in pixels.
pub open spec fn resolution_of(display: DisplaySize) -> (usize, usize) {
    match display {
        DisplaySize::Basic64x32 => (64usize, 32usize),
        DisplaySize::Eti64x48 => (64usize, 48usize),
        DisplaySize::Eti64x64 => (64usize, 64usize),
        DisplaySize::Hp128x64 => (128usize, 64usize),
    }
}

/// The machine: memory, registers, call stack, timers, key states and the
/// display buffer, exclusively owned and mutated one instruction at a time.
pub struct Emulator {
    memory: Vec<u8>,
    /* internal registers */
    pc_reg: u16,
    sp_reg: u8,
    /* keyboard state */
    keys: Vec<bool>,
    /* general purpose */
    regs: Vec<u8>,
    /* ptr register */
    i_reg: u16,
    /* delay timer and sound timer */
    dt_reg: u8,
    st_reg: u8,
    last_tick: u64,
    frequency: u64,  // Hz
    /* return addr stack */
    stack: Vec<u16>,
    /* screen, flat and column by column: pixel (x, y) at x * height + y */
    resolution: (usize, usize),
    screen: Vec<bool>,
    redraw: bool,
}

/// Mathematical model of the machine state.
#[verifier::ext_equal]
pub struct EmuView {
    pub memory: Seq<u8>,
    pub pc_reg: u16,
    pub sp_reg: u8,
    pub keys: Seq<bool>,
    pub regs: Seq<u8>,
    pub i_reg: u16,
    pub dt_reg: u8,
    pub st_reg: u8,
    pub last_tick: u64,
    pub frequency: u64,
    pub stack: Seq<u16>,
    pub width: usize,
    pub height: usize,
    pub screen: Seq<bool>,
    pub redraw: bool,
}

impl View for Emulator {
    type V = EmuView;

    closed spec fn view(&self) -> EmuView {
        EmuView {
            memory: self.memory@,
            pc_reg: self.pc_reg,
            sp_reg: self.sp_reg,
            keys: self.keys@,
            regs: self.regs@,
            i_reg: self.i_reg,
            dt_reg: self.dt_reg,
            st_reg: self.st_reg,
            last_tick: self.last_tick,
            frequency: self.frequency,
            stack: self.stack@,
            width: self.resolution.0,
            height: self.resolution.1,
            screen: self.screen@,
            redraw: self.redraw,
        }
    }
}

impl EmuView {
    /// Well-formedness: the fixed sizes of the address space, register file,
    /// call stack and key array, a stack pointer within the stack, and a
    /// display buffer matching one of the supported resolutions.
    pub open spec fn wf(self) -> bool {
        &&& self.memory.len() == 4096
        &&& self.regs.len() == 16
        &&& self.stack.len() == 16
        &&& self.keys.len() == 16
        &&& self.sp_reg <= 16
        &&& (resolution_of(DisplaySize::Basic64x32) == (self.width, self.height)
            || resolution_of(DisplaySize::Eti64x48) == (self.width, self.height)
            || resolution_of(DisplaySize::Eti64x64) == (self.width, self.height)
            || resolution_of(DisplaySize::Hp128x64) == (self.width, self.height))
        &&& self.screen.len() == self.width * self.height
    }
}

/// The built-in font: sixteen hexadecimal glyphs of five rows each, glyph
/// `d` at offset `5 * d`; each row byte holds eight horizontally packed
/// pixels, most-significant bit leftmost.
pub open spec fn font_data() -> Seq<u8> {
    seq![
        0xF0u8, 0x90, 0x90, 0x90, 0xF0,
        0x20, 0x60, 0x20, 0x20, 0x70,
        0xF0, 0x10, 0xF0, 0x80, 0xF0,
        0xF0, 0x10, 0xF0, 0x10, 0xF0,
        0x90, 0x90, 0xF0, 0x10, 0x10,
        0xF0, 0x80, 0xF0, 0x10, 0xF0,
        0xF0, 0x80, 0xF0, 0x90, 0xF0,
        0xF0, 0x10, 0x20, 0x40, 0x40,
        0xF0, 0x90, 0xF0, 0x90, 0xF0,
        0xF0, 0x90, 0xF0, 0x10, 0xF0,
        0xF0, 0x90, 0xF0, 0x90, 0x90,
        0xE0, 0x90, 0xE0, 0x90, 0xE0,
        0xF0, 0x80, 0x80, 0x80, 0xF0,
        0xE0, 0x90, 0x90, 0x90, 0xE0,
        0xF0, 0x80, 0xF0, 0x80, 0xF0,
        0xF0, 0x80, 0xF0, 0x80, 0x80,
    ]
}

/// Memory with the font installed over its first eighty bytes.
pub open spec fn with_font(mem: Seq<u8>) -> Seq<u8> {
    Seq::new(mem.len(), |i: int| if 0 <= i < 80 { font_data()[i] } else { mem[i] })
}

/// The initial 4096-byte address space: the font, then zeroes.
pub open spec fn init_memory() -> Seq<u8> {
    Seq::new(4096, |i: int| if 0 <= i < 80 { font_data()[i] } else { 0u8 })
}

/// An all-dark display buffer of the given cell count.
pub open spec fn blank_screen(n: int) -> Seq<bool> {
    Seq::new(n as nat, |i: int| false)
}

/// The machine in its initial state for a display mode, timers last
/// updated at `now` (nanoseconds of wall-clock time).
pub open spec fn init_view(display: DisplaySize, now: u64) -> EmuView {
    EmuView {
        memory: init_memory(),
        pc_reg: 0x200,
        sp_reg: 0,
        keys: Seq::new(16, |i: int| false),
        regs: Seq::new(16, |i: int| 0u8),
        i_reg: 0,
        dt_reg: 0,
        st_reg: 0,
        last_tick: now,
        frequency: 6000,
        stack: Seq::new(16, |i: int| 0u16),
        width: resolution_of(display).0,
        height: resolution_of(display).1,
        screen: blank_screen(resolution_of(display).0 * resolution_of(display).1),
        redraw: false,
    }
}

/// The machine after a reset: registers, stack, timers, program counter,
/// memory (font re-installed), keys and display restored to their initial
/// state; the display mode, the redraw flag and the timer baseline stay.
pub open spec fn reset_view(v: EmuView) -> EmuView {
    EmuView {
        memory: init_memory(),
        pc_reg: 0x200,
        sp_reg: 0,
        keys: Seq::new(16, |i: int| false),
        regs: Seq::new(16, |i: int| 0u8),
        i_reg: 0,
        dt_reg: 0,
        st_reg: 0,
        stack: Seq::new(16, |i: int| 0u16),
        screen: blank_screen(v.screen.len() as int),
        ..v
    }
}

/// Memory after a program image is copied in at the load offset 0x200.
pub open spec fn load_mem(mem: Seq<u8>, data: Seq<u8>) -> Seq<u8> {
    Seq::new(mem.len(), |a: int| if 0x200 <= a < 0x200 + data.len() { data[a - 0x200] } else { mem[a] })
}

fn zero_bytes(n: usize) -> (r: Vec<u8>)
    ensures
        r@ == Seq::new(n as nat, |i: int| 0u8),
{
    let mut v: Vec<u8> = Vec::new();
    while v.len() < n
        invariant
            v@.len() <= n,
            forall|k: int| 0 <= k < v@.len() ==> v@[k] == 0u8,
        decreases n - v@.len(),
    {
        v.push(0);
    }
    proof {
        assert(v@ =~= Seq::new(n as nat, |i: int| 0u8));
    }
    v
}

fn zero_words(n: usize) -> (r: Vec<u16>)
    ensures
        r@ == Seq::new(n as nat, |i: int| 0u16),
{
    let mut v: Vec<u16> = Vec::new();
    while v.len() < n
        invariant
            v@.len() <= n,
            forall|k: int| 0 <= k < v@.len() ==> v@[k] == 0u16,
        decreases n - v@.len(),
    {
        v.push(0);
    }
    proof {
        assert(v@ =~= Seq::new(n as nat, |i: int| 0u16));
    }
    v
}

fn false_flags(n: usize) -> (r: Vec<bool>)
    ensures
        r@ == Seq::new(n as nat, |i: int| false),
{
    let mut v: Vec<bool> = Vec::new();
    while v.len() < n
        invariant
            v@.len() <= n,
            forall|k: int| 0 <= k < v@.len() ==> !v@[k],
        decreases n - v@.len(),
    {
        v.push(false);
    }
    proof {
        assert(v@ =~= Seq::new(n as nat, |i: int| false));
    }
    v
}

/// The font rows as a runtime table, in glyph order.
fn font_table() -> (r: Vec<u8>)
    ensures
        r@ == font_data(),
{
    let v: Vec<u8> = vec![
        0xF0u8, 0x90, 0x90, 0x90, 0xF0,
        0x20, 0x60, 0x20, 0x20, 0x70,
        0xF0, 0x10, 0xF0, 0x80, 0xF0,
        0xF0, 0x10, 0xF0, 0x10, 0xF0,
        0x90, 0x90, 0xF0, 0x10, 0x10,
        0xF0, 0x80, 0xF0, 0x10, 0xF0,
        0xF0, 0x80, 0xF0, 0x90, 0xF0,
        0xF0, 0x10, 0x20, 0x40, 0x40,
        0xF0, 0x90, 0xF0, 0x90, 0xF0,
        0xF0, 0x90, 0xF0, 0x10, 0xF0,
        0xF0, 0x90, 0xF0, 0x90, 0x90,
        0xE0, 0x90, 0xE0, 0x90, 0xE0,
        0xF0, 0x80, 0x80, 0x80, 0xF0,
        0xE0, 0x90, 0x90, 0x90, 0xE0,
        0xF0, 0x80, 0xF0, 0x80, 0xF0,
        0xF0, 0x80, 0xF0, 0x80, 0x80,
    ];
    proof {
        assert(v@ =~= font_data());
    }
    v
}

impl Emulator {
    fn get_resolution(display: DisplaySize) -> (r: (usize, usize))
        ensures
            r == resolution_of(display),
    {
        match display {
            DisplaySize::Basic64x32 => (64, 32),
            DisplaySize::Eti64x48 => (64, 48),
            DisplaySize::Eti64x64 => (64, 64),
            DisplaySize::Hp128x64 => (128, 64),
        }
    }

    fn set_screen_mode(&mut self, resolution: DisplaySize)
        ensures
            (final(self)@ == EmuView {
                width: resolution_of(resolution).0,
                height: resolution_of(resolution).1,
                screen: blank_screen(
                    resolution_of(resolution).0 * resolution_of(resolution).1,
                ),
                ..old(self)@
            }),
    {
        let resolution = Emulator::get_resolution(resolution);
        proof {
            assert(resolution.0 * resolution.1 <= 8192);
        }
        self.resolution = resolution;
        self.screen = false_flags(resolution.0 * resolution.1);
    }

    fn init_sprites(&mut self)
        requires
            old(self)@.memory.len() == 4096,
        ensures
            (final(self)@ == EmuView { memory: with_font(old(self)@.memory), ..old(self)@ }),
    {
        let table = font_table();
        let mut idx: usize = 0;
        while idx < 80
            invariant
                idx <= 80,
                table@ == font_data(),
                self@.memory.len() == 4096,
                forall|k: int| 0 <= k < idx ==> self@.memory[k] == font_data()[k],
                forall|k: int| idx <= k < 4096 ==> self@.memory[k] == old(self)@.memory[k],
                (self@ == EmuView { memory: self@.memory, ..old(self)@ }),
            decreases 80 - idx,
        {
            self.memory[idx] = table[idx];
            idx += 1;
        }
        proof {
            assert(self@.memory =~= with_font(old(self)@.memory));
        }
    }

    /// A fresh machine for the given display mode, with the font installed,
    /// the program counter at the load offset, and the timer baseline taken
    /// from `now` (nanoseconds of wall-clock time).
    pub fn new_with_time(display: DisplaySize, now: u64) -> (r: Self)
        ensures
            r@ == init_view(display, now),
            r@.wf(),
    {
        let resolution = Emulator::get_resolution(display);
        proof {
            assert(resolution.0 * resolution.1 <= 8192);
        }
        let mut emu = Emulator {
            pc_reg: 0x200,
            sp_reg: 0,
            i_reg: 0,
            dt_reg: 0,
            st_reg: 0,
            last_tick: now,
            frequency: 6000,
            memory: zero_bytes(4096),
            regs: zero_bytes(16),
            stack: zero_words(16),
            resolution,
            screen: false_flags(resolution.0 * resolution.1),
            redraw: false,
            keys: false_flags(16),
        };
        emu.init_sprites();
        proof {
            assert(emu@.memory =~= init_memory());
            assert(emu@ =~= init_view(display, now));
        }
        emu
    }

    /// A fresh machine whose timer baseline is the wall clock now.
    pub fn new(display: DisplaySize) -> (r: Self)
        ensures
            exists|now: u64| r@ == init_view(display, now),
            r@.wf(),
    {
        let now = now_nanos();
        let emu = Emulator::new_with_time(display, now);
        proof {
            assert(emu@ == init_view(display, now));
        }
        emu
    }

    /// Restore the initial state without destroying the machine: registers,
    /// stack, timers, program counter, memory (font re-installed), keys and
    /// display, keeping the display mode.
    pub fn reset(&mut self)
        requires
            old(self)@.wf(),
        ensures
            final(self)@ == reset_view(old(self)@),
            final(self)@.wf(),
    {
        self.pc_reg = 0x200;
        self.sp_reg = 0;
        self.screen = false_flags(self.screen.len());
        self.memory = zero_bytes(4096);
        self.init_sprites();
        self.regs = zero_bytes(16);
        self.i_reg = 0;
        self.dt_reg = 0;
        self.st_reg = 0;
        self.stack = zero_words(16);
        self.keys = false_flags(16);
        proof {
            assert(self@.memory =~= init_memory());
            assert(self@ =~= reset_view(old(self)@));
        }
    }

    /// Copy a program image into memory starting at the load offset 0x200,
    /// leaving all other state alone. An image longer than the 3584 bytes of
    /// memory past the load offset is rejected whole.
    pub fn mem_load_bin(&mut self, data: Vec<u8>) -> (r: Result<(), EmuError>)
        requires
            old(self)@.wf(),
        ensures
            final(self)@.wf(),
            match r {
                Ok(()) => data@.len() <= 3584 && (final(self)@ == EmuView {
                    memory: load_mem(old(self)@.memory, data@),
                    ..old(self)@
                }),
                Err(e) => e == EmuError::ProgramTooLarge && data@.len() > 3584
                    && final(self)@ == old(self)@,
            },
    {
        if data.len() > 3584 {
            return Err(EmuError::ProgramTooLarge);
        }
        let mut idx: usize = 0;
        while idx < data.len()
            invariant
                idx <= data@.len() <= 3584,
                self@.memory.len() == 4096,
                forall|a: int| 0x200 <= a < 0x200 + idx ==> self@.memory[a] == data@[a - 0x200],
                forall|a: int| 0 <= a < 0x200 ==> self@.memory[a] == old(self)@.memory[a],
                forall|a: int| 0x200 + idx <= a < 4096 ==> self@.memory[a] == old(self)@.memory[a],
                (self@ == EmuView { memory: self@.memory, ..old(self)@ }),
            decreases data@.len() - idx,
        {
            self.memory[0x200 + idx] = data[idx];
            idx += 1;
        }
        proof {
            assert(self@.memory =~= load_mem(old(self)@.memory, data@));
        }
        Ok(())
    }
}

/// Nanoseconds per timer tick: the delay and sound timers decrement at 60 Hz.
pub const TICK_NANOS: u64 = 1_000_000_000 / 60;

/// The elapsed nanoseconds between the last timer update and `now`; a clock
/// that moved backwards counts as no elapsed time.
pub open spec fn elapsed_since(last: u64, now: u64) -> u64 {
    if now >= last {
        (now - last) as u64
    } else {
        0
    }
}

/// How many times the timer-update loop decrements across elapsed time `e`:
/// once per whole elapsed tick.
pub open spec fn tick_count(e: u64) -> nat
    decreases e,
{
    if e >= TICK_NANOS {
        (1 + tick_count((e - TICK_NANOS) as u64)) as nat
    } else {
        0
    }
}

/// A timer after `n` decrements, saturating at zero.
pub open spec fn timer_after(t: u8, n: nat) -> u8 {
    if t >= n {
        (t - n) as u8
    } else {
        0
    }
}

/// The machine after its timers are brought up to `now`: each timer
/// decrements once per elapsed tick, never below zero, and the baseline
/// moves to `now` whenever at least one tick elapsed.
pub open spec fn ticked(v: EmuView, now: u64) -> EmuView {
    let e = elapsed_since(v.last_tick, now);
    EmuView {
        dt_reg: timer_after(v.dt_reg, tick_count(e)),
        st_reg: timer_after(v.st_reg, tick_count(e)),
        last_tick: if e >= TICK_NANOS { now } else { v.last_tick },
        ..v
    }
}

/// Stepping the elapsed time down by one tick steps the whole-tick quotient
/// down by one and keeps the remainder.
proof fn lemma_tick_step(e: u64)
    by (nonlinear_arith)
    requires
        e >= TICK_NANOS,
    ensures
        ((e - TICK_NANOS) as u64) / TICK_NANOS == e / TICK_NANOS - 1,
        ((e - TICK_NANOS) as u64) % TICK_NANOS == e % TICK_NANOS,
{
}

/// Law: the number of timer decrements across elapsed time `e` is exactly
/// the number of whole ticks elapsed.
pub proof fn lemma_tick_count_whole(e: u64)
    ensures
        tick_count(e) == e / TICK_NANOS,
    decreases e,
{
    if e >= TICK_NANOS {
        lemma_tick_count_whole((e - TICK_NANOS) as u64);
        lemma_tick_step(e);
    }
}

/// Law: bringing the timers up to `now` decrements each by exactly the
/// number of whole elapsed ticks, saturating at zero.
pub proof fn lemma_timer_decrement(v: EmuView, now: u64)
    requires
        now >= v.last_tick,
    ensures
        ({
            let e = (now - v.last_tick) as u64;
            let n = tick_count(e);
            &&& n == e / TICK_NANOS
            &&& ticked(v, now).dt_reg == if v.dt_reg >= n {
                (v.dt_reg - n) as u8
            } else {
                0
            }
            &&& ticked(v, now).st_reg == if v.st_reg >= n {
                (v.st_reg - n) as u8
            } else {
                0
            }
        }),
{
    lemma_tick_count_whole((now - v.last_tick) as u64);
}

impl Emulator {
    fn tick_with_time(&mut self, now: u64)
        ensures
            final(self)@ == ticked(old(self)@, now),
    {
        if now < self.last_tick {
            proof {
                assert(ticked(old(self)@, now) =~= old(self)@);
            }
            return;
        }
        let mut elapsed: u64 = now - self.last_tick;
        let ghost e0: u64 = elapsed;
        if elapsed >= TICK_NANOS {
            let ghost mut done: nat = 0;
            while elapsed >= TICK_NANOS
                invariant
                    done + tick_count(elapsed) == tick_count(e0),
                    self.st_reg == timer_after(old(self).st_reg, done),
                    self.dt_reg == timer_after(old(self).dt_reg, done),
                    (self@ == EmuView {
                        dt_reg: self@.dt_reg,
                        st_reg: self@.st_reg,
                        ..old(self)@
                    }),
                decreases elapsed,
            {
                if self.st_reg > 0 {
                    self.st_reg = self.st_reg - 1;
                }
                if self.dt_reg > 0 {
                    self.dt_reg = self.dt_reg - 1;
                }
                elapsed = elapsed - TICK_NANOS;
                proof {
                    done = done + 1;
                }
            }
            self.last_tick = now;
            proof {
                assert(final(self)@ =~= ticked(old(self)@, now));
            }
        } else {
            proof {
                assert(ticked(old(self)@, now) =~= old(self)@);
            }
        }
    }

    fn tick(&mut self)
        ensures
            exists|now: u64| final(self)@ == ticked(old(self)@, now),
    {
        let now = now_nanos();
        self.tick_with_time(now);
        proof {
            assert(final(self)@ == ticked(old(self)@, now));
        }
    }
}

/// The machine with the program counter advanced one instruction, wrapping
/// over the 16-bit register.
pub open spec fn inc_pc_view(v: EmuView) -> EmuView {
    EmuView { pc_reg: vstd::wrapping::u16_specs::wrapping_add(v.pc_reg, 2), ..v }
}

/// The machine after a clear-display: every cell dark, a redraw pending.
pub open spec fn cls_view(v: EmuView) -> EmuView {
    EmuView { screen: blank_screen(v.screen.len() as int), redraw: true, ..v }
}

/// The machine after the legacy display-mode switch: the extended 64x64
/// display, freshly dark, and execution resumed at 0x2C0.
pub open spec fn hires_view(v: EmuView) -> EmuView {
    EmuView {
        width: 64,
        height: 64,
        screen: blank_screen(4096int),
        pc_reg: 0x2C0,
        ..v
    }
}

/// The machine after a return from subroutine (one return address pending).
pub open spec fn ret_view(v: EmuView) -> EmuView {
    EmuView {
        sp_reg: (v.sp_reg - 1) as u8,
        pc_reg: v.stack[v.sp_reg - 1],
        ..v
    }
}

/// The machine after a subroutine call (a return slot free).
pub open spec fn call_view(v: EmuView, a: u16) -> EmuView {
    EmuView {
        stack: v.stack.update(v.sp_reg as int, v.pc_reg),
        sp_reg: (v.sp_reg + 1) as u8,
        pc_reg: a,
        ..v
    }
}

/// The machine after an 8-bit add of register `s` into register `d`: the
/// flag register reports the carry first, then the destination takes the
/// wrapped sum (so a destination of 0xF keeps the written flag as operand).
pub open spec fn add_view(v: EmuView, d: int, s: int) -> EmuView {
    let flag: u8 = if v.regs[d] + v.regs[s] > 255 { 1u8 } else { 0u8 };
    let r1 = v.regs.update(15, flag);
    EmuView { regs: r1.update(d, vstd::wrapping::u8_specs::wrapping_add(r1[d], r1[s])), ..v }
}

/// The machine after `d := d - s`: the flag register reports no-borrow
/// (`d >= s`) first, then the destination takes the wrapped difference.
pub open spec fn sub_view(v: EmuView, d: int, s: int) -> EmuView {
    let flag: u8 = if v.regs[d] >= v.regs[s] { 1u8 } else { 0u8 };
    let r1 = v.regs.update(15, flag);
    EmuView { regs: r1.update(d, vstd::wrapping::u8_specs::wrapping_sub(r1[d], r1[s])), ..v }
}

/// The machine after the reverse subtract `d := s - d`: the flag register
/// reports no-borrow (`s >= d`) first.
pub open spec fn subn_view(v: EmuView, d: int, s: int) -> EmuView {
    let flag: u8 = if v.regs[s] >= v.regs[d] { 1u8 } else { 0u8 };
    let r1 = v.regs.update(15, flag);
    EmuView { regs: r1.update(d, vstd::wrapping::u8_specs::wrapping_sub(r1[s], r1[d])), ..v }
}

/// The machine after a right shift by one: the flag register takes the bit
/// shifted out first, then the register shifts.
pub open spec fn shr_view(v: EmuView, r: int) -> EmuView {
    let flag: u8 = if v.regs[r] & 0x01 != 0 { 1u8 } else { 0u8 };
    let r1 = v.regs.update(15, flag);
    EmuView { regs: r1.update(r, r1[r] >> 1u8), ..v }
}

/// The machine after a left shift by one (wrapping): the flag register takes
/// the bit shifted out first, then the register shifts.
pub open spec fn shl_view(v: EmuView, r: int) -> EmuView {
    let flag: u8 = if v.regs[r] & 128 != 0 { 1u8 } else { 0u8 };
    let r1 = v.regs.update(15, flag);
    EmuView { regs: r1.update(r, r1[r] << 1u8), ..v }
}

/// The machine after a register takes a random byte masked by `val`.
pub open spec fn rand_view(v: EmuView, r: int, val: u8, b: u8) -> EmuView {
    EmuView { regs: v.regs.update(r, b & val), ..v }
}

/// The row of sprite data `row` rows past the index register, indices
/// wrapping over the 4096-byte address space.
pub open spec fn sprite_row(mem: Seq<u8>, i_reg: u16, row: int) -> u8 {
    mem[(i_reg + row) % 4096]
}

/// Whether a sprite row byte has the pixel at `col` set; the
/// most-significant bit is the leftmost pixel.
pub open spec fn sprite_bit(line: u8, col: int) -> bool {
    line & (1u8 << ((7 - col) as u8)) != 0
}

/// The display cell a sprite pixel at (`col`, `row`) from origin
/// (`x0`, `y0`) lands on: coordinates wrap toroidally in both directions.
pub open spec fn pix_at(width: usize, height: usize, x0: u8, y0: u8, col: int, row: int) -> int {
    ((x0 + col) % (width as int)) * (height as int) + ((y0 + row) % (height as int))
}

/// Display buffer and collision flag after the first `k` single-pixel steps
/// of a sprite draw from origin (`x0`, `y0`): step `k` works on column
/// `k % 8` of row `k / 8`, flipping the target cell by the sprite pixel and
/// recording a collision whenever a lit cell is flipped off.
pub open spec fn draw_state(v: EmuView, x0: u8, y0: u8, k: int) -> (Seq<bool>, bool)
    decreases k,
{
    if k <= 0 {
        (v.screen, false)
    } else {
        let prior = draw_state(v, x0, y0, k - 1);
        let row = (k - 1) / 8;
        let col = (k - 1) % 8;
        let idx = pix_at(v.width, v.height, x0, y0, col, row);
        let sp = sprite_bit(sprite_row(v.memory, v.i_reg, row), col);
        (prior.0.update(idx, prior.0[idx] ^ sp), prior.1 || (sp && prior.0[idx]))
    }
}

/// The machine after drawing an `n`-row sprite read at the index register,
/// at the origin held in registers `xreg` and `yreg`: pixels flip by XOR,
/// the flag register reports whether any lit pixel was cleared, and a
/// redraw is pending.
pub open spec fn draw_view(v: EmuView, xreg: int, yreg: int, n: u8) -> EmuView {
    let x0 = v.regs[xreg];
    let y0 = v.regs[yreg];
    let end = draw_state(v, x0, y0, 8 * n);
    EmuView {
        screen: end.0,
        regs: v.regs.update(15, if end.1 { 1u8 } else { 0u8 }),
        redraw: true,
        ..v
    }
}

/// A sprite draw never changes the size of the display buffer.
pub proof fn lemma_draw_state_len(v: EmuView, x0: u8, y0: u8, k: int)
    requires
        v.wf(),
    ensures
        draw_state(v, x0, y0, k).0.len() == v.screen.len(),
    decreases k,
{
    if k > 0 {
        lemma_draw_state_len(v, x0, y0, k - 1);
        let row = (k - 1) / 8;
        let col = (k - 1) % 8;
        lemma_grid_bounds(
            (x0 + col) % (v.width as int),
            (y0 + row) % (v.height as int),
            v.width as int,
            v.height as int,
        );
    }
}

/// The cell the sprite-draw step `k` targets: column `k % 8` of row `k / 8`.
pub open spec fn step_cell(v: EmuView, x0: u8, y0: u8, k: int) -> int {
    pix_at(v.width, v.height, x0, y0, k % 8, k / 8)
}

/// Whether sprite-draw step `k` carries a lit sprite pixel.
pub open spec fn step_lit(v: EmuView, x0: u8, y0: u8, k: int) -> bool {
    sprite_bit(sprite_row(v.memory, v.i_reg, k / 8), k % 8)
}

/// Whether one of the first `k` sprite-draw steps puts a lit pixel on the
/// cell `idx`.
pub open spec fn covered_before(v: EmuView, x0: u8, y0: u8, k: int, idx: int) -> bool {
    exists|j: int|
        0 <= j < k && #[trigger] step_cell(v, x0, y0, j) == idx && step_lit(v, x0, y0, j)
}

/// Whether the `n`-row sprite drawn from origin (`x0`, `y0`) has a lit
/// pixel landing on the cell at column `px`, row `py`.
pub open spec fn sprite_covers(v: EmuView, x0: u8, y0: u8, n: int, px: int, py: int) -> bool {
    exists|row: int, col: int|
        0 <= row < n && 0 <= col < 8
        && (x0 + col) % (v.width as int) == px && (y0 + row) % (v.height as int) == py
        && #[trigger] sprite_bit(sprite_row(v.memory, v.i_reg, row), col)
}

/// Whether the `n`-row sprite drawn from origin (`x0`, `y0`) has a lit
/// pixel landing on a cell that is already lit.
pub open spec fn sprite_collides(v: EmuView, x0: u8, y0: u8, n: int) -> bool {
    exists|row: int, col: int|
        0 <= row < n && 0 <= col < 8
        && #[trigger] sprite_bit(sprite_row(v.memory, v.i_reg, row), col)
        && v.screen[pix_at(v.width, v.height, x0, y0, col, row)]
}

/// A nonzero multiple of a positive value has magnitude at least that value.
proof fn lemma_multiple_bound(k: int, m: int)
    by (nonlinear_arith)
    requires
        m > 0,
        k != 0,
    ensures
        k * m >= m || k * m <= -m,
{
}

/// Two offsets inside one window of the modulus that land on the same
/// residue are equal.
proof fn lemma_mod_window_injective(t: int, a: int, b: int, m: int)
    requires
        m > 0,
        0 <= a < m,
        0 <= b < m,
        t >= 0,
        (t + a) % m == (t + b) % m,
    ensures
        a == b,
{
    vstd::arithmetic::div_mod::lemma_fundamental_div_mod(t + a, m);
    vstd::arithmetic::div_mod::lemma_fundamental_div_mod(t + b, m);
    let q1 = (t + a) / m;
    let q2 = (t + b) / m;
    if q1 != q2 {
        assert(a - b == (q1 - q2) * m) by (nonlinear_arith)
            requires
                t + a == m * q1 + (t + a) % m,
                t + b == m * q2 + (t + b) % m,
                (t + a) % m == (t + b) % m,
        ;
        lemma_multiple_bound(q1 - q2, m);
    }
}

/// Distinct sprite-draw steps whose rows lie within the display height
/// target distinct cells: eight columns never wrap into each other on a
/// display at least eight wide, nor do that few rows on these heights.
proof fn lemma_step_cells_distinct(v: EmuView, x0: u8, y0: u8, j: int, l: int)
    requires
        v.wf(),
        0 <= j,
        0 <= l,
        j != l,
        j / 8 < v.height,
        l / 8 < v.height,
    ensures
        step_cell(v, x0, y0, j) != step_cell(v, x0, y0, l),
{
    let w = v.width as int;
    let h = v.height as int;
    let pxj = (x0 + j % 8) % w;
    let pyj = (y0 + j / 8) % h;
    let pxl = (x0 + l % 8) % w;
    let pyl = (y0 + l / 8) % h;
    if step_cell(v, x0, y0, j) == step_cell(v, x0, y0, l) {
        crate::instruction::lemma_decompose(pxj, h, pyj);
        crate::instruction::lemma_decompose(pxl, h, pyl);
        assert(pxj == pxl && pyj == pyl);
        lemma_mod_window_injective(x0 as int, j % 8, l % 8, w);
        lemma_mod_window_injective(y0 as int, j / 8, l / 8, h);
        assert(j == 8 * (j / 8) + j % 8);
        assert(l == 8 * (l / 8) + l % 8);
    }
}

/// After `k` sprite-draw steps, a cell holds its original value flipped
/// exactly when one of those steps put a lit pixel on it, and the collision
/// flag is up exactly when such a step hit an originally lit cell.
proof fn lemma_draw_state_pixels(v: EmuView, x0: u8, y0: u8, k: int, idx: int)
    requires
        v.wf(),
        0 <= k,
        (k - 1) / 8 < v.height,
        0 <= idx < v.screen.len(),
    ensures
        ({
            let end = draw_state(v, x0, y0, k);
            &&& end.0[idx] == (v.screen[idx] ^ covered_before(v, x0, y0, k, idx))
            &&& end.1 == exists|j: int|
                0 <= j < k && step_lit(v, x0, y0, j)
                    && v.screen[#[trigger] step_cell(v, x0, y0, j)]
        }),
    decreases k,
{
    let end = draw_state(v, x0, y0, k);
    if k <= 0 {
        assert(!covered_before(v, x0, y0, k, idx));
    } else {
        lemma_draw_state_pixels(v, x0, y0, k - 1, idx);
        lemma_draw_state_len(v, x0, y0, k - 1);
        let prior = draw_state(v, x0, y0, k - 1);
        let tgt = step_cell(v, x0, y0, k - 1);
        let lit = step_lit(v, x0, y0, k - 1);
        lemma_grid_bounds(
            (x0 + (k - 1) % 8) % (v.width as int),
            (y0 + (k - 1) / 8) % (v.height as int),
            v.width as int,
            v.height as int,
        );
        if tgt != idx {
            lemma_draw_state_pixels(v, x0, y0, k - 1, tgt);
        }
        // the step's own target holds its original value: no earlier step
        // lands on the same cell
        assert(!covered_before(v, x0, y0, k - 1, tgt)) by {
            if covered_before(v, x0, y0, k - 1, tgt) {
                let j = choose|j: int|
                    0 <= j < k - 1 && #[trigger] step_cell(v, x0, y0, j) == tgt
                        && step_lit(v, x0, y0, j);
                lemma_step_cells_distinct(v, x0, y0, j, k - 1);
            }
        }
        if tgt == idx {
            if lit {
                assert(covered_before(v, x0, y0, k, idx)) by {
                    assert(step_cell(v, x0, y0, k - 1) == idx && step_lit(v, x0, y0, k - 1));
                }
            } else {
                assert(covered_before(v, x0, y0, k, idx) == covered_before(
                    v,
                    x0,
                    y0,
                    k - 1,
                    idx,
                )) by {
                    if covered_before(v, x0, y0, k, idx) {
                        let j = choose|j: int|
                            0 <= j < k && #[trigger] step_cell(v, x0, y0, j) == idx
                                && step_lit(v, x0, y0, j);
                        assert(j < k - 1);
                        assert(covered_before(v, x0, y0, k - 1, idx));
                    }
                }
            }
        } else {
            assert(covered_before(v, x0, y0, k, idx) == covered_before(
                v,
                x0,
                y0,
                k - 1,
                idx,
            )) by {
                if covered_before(v, x0, y0, k, idx) {
                    let j = choose|j: int|
                        0 <= j < k && #[trigger] step_cell(v, x0, y0, j) == idx
                            && step_lit(v, x0, y0, j);
                    assert(j < k - 1);
                    assert(covered_before(v, x0, y0, k - 1, idx));
                }
            }
        }
        // the collision flag gathers hits on originally lit cells
        assert(prior.0[tgt] == (v.screen[tgt] ^ covered_before(v, x0, y0, k - 1, tgt)));
        if lit && prior.0[tgt] {
            assert(step_lit(v, x0, y0, k - 1) && v.screen[step_cell(v, x0, y0, k - 1)]);
        }
        if !(lit && prior.0[tgt]) && end.1 {
            assert(prior.1);
        }
    }
}

/// Law: a sprite draw flips exactly the cells its lit pixels land on, each
/// coordinate wrapping toroidally around the display; every other cell keeps
/// its value.
pub proof fn lemma_draw_flips_covered_cells(
    v: EmuView,
    xreg: int,
    yreg: int,
    n: u8,
    px: int,
    py: int,
)
    requires
        v.wf(),
        0 <= xreg < 16,
        0 <= yreg < 16,
        n <= 0xF,
        0 <= px < v.width,
        0 <= py < v.height,
    ensures
        ({
            let x0 = v.regs[xreg];
            let y0 = v.regs[yreg];
            draw_view(v, xreg, yreg, n).screen[px * v.height + py] == (v.screen[px * v.height
                + py] ^ sprite_covers(v, x0, y0, n as int, px, py))
        }),
{
    let x0 = v.regs[xreg];
    let y0 = v.regs[yreg];
    let h = v.height as int;
    let idx = px * h + py;
    lemma_grid_bounds(px, py, v.width as int, h);
    lemma_draw_state_pixels(v, x0, y0, 8 * n, idx);
    assert(covered_before(v, x0, y0, 8 * n, idx) == sprite_covers(
        v,
        x0,
        y0,
        n as int,
        px,
        py,
    )) by {
        if covered_before(v, x0, y0, 8 * n, idx) {
            let j = choose|j: int|
                0 <= j < 8 * n && #[trigger] step_cell(v, x0, y0, j) == idx && step_lit(
                    v,
                    x0,
                    y0,
                    j,
                );
            let row = j / 8;
            let col = j % 8;
            crate::instruction::lemma_decompose(
                (x0 + col) % (v.width as int),
                h,
                (y0 + row) % h,
            );
            crate::instruction::lemma_decompose(px, h, py);
            assert((x0 + col) % (v.width as int) == px && (y0 + row) % h == py);
            assert(row < n) by {
                crate::instruction::lemma_decompose(n as int, 8, 0);
            }
            assert(sprite_bit(sprite_row(v.memory, v.i_reg, row), col));
        }
        if sprite_covers(v, x0, y0, n as int, px, py) {
            let (row, col) = choose|row: int, col: int|
                0 <= row < n && 0 <= col < 8 && (x0 + col) % (v.width as int) == px && (y0 + row)
                    % h == py && #[trigger] sprite_bit(sprite_row(v.memory, v.i_reg, row), col);
            let j = 8 * row + col;
            crate::instruction::lemma_decompose(row, 8, col);
            assert(step_cell(v, x0, y0, j) == idx && step_lit(v, x0, y0, j));
            assert(0 <= j < 8 * n);
        }
    }
}

/// Law: a sprite draw reports a collision in the flag register exactly when
/// one of its lit pixels lands on a cell that was already lit.
pub proof fn lemma_draw_collision_flag(v: EmuView, xreg: int, yreg: int, n: u8)
    requires
        v.wf(),
        0 <= xreg < 16,
        0 <= yreg < 16,
        n <= 0xF,
    ensures
        ({
            let x0 = v.regs[xreg];
            let y0 = v.regs[yreg];
            draw_view(v, xreg, yreg, n).regs[15] == if sprite_collides(v, x0, y0, n as int) {
                1u8
            } else {
                0u8
            }
        }),
{
    let x0 = v.regs[xreg];
    let y0 = v.regs[yreg];
    let w = v.width as int;
    let h = v.height as int;
    lemma_draw_state_pixels(v, x0, y0, 8 * n, 0);
    let end = draw_state(v, x0, y0, 8 * n);
    assert(end.1 == sprite_collides(v, x0, y0, n as int)) by {
        if end.1 {
            let j = choose|j: int|
                0 <= j < 8 * n && step_lit(v, x0, y0, j) && v.screen[#[trigger] step_cell(
                    v,
                    x0,
                    y0,
                    j,
                )];
            let row = j / 8;
            let col = j % 8;
            assert(row < n) by {
                crate::instruction::lemma_decompose(n as int, 8, 0);
            }
            assert(sprite_bit(sprite_row(v.memory, v.i_reg, row), col) && v.screen[pix_at(
                v.width,
                v.height,
                x0,
                y0,
                col,
                row,
            )]);
        }
        if sprite_collides(v, x0, y0, n as int) {
            let (row, col) = choose|row: int, col: int|
                0 <= row < n && 0 <= col < 8 && #[trigger] sprite_bit(
                    sprite_row(v.memory, v.i_reg, row),
                    col,
                ) && v.screen[pix_at(v.width, v.height, x0, y0, col, row)];
            let j = 8 * row + col;
            crate::instruction::lemma_decompose(row, 8, col);
            assert(step_lit(v, x0, y0, j) && v.screen[step_cell(v, x0, y0, j)]);
            assert(0 <= j < 8 * n);
        }
    }
}

/// The index of the first pressed key at or past `i`, in key order.
pub open spec fn first_pressed(keys: Seq<bool>, i: int) -> Option<u8>
    decreases 16 - i,
{
    if !(0 <= i < 16) {
        None
    } else if keys[i] {
        Some(i as u8)
    } else {
        first_pressed(keys, i + 1)
    }
}

/// The machine after a blocking key read into register `r`: the lowest
/// pressed key index lands in the register, or, with no key pressed, the
/// program counter rewinds one instruction so the read runs again on the
/// next step.
pub open spec fn load_key_view(v: EmuView, r: int) -> EmuView {
    match first_pressed(v.keys, 0) {
        Some(k) => EmuView { regs: v.regs.update(r, k), ..v },
        None => EmuView { pc_reg: vstd::wrapping::u16_specs::wrapping_sub(v.pc_reg, 2), ..v },
    }
}

/// Memory after a register block store: the first `count` registers copied
/// to consecutive bytes at the index register, addresses wrapping over the
/// address space.
pub open spec fn store_regs_mem(mem: Seq<u8>, regs: Seq<u8>, i_reg: u16, count: int) -> Seq<u8>
    decreases count,
{
    if count <= 0 {
        mem
    } else {
        store_regs_mem(mem, regs, i_reg, count - 1).update(
            (i_reg + count - 1) % 4096,
            regs[count - 1],
        )
    }
}

/// The register file after its first `count` registers are loaded from
/// consecutive memory bytes at the index register, addresses wrapping over
/// the address space.
pub open spec fn load_regs_from_mem(regs: Seq<u8>, mem: Seq<u8>, i_reg: u16, count: int) -> Seq<u8>
    decreases count,
{
    if count <= 0 {
        regs
    } else {
        load_regs_from_mem(regs, mem, i_reg, count - 1).update(
            count - 1,
            mem[(i_reg + count - 1) % 4096],
        )
    }
}

/// The machine after the binary-coded-decimal expansion of register `r`:
/// hundreds, tens and ones digits written to the three bytes at the index
/// register, addresses wrapping over the address space.
pub open spec fn bcd_view(v: EmuView, r: int) -> EmuView {
    let val = v.regs[r];
    let i = v.i_reg as int;
    EmuView {
        memory: v.memory
            .update((i + 2) % 4096, val % 10)
            .update((i + 1) % 4096, (val / 10) % 10)
            .update(i % 4096, val / 100),
        ..v
    }
}

/// A display cell named by in-range coordinates lies inside the buffer.
proof fn lemma_grid_bounds(x: int, y: int, w: int, h: int)
    by (nonlinear_arith)
    requires
        0 <= x < w,
        0 <= y < h,
    ensures
        0 <= x * h + y < w * h,
{
}

impl Emulator {
    fn inc_pc(&mut self)
        ensures
            final(self)@ == inc_pc_view(old(self)@),
    {
        self.pc_reg = self.pc_reg.wrapping_add(2);
    }

    fn screen_draw(&mut self)
        ensures
            (final(self)@ == EmuView { redraw: true, ..old(self)@ }),
    {
        self.redraw = true;
    }

    fn hires(&mut self)
        ensures
            final(self)@ == hires_view(old(self)@),
    {
        self.set_screen_mode(DisplaySize::Eti64x64);
        self.pc_reg = 0x2C0;
        proof {
            assert(final(self)@ =~= hires_view(old(self)@));
        }
    }

    /// Clear display
    fn cls(&mut self)
        ensures
            final(self)@ == cls_view(old(self)@),
    {
        let total = self.screen.len();
        let mut idx: usize = 0;
        while idx < total
            invariant
                idx <= total,
                self@.screen.len() == total,
                forall|k: int| 0 <= k < idx ==> !self@.screen[k],
                forall|k: int| idx <= k < total ==> self@.screen[k] == old(self)@.screen[k],
                (self@ == EmuView { screen: self@.screen, ..old(self)@ }),
            decreases total - idx,
        {
            self.screen[idx] = false;
            idx += 1;
        }
        self.screen_draw();
        proof {
            assert(final(self)@.screen =~= blank_screen(old(self)@.screen.len() as int));
            assert(final(self)@ =~= cls_view(old(self)@));
        }
    }

    /// Return from subroutine
    fn ret(&mut self) -> (r: Result<(), EmuError>)
        requires
            old(self)@.wf(),
        ensures
            match r {
                Ok(()) => old(self)@.sp_reg >= 1 && final(self)@ == ret_view(old(self)@),
                Err(e) => {
                    &&& e == EmuError::StackUnderflow
                    &&& old(self)@.sp_reg == 0
                    &&& final(self)@ == old(self)@
                },
            },
    {
        if self.sp_reg == 0 {
            return Err(EmuError::StackUnderflow);
        }
        self.sp_reg = self.sp_reg - 1;
        self.pc_reg = self.stack[self.sp_reg as usize];
        Ok(())
    }

    /// Jump to address
    fn jump(&mut self, addr: Address)
        ensures
            (final(self)@ == EmuView { pc_reg: addr, ..old(self)@ }),
    {
        self.pc_reg = addr;
    }

    /// Call function at address
    fn call(&mut self, addr: Address) -> (r: Result<(), EmuError>)
        requires
            old(self)@.wf(),
        ensures
            match r {
                Ok(()) => old(self)@.sp_reg < 16 && final(self)@ == call_view(old(self)@, addr),
                Err(e) => {
                    &&& e == EmuError::StackOverflow
                    &&& old(self)@.sp_reg == 16
                    &&& final(self)@ == old(self)@
                },
            },
    {
        if self.sp_reg >= 16 {
            return Err(EmuError::StackOverflow);
        }
        self.stack[self.sp_reg as usize] = self.pc_reg;
        self.sp_reg = self.sp_reg + 1;
        self.pc_reg = addr;
        Ok(())
    }

    fn skip_val_equal(&mut self, reg: Register, val: Value)
        requires
            old(self)@.wf(),
            reg < 16,
        ensures
            final(self)@ == if old(self)@.regs[reg as int] == val {
                inc_pc_view(old(self)@)
            } else {
                old(self)@
            },
    {
        if self.regs[reg] == val {
            self.inc_pc();
        }
    }

    fn skip_val_notequal(&mut self, reg: Register, val: Value)
        requires
            old(self)@.wf(),
            reg < 16,
        ensures
            final(self)@ == if old(self)@.regs[reg as int] != val {
                inc_pc_view(old(self)@)
            } else {
                old(self)@
            },
    {
        if self.regs[reg] != val {
            self.inc_pc();
        }
    }

    fn skip_reg_equal(&mut self, reg1: Register, reg2: Register)
        requires
            old(self)@.wf(),
            reg1 < 16,
            reg2 < 16,
        ensures
            final(self)@ == if old(self)@.regs[reg1 as int] == old(self)@.regs[reg2 as int] {
                inc_pc_view(old(self)@)
            } else {
                old(self)@
            },
    {
        if self.regs[reg1] == self.regs[reg2] {
            self.inc_pc();
        }
    }

    fn skip_reg_not_equal(&mut self, dst: Register, src: Register)
        requires
            old(self)@.wf(),
            dst < 16,
            src < 16,
        ensures
            final(self)@ == if old(self)@.regs[dst as int] != old(self)@.regs[src as int] {
                inc_pc_view(old(self)@)
            } else {
                old(self)@
            },
    {
        if self.regs[dst] != self.regs[src] {
            self.inc_pc();
        }
    }

    fn load_val(&mut self, dst: Register, val: Value)
        requires
            old(self)@.wf(),
            dst < 16,
        ensures
            (final(self)@ == EmuView {
                regs: old(self)@.regs.update(dst as int, val),
                ..old(self)@
            }),
    {
        self.regs[dst] = val;
    }

    fn add_val(&mut self, dst: Register, val: Value)
        requires
            old(self)@.wf(),
            dst < 16,
        ensures
            (final(self)@ == EmuView {
                regs: old(self)@.regs.update(
                    dst as int,
                    vstd::wrapping::u8_specs::wrapping_add(old(self)@.regs[dst as int], val),
                ),
                ..old(self)@
            }),
    {
        let sum = self.regs[dst].wrapping_add(val);
        self.regs[dst] = sum;
    }

    fn load(&mut self, dst: Register, src: Register)
        requires
            old(self)@.wf(),
            dst < 16,
            src < 16,
        ensures
            (final(self)@ == EmuView {
                regs: old(self)@.regs.update(dst as int, old(self)@.regs[src as int]),
                ..old(self)@
            }),
    {
        let v = self.regs[src];
        self.regs[dst] = v;
    }

    fn or(&mut self, dst: Register, src: Register)
        requires
            old(self)@.wf(),
            dst < 16,
            src < 16,
        ensures
            (final(self)@ == EmuView {
                regs: old(self)@.regs.update(
                    dst as int,
                    old(self)@.regs[dst as int] | old(self)@.regs[src as int],
                ),
                ..old(self)@
            }),
    {
        let v = self.regs[dst] | self.regs[src];
        self.regs[dst] = v;
    }

    fn and(&mut self, dst: Register, src: Register)
        requires
            old(self)@.wf(),
            dst < 16,
            src < 16,
        ensures
            (final(self)@ == EmuView {
                regs: old(self)@.regs.update(
                    dst as int,
                    old(self)@.regs[dst as int] & old(self)@.regs[src as int],
                ),
                ..old(self)@
            }),
    {
        let v = self.regs[dst] & self.regs[src];
        self.regs[dst] = v;
    }

    fn xor(&mut self, dst: Register, src: Register)
        requires
            old(self)@.wf(),
            dst < 16,
            src < 16,
        ensures
            (final(self)@ == EmuView {
                regs: old(self)@.regs.update(
                    dst as int,
                    old(self)@.regs[dst as int] ^ old(self)@.regs[src as int],
                ),
                ..old(self)@
            }),
    {
        let v = self.regs[dst] ^ self.regs[src];
        self.regs[dst] = v;
    }

    fn add(&mut self, dst: Register, src: Register)
        requires
            old(self)@.wf(),
            dst < 16,
            src < 16,
        ensures
            final(self)@ == add_view(old(self)@, dst as int, src as int),
    {
        let flag: u8 = if self.regs[dst] as u16 + self.regs[src] as u16 > 255 {
            1
        } else {
            0
        };
        self.regs[0xF] = flag;
        let sum = self.regs[dst].wrapping_add(self.regs[src]);
        self.regs[dst] = sum;
    }

    fn sub(&mut self, dst: Register, src: Register)
        requires
            old(self)@.wf(),
            dst < 16,
            src < 16,
        ensures
            final(self)@ == sub_view(old(self)@, dst as int, src as int),
    {
        let flag: u8 = if self.regs[dst] >= self.regs[src] {
            1
        } else {
            0
        };
        self.regs[0xF] = flag;
        let diff = self.regs[dst].wrapping_sub(self.regs[src]);
        self.regs[dst] = diff;
    }

    fn subn(&mut self, dst: Register, src: Register)
        requires
            old(self)@.wf(),
            dst < 16,
            src < 16,
        ensures
            final(self)@ == subn_view(old(self)@, dst as int, src as int),
    {
        let flag: u8 = if self.regs[src] >= self.regs[dst] {
            1
        } else {
            0
        };
        self.regs[0xF] = flag;
        let diff = self.regs[src].wrapping_sub(self.regs[dst]);
        self.regs[dst] = diff;
    }

    fn shr(&mut self, reg: Register)
        requires
            old(self)@.wf(),
            reg < 16,
        ensures
            final(self)@ == shr_view(old(self)@, reg as int),
    {
        let flag: u8 = if self.regs[reg] & 0x01 != 0 {
            1
        } else {
            0
        };
        self.regs[0xF] = flag;
        let shifted = self.regs[reg] >> 1u8;
        self.regs[reg] = shifted;
    }

    fn shl(&mut self, reg: Register)
        requires
            old(self)@.wf(),
            reg < 16,
        ensures
            final(self)@ == shl_view(old(self)@, reg as int),
    {
        let flag: u8 = if self.regs[reg] & 128 != 0 {
            1
        } else {
            0
        };
        self.regs[0xF] = flag;
        let shifted = self.regs[reg] << 1u8;
        self.regs[reg] = shifted;
    }

    fn load_addr(&mut self, addr: Address)
        ensures
            (final(self)@ == EmuView { i_reg: addr, ..old(self)@ }),
    {
        self.i_reg = addr;
    }

    fn jump_v0(&mut self, addr: Address)
        requires
            old(self)@.wf(),
            addr <= 0xFFF,
        ensures
            (final(self)@ == EmuView {
                pc_reg: (old(self)@.regs[0] + addr) as u16,
                ..old(self)@
            }),
    {
        self.pc_reg = self.regs[0] as u16 + addr;
    }

    fn rand(&mut self, reg: Register, val: Value)
        requires
            old(self)@.wf(),
            reg < 16,
        ensures
            exists|b: u8| final(self)@ == rand_view(old(self)@, reg as int, val, b),
    {
        let b = random_byte();
        self.regs[reg] = b & val;
        proof {
            assert(self@ =~= rand_view(old(self)@, reg as int, val, b));
        }
    }

    // skip if key pressed; the key index is the register value reduced mod 16
    // (key values are 0x0..0xF; the raw value would index past the key array)
    fn skp(&mut self, reg: Register)
        requires
            old(self)@.wf(),
            reg < 16,
        ensures
            final(self)@ == if old(self)@.keys[old(self)@.regs[reg as int] as int % 16] {
                inc_pc_view(old(self)@)
            } else {
                old(self)@
            },
    {
        if self.keys[(self.regs[reg] as usize) % 16] {
            self.inc_pc();
        }
    }

    // skip if key not pressed
    fn sknp(&mut self, reg: Register)
        requires
            old(self)@.wf(),
            reg < 16,
        ensures
            final(self)@ == if !old(self)@.keys[old(self)@.regs[reg as int] as int % 16] {
                inc_pc_view(old(self)@)
            } else {
                old(self)@
            },
    {
        if !self.keys[(self.regs[reg] as usize) % 16] {
            self.inc_pc();
        }
    }

    fn dt_to_vx(&mut self, reg: Register)
        requires
            old(self)@.wf(),
            reg < 16,
        ensures
            (final(self)@ == EmuView {
                regs: old(self)@.regs.update(reg as int, old(self)@.dt_reg),
                ..old(self)@
            }),
    {
        self.regs[reg] = self.dt_reg;
    }

    fn load_key(&mut self, reg: Register)
        requires
            old(self)@.wf(),
            reg < 16,
        ensures
            final(self)@ == load_key_view(old(self)@, reg as int),
    {
        let mut idx: usize = 0;
        while idx < 16
            invariant
                old(self)@.wf(),
                reg < 16,
                idx <= 16,
                self@ == old(self)@,
                first_pressed(old(self)@.keys, 0) == first_pressed(old(self)@.keys, idx as int),
            decreases 16 - idx,
        {
            if self.keys[idx] {
                self.regs[reg] = idx as u8;
                proof {
                    assert(self@ =~= load_key_view(old(self)@, reg as int));
                }
                return;
            }
            idx += 1;
        }
        self.pc_reg = self.pc_reg.wrapping_sub(2);
        proof {
            assert(self@ =~= load_key_view(old(self)@, reg as int));
        }
    }

    fn vx_to_dt(&mut self, src: Register)
        requires
            old(self)@.wf(),
            src < 16,
        ensures
            (final(self)@ == EmuView { dt_reg: old(self)@.regs[src as int], ..old(self)@ }),
    {
        self.dt_reg = self.regs[src];
    }

    fn load_st(&mut self, src: Register)
        requires
            old(self)@.wf(),
            src < 16,
        ensures
            (final(self)@ == EmuView { st_reg: old(self)@.regs[src as int], ..old(self)@ }),
    {
        self.st_reg = self.regs[src];
    }

    fn addi(&mut self, src: Register)
        requires
            old(self)@.wf(),
            src < 16,
        ensures
            (final(self)@ == EmuView {
                i_reg: vstd::wrapping::u16_specs::wrapping_add(
                    old(self)@.i_reg,
                    old(self)@.regs[src as int] as u16,
                ),
                ..old(self)@
            }),
    {
        let v = self.regs[src] as u16;
        self.i_reg = self.i_reg.wrapping_add(v);
    }

    fn loadi_sprite(&mut self, src: Register)
        requires
            old(self)@.wf(),
            src < 16,
        ensures
            (final(self)@ == EmuView {
                i_reg: (old(self)@.regs[src as int] * 5) as u16,
                ..old(self)@
            }),
    {
        self.i_reg = self.regs[src] as u16 * 5;
    }

    fn bcd(&mut self, src: Register)
        requires
            old(self)@.wf(),
            src < 16,
        ensures
            final(self)@ == bcd_view(old(self)@, src as int),
    {
        let val = self.regs[src];
        let i = self.i_reg as usize;
        self.memory[(i + 2) % 4096] = val % 10;
        self.memory[(i + 1) % 4096] = (val / 10) % 10;
        self.memory[i % 4096] = val / 100;
        proof {
            assert(self@ =~= bcd_view(old(self)@, src as int));
        }
    }

    fn regs_to_mem(&mut self, reg: Register)
        requires
            old(self)@.wf(),
            reg < 16,
        ensures
            (final(self)@ == EmuView {
                memory: store_regs_mem(
                    old(self)@.memory,
                    old(self)@.regs,
                    old(self)@.i_reg,
                    reg + 1,
                ),
                ..old(self)@
            }),
    {
        let mut i: usize = 0;
        while i <= reg
            invariant
                old(self)@.wf(),
                reg < 16,
                i <= reg + 1,
                self@.memory == store_regs_mem(
                    old(self)@.memory,
                    old(self)@.regs,
                    old(self)@.i_reg,
                    i as int,
                ),
                self@.memory.len() == 4096,
                (self@ == EmuView { memory: self@.memory, ..old(self)@ }),
            decreases reg + 1 - i,
        {
            self.memory[(self.i_reg as usize + i) % 4096] = self.regs[i];
            i += 1;
        }
    }

    fn mem_to_regs(&mut self, reg: Register)
        requires
            old(self)@.wf(),
            reg < 16,
        ensures
            (final(self)@ == EmuView {
                regs: load_regs_from_mem(
                    old(self)@.regs,
                    old(self)@.memory,
                    old(self)@.i_reg,
                    reg + 1,
                ),
                ..old(self)@
            }),
    {
        let mut i: usize = 0;
        while i <= reg
            invariant
                old(self)@.wf(),
                reg < 16,
                i <= reg + 1,
                self@.regs == load_regs_from_mem(
                    old(self)@.regs,
                    old(self)@.memory,
                    old(self)@.i_reg,
                    i as int,
                ),
                self@.regs.len() == 16,
                (self@ == EmuView { regs: self@.regs, ..old(self)@ }),
            decreases reg + 1 - i,
        {
            self.regs[i] = self.memory[(self.i_reg as usize + i) % 4096];
            i += 1;
        }
    }

    fn draw(&mut self, xreg: Register, yreg: Register, n: Value)
        requires
            old(self)@.wf(),
            xreg < 16,
            yreg < 16,
            n <= 0xF,
        ensures
            final(self)@ == draw_view(old(self)@, xreg as int, yreg as int, n),
    {
        let x_start = self.regs[xreg];
        let y_start = self.regs[yreg];
        self.regs[0xF] = 0;
        let n_rows = n as usize;
        let mut y: usize = 0;
        while y < n_rows
            invariant
                old(self)@.wf(),
                xreg < 16,
                yreg < 16,
                n_rows <= 15,
                y <= n_rows,
                x_start == old(self)@.regs[xreg as int],
                y_start == old(self)@.regs[yreg as int],
                ({
                    let step = draw_state(old(self)@, x_start, y_start, 8 * y);
                    &&& self@.screen == step.0
                    &&& self@.regs == old(self)@.regs.update(
                        15,
                        if step.1 { 1u8 } else { 0u8 },
                    )
                }),
                (self@ == EmuView { screen: self@.screen, regs: self@.regs, ..old(self)@ }),
            decreases n_rows - y,
        {
            let line = self.memory[(self.i_reg as usize + y) % 4096];
            let screen_y = (y_start as usize + y) % self.resolution.1;
            let mut x: usize = 0;
            while x < 8
                invariant
                    old(self)@.wf(),
                    xreg < 16,
                    yreg < 16,
                    n_rows <= 15,
                    y < n_rows,
                    x <= 8,
                    x_start == old(self)@.regs[xreg as int],
                    y_start == old(self)@.regs[yreg as int],
                    line == sprite_row(old(self)@.memory, old(self)@.i_reg, y as int),
                    screen_y == (y_start + y) % old(self)@.height as int,
                    ({
                        let step = draw_state(old(self)@, x_start, y_start, 8 * y + x);
                        &&& self@.screen == step.0
                        &&& self@.regs == old(self)@.regs.update(
                            15,
                            if step.1 { 1u8 } else { 0u8 },
                        )
                    }),
                    (self@ == EmuView { screen: self@.screen, regs: self@.regs, ..old(self)@ }),
                decreases 8 - x,
            {
                let sh: u8 = (7 - x) as u8;
                let sprite_pixel = line & (1u8 << sh) != 0;
                let screen_x = (x_start as usize + x) % self.resolution.0;
                proof {
                    lemma_grid_bounds(
                        screen_x as int,
                        screen_y as int,
                        old(self)@.width as int,
                        old(self)@.height as int,
                    );
                    lemma_draw_state_len(old(self)@, x_start, y_start, 8 * y + x);
                }
                let idx = screen_x * self.resolution.1 + screen_y;
                let current = self.screen[idx];
                if sprite_pixel && current {
                    self.regs[0xF] = 1;
                }
                self.screen[idx] = current ^ sprite_pixel;
                x += 1;
                proof {
                    crate::instruction::lemma_decompose(y as int, 8, x - 1);
                    assert(idx == pix_at(
                        old(self)@.width,
                        old(self)@.height,
                        x_start,
                        y_start,
                        x - 1,
                        y as int,
                    ));
                    assert(sprite_pixel == sprite_bit(
                        sprite_row(old(self)@.memory, old(self)@.i_reg, y as int),
                        x - 1,
                    ));
                    let stepped = draw_state(old(self)@, x_start, y_start, 8 * y + x);
                    assert(stepped.0 =~= self@.screen);
                    assert(self@.regs =~= old(self)@.regs.update(
                        15,
                        if stepped.1 { 1u8 } else { 0u8 },
                    ));
                }
            }
            y += 1;
        }
        self.screen_draw();
        proof {
            assert(final(self)@ =~= draw_view(old(self)@, xreg as int, yreg as int, n));
        }
    }
}

/// The big-endian opcode word fetched at the program counter; fetch
/// addresses wrap over the 4096-byte address space.
pub open spec fn fetched_word(v: EmuView) -> u16 {
    crate::instruction::word_of(
        v.memory[v.pc_reg as int % 4096],
        v.memory[(v.pc_reg + 1) % 4096],
    )
}

/// The machine after executing opcode `w` from state `v`, or the fatal
/// error it raises (leaving `v` unchanged). `rnd` stands for the byte the
/// random-number generator would hand the randomization instruction; every
/// other instruction ignores it. Two legacy rules come first: the
/// system-call word 0x0230 acts as a clear-display, and a jump to 0x260
/// exactly when the program counter reads 0x202 switches the display to the
/// extended 64x64 mode, resuming at 0x2C0.
pub open spec fn exec_effect(v: EmuView, w: u16, rnd: u8) -> Result<EmuView, EmuError> {
    let i = crate::instruction::decode_spec(w);
    if i == Instruction::Sys(0x230) {
        Ok(cls_view(v))
    } else if i == Instruction::Jump(0x260) && v.pc_reg == 0x202 {
        Ok(hires_view(v))
    } else {
        match i {
            Instruction::Invalid => Err(EmuError::InvalidOpcode(w)),
            Instruction::Sys(_) => Ok(v),
            Instruction::Cls => Ok(cls_view(v)),
            Instruction::Ret => if v.sp_reg == 0 {
                Err(EmuError::StackUnderflow)
            } else {
                Ok(ret_view(v))
            },
            Instruction::Jump(a) => Ok(EmuView { pc_reg: a, ..v }),
            Instruction::Call(a) => if v.sp_reg >= 16 {
                Err(EmuError::StackOverflow)
            } else {
                Ok(call_view(v, a))
            },
            Instruction::SkipValEq(r, val) => Ok(
                if v.regs[r as int] == val { inc_pc_view(v) } else { v },
            ),
            Instruction::SkipValNotEq(r, val) => Ok(
                if v.regs[r as int] != val { inc_pc_view(v) } else { v },
            ),
            Instruction::SkipEq(d, s) => Ok(
                if v.regs[d as int] == v.regs[s as int] { inc_pc_view(v) } else { v },
            ),
            Instruction::LoadVal(r, val) => Ok(
                EmuView { regs: v.regs.update(r as int, val), ..v },
            ),
            Instruction::AddVal(r, val) => Ok(
                EmuView {
                    regs: v.regs.update(
                        r as int,
                        vstd::wrapping::u8_specs::wrapping_add(v.regs[r as int], val),
                    ),
                    ..v
                },
            ),
            Instruction::Load(d, s) => Ok(
                EmuView { regs: v.regs.update(d as int, v.regs[s as int]), ..v },
            ),
            Instruction::Or(d, s) => Ok(
                EmuView {
                    regs: v.regs.update(d as int, v.regs[d as int] | v.regs[s as int]),
                    ..v
                },
            ),
            Instruction::And(d, s) => Ok(
                EmuView {
                    regs: v.regs.update(d as int, v.regs[d as int] & v.regs[s as int]),
                    ..v
                },
            ),
            Instruction::Xor(d, s) => Ok(
                EmuView {
                    regs: v.regs.update(d as int, v.regs[d as int] ^ v.regs[s as int]),
                    ..v
                },
            ),
            Instruction::Add(d, s) => Ok(add_view(v, d as int, s as int)),
            Instruction::Sub(d, s) => Ok(sub_view(v, d as int, s as int)),
            Instruction::ShiftRight(r) => Ok(shr_view(v, r as int)),
            Instruction::SubN(d, s) => Ok(subn_view(v, d as int, s as int)),
            Instruction::ShiftLeft(r) => Ok(shl_view(v, r as int)),
            Instruction::SkipNotEq(d, s) => Ok(
                if v.regs[d as int] != v.regs[s as int] { inc_pc_view(v) } else { v },
            ),
            Instruction::LoadAddr(a) => Ok(EmuView { i_reg: a, ..v }),
            Instruction::JumpRel(a) => Ok(
                EmuView { pc_reg: (v.regs[0] + a) as u16, ..v },
            ),
            Instruction::Random(r, val) => Ok(rand_view(v, r as int, val, rnd)),
            Instruction::Draw(x, y, n) => Ok(draw_view(v, x as int, y as int, n)),
            Instruction::SkipKeyPressed(r) => Ok(
                if v.keys[v.regs[r as int] as int % 16] { inc_pc_view(v) } else { v },
            ),
            Instruction::SkipKeyNotPressed(r) => Ok(
                if !v.keys[v.regs[r as int] as int % 16] { inc_pc_view(v) } else { v },
            ),
            Instruction::LoadDelayTimer(r) => Ok(
                EmuView { regs: v.regs.update(r as int, v.dt_reg), ..v },
            ),
            Instruction::LoadKey(r) => Ok(load_key_view(v, r as int)),
            Instruction::SetDelayTimer(r) => Ok(
                EmuView { dt_reg: v.regs[r as int], ..v },
            ),
            Instruction::SetSoundTimer(r) => Ok(
                EmuView { st_reg: v.regs[r as int], ..v },
            ),
            Instruction::AddI(r) => Ok(
                EmuView {
                    i_reg: vstd::wrapping::u16_specs::wrapping_add(
                        v.i_reg,
                        v.regs[r as int] as u16,
                    ),
                    ..v
                },
            ),
            Instruction::LoadSprite(r) => Ok(
                EmuView { i_reg: (v.regs[r as int] * 5) as u16, ..v },
            ),
            Instruction::Bcd(r) => Ok(bcd_view(v, r as int)),
            Instruction::StoreRegs(r) => Ok(
                EmuView {
                    memory: store_regs_mem(v.memory, v.regs, v.i_reg, r + 1),
                    ..v
                },
            ),
            Instruction::LoadRegs(r) => Ok(
                EmuView {
                    regs: load_regs_from_mem(v.regs, v.memory, v.i_reg, r + 1),
                    ..v
                },
            ),
        }
    }
}

/// What one step from `pre` to `post` may return when the timers were
/// brought up to `now`: a successful step applies `cycle_effect` for some
/// random byte; a fatal error is the one `cycle_effect` raises, with the
/// machine left as it stood after fetch and timer update.
pub open spec fn cycle_outcome(
    pre: EmuView,
    post: EmuView,
    now: u64,
    r: Result<(), EmuError>,
) -> bool {
    match r {
        Ok(()) => exists|rnd: u8| Ok::<EmuView, EmuError>(post) == cycle_effect(pre, now, rnd),
        Err(e) => {
            &&& cycle_effect(pre, now, 0) == Err::<EmuView, EmuError>(e)
            &&& post == pre_exec_view(pre, now)
        },
    }
}

/// The machine as it stands when an instruction's effect is applied: the
/// opcode fetched (from the state before), the program counter advanced,
/// and the timers brought up to `now`.
pub open spec fn pre_exec_view(v: EmuView, now: u64) -> EmuView {
    ticked(inc_pc_view(v), now)
}

/// One full cycle from state `v`: fetch at the program counter, advance it,
/// bring the timers up to `now`, then execute the fetched opcode (with `rnd`
/// standing for the byte the randomization instruction would draw).
pub open spec fn cycle_effect(v: EmuView, now: u64, rnd: u8) -> Result<EmuView, EmuError> {
    exec_effect(pre_exec_view(v, now), fetched_word(v), rnd)
}

/// Executing an opcode preserves well-formedness.
#[verifier::rlimit(100)]
#[verifier::spinoff_prover]
proof fn lemma_exec_effect_wf(v: EmuView, w: u16, rnd: u8)
    requires
        v.wf(),
    ensures
        exec_effect(v, w, rnd) matches Ok(v2) ==> v2.wf(),
{
    crate::instruction::lemma_decode_wf(w);
    if exec_effect(v, w, rnd) matches Ok(v2) {
        match crate::instruction::decode_spec(w) {
            Instruction::Draw(x, y, n) => {
                lemma_draw_state_len(v, v.regs[x as int], v.regs[y as int], 8 * n);
            },
            Instruction::StoreRegs(r) => {
                lemma_store_regs_mem_len(v.memory, v.regs, v.i_reg, r + 1);
            },
            Instruction::LoadRegs(r) => {
                lemma_load_regs_len(v.regs, v.memory, v.i_reg, r + 1);
            },
            _ => {},
        }
    }
}

/// A block store of registers never changes the size of memory.
proof fn lemma_store_regs_mem_len(mem: Seq<u8>, regs: Seq<u8>, i_reg: u16, count: int)
    requires
        mem.len() == 4096,
    ensures
        store_regs_mem(mem, regs, i_reg, count).len() == 4096,
    decreases count,
{
    if count > 0 {
        lemma_store_regs_mem_len(mem, regs, i_reg, count - 1);
    }
}

/// A block load into registers never changes the size of the register file.
proof fn lemma_load_regs_len(regs: Seq<u8>, mem: Seq<u8>, i_reg: u16, count: int)
    requires
        regs.len() == 16,
        count <= 16,
    ensures
        load_regs_from_mem(regs, mem, i_reg, count).len() == 16,
    decreases count,
{
    if count > 0 {
        lemma_load_regs_len(regs, mem, i_reg, count - 1);
    }
}

impl Emulator {
    fn cpu_load(&mut self) -> (w: u16)
        requires
            old(self)@.wf(),
        ensures
            w == fetched_word(old(self)@),
            final(self)@ == inc_pc_view(old(self)@),
            final(self)@.wf(),
    {
        let hi = self.memory[(self.pc_reg as usize) % 4096];
        let lo = self.memory[((self.pc_reg as usize) + 1) % 4096];
        let instr: u16 = (hi as u16) * 0x100 + (lo as u16);
        self.inc_pc();
        instr
    }

    fn cpu_exec(&mut self, instr: u16) -> (r: Result<(), EmuError>)
        requires
            old(self)@.wf(),
        ensures
            final(self)@.wf(),
            match r {
                Ok(()) => exists|rnd: u8|
                    Ok::<EmuView, EmuError>(final(self)@) == exec_effect(old(self)@, instr, rnd),
                Err(e) => {
                    &&& exec_effect(old(self)@, instr, 0) == Err::<EmuView, EmuError>(e)
                    &&& final(self)@ == old(self)@
                },
            },
    {
        proof {
            crate::instruction::lemma_decode_wf(instr);
            lemma_exec_effect_wf(old(self)@, instr, 0);
        }
        let decoded = Instruction::from(instr);
        match decoded {
            /* 2 special cases: syscall 0x230 clears the display, and a jump
            to 0x260 as the first fetched instruction switches to the
            extended display mode */
            Instruction::Sys(addr) => {
                if addr == 0x230 {
                    self.cls();
                }
                Ok(())
            },
            Instruction::Jump(addr) => {
                if addr == 0x260 && self.pc_reg == 0x202 {
                    self.hires();
                } else {
                    self.jump(addr);
                }
                Ok(())
            },
            Instruction::Cls => {
                self.cls();
                Ok(())
            },
            Instruction::Ret => {
                let r = self.ret();
                proof {
                    if r is Ok {
                        assert(Ok::<EmuView, EmuError>(self@) == exec_effect(old(self)@, instr, 0));
                    }
                }
                r
            },
            Instruction::Call(addr) => {
                let r = self.call(addr);
                proof {
                    if r is Ok {
                        assert(Ok::<EmuView, EmuError>(self@) == exec_effect(old(self)@, instr, 0));
                    }
                }
                r
            },
            Instruction::SkipValEq(reg, val) => {
                self.skip_val_equal(reg, val);
                Ok(())
            },
            Instruction::SkipValNotEq(reg, val) => {
                self.skip_val_notequal(reg, val);
                Ok(())
            },
            Instruction::SkipEq(reg1, reg2) => {
                self.skip_reg_equal(reg1, reg2);
                Ok(())
            },
            Instruction::LoadVal(reg, val) => {
                self.load_val(reg, val);
                Ok(())
            },
            Instruction::AddVal(reg, val) => {
                self.add_val(reg, val);
                Ok(())
            },
            Instruction::Load(dst, src) => {
                self.load(dst, src);
                Ok(())
            },
            Instruction::Or(dst, src) => {
                self.or(dst, src);
                Ok(())
            },
            Instruction::And(dst, src) => {
                self.and(dst, src);
                Ok(())
            },
            Instruction::Xor(dst, src) => {
                self.xor(dst, src);
                Ok(())
            },
            Instruction::Add(dst, src) => {
                self.add(dst, src);
                Ok(())
            },
            Instruction::Sub(dst, src) => {
                self.sub(dst, src);
                Ok(())
            },
            Instruction::ShiftRight(reg) => {
                self.shr(reg);
                Ok(())
            },
            Instruction::SubN(dst, src) => {
                self.subn(dst, src);
                Ok(())
            },
            Instruction::ShiftLeft(reg) => {
                self.shl(reg);
                Ok(())
            },
            Instruction::SkipNotEq(reg1, reg2) => {
                self.skip_reg_not_equal(reg1, reg2);
                Ok(())
            },
            Instruction::LoadAddr(addr) => {
                self.load_addr(addr);
                Ok(())
            },
            Instruction::JumpRel(addr) => {
                self.jump_v0(addr);
                Ok(())
            },
            Instruction::Random(reg, val) => {
                self.rand(reg, val);
                proof {
                    let b = choose|b: u8| self@ == rand_view(old(self)@, reg as int, val, b);
                    assert(Ok::<EmuView, EmuError>(self@) == exec_effect(old(self)@, instr, b));
                }
                Ok(())
            },
            Instruction::Draw(xreg, yreg, nibble) => {
                self.draw(xreg, yreg, nibble);
                Ok(())
            },
            Instruction::SkipKeyPressed(reg) => {
                self.skp(reg);
                Ok(())
            },
            Instruction::SkipKeyNotPressed(reg) => {
                self.sknp(reg);
                Ok(())
            },
            Instruction::LoadDelayTimer(reg) => {
                self.dt_to_vx(reg);
                Ok(())
            },
            Instruction::LoadKey(reg) => {
                self.load_key(reg);
                Ok(())
            },
            Instruction::SetDelayTimer(reg) => {
                self.vx_to_dt(reg);
                Ok(())
            },
            Instruction::SetSoundTimer(reg) => {
                self.load_st(reg);
                Ok(())
            },
            Instruction::AddI(reg) => {
                self.addi(reg);
                Ok(())
            },
            Instruction::LoadSprite(reg) => {
                self.loadi_sprite(reg);
                Ok(())
            },
            Instruction::Bcd(reg) => {
                self.bcd(reg);
                Ok(())
            },
            Instruction::StoreRegs(reg) => {
                self.regs_to_mem(reg);
                Ok(())
            },
            Instruction::LoadRegs(reg) => {
                self.mem_to_regs(reg);
                Ok(())
            },
            Instruction::Invalid => Err(EmuError::InvalidOpcode(instr)),
        }
    }

    /// One step of the machine: fetch the opcode at the program counter,
    /// advance the counter one instruction, bring the timers up to `now`
    /// (nanoseconds of wall-clock time), then execute the opcode. A fatal
    /// error leaves the machine as it stood after fetch and timer update.
    pub fn cpu_one_cycle_with_time(&mut self, now: u64) -> (r: Result<(), EmuError>)
        requires
            old(self)@.wf(),
        ensures
            final(self)@.wf(),
            match r {
                Ok(()) => exists|rnd: u8|
                    Ok::<EmuView, EmuError>(final(self)@) == cycle_effect(old(self)@, now, rnd),
                Err(e) => {
                    &&& cycle_effect(old(self)@, now, 0) == Err::<EmuView, EmuError>(e)
                    &&& final(self)@ == pre_exec_view(old(self)@, now)
                },
            },
    {
        let instr = self.cpu_load();
        self.tick_with_time(now);
        proof {
            assert(self@.wf());
        }
        let ghost mid = self@;
        let r = self.cpu_exec(instr);
        proof {
            assert(mid == pre_exec_view(old(self)@, now));
            assert(instr == fetched_word(old(self)@));
            if r is Ok {
                let rnd = choose|rnd: u8|
                    Ok::<EmuView, EmuError>(self@) == exec_effect(mid, instr, rnd);
                assert(Ok::<EmuView, EmuError>(self@) == cycle_effect(old(self)@, now, rnd));
            }
        }
        r
    }

    /// One step of the machine against the wall clock: as
    /// `cpu_one_cycle_with_time`, with `now` read from the system clock.
    pub fn cpu_one_cycle(&mut self) -> (r: Result<(), EmuError>)
        requires
            old(self)@.wf(),
        ensures
            final(self)@.wf(),
            exists|now: u64| #[trigger] cycle_outcome(old(self)@, final(self)@, now, r),
    {
        let now = now_nanos();
        let r = self.cpu_one_cycle_with_time(now);
        proof {
            assert(cycle_outcome(old(self)@, self@, now, r));
        }
        r
    }
}

/// The flat big-endian byte image of an instruction sequence.
pub open spec fn program_bytes(prog: Seq<Instruction>) -> Seq<u8> {
    Seq::new(
        (2 * prog.len()) as nat,
        |k: int| if k % 2 == 0 {
            crate::instruction::opcode_hi(crate::instruction::encode_spec(prog[k / 2]))
        } else {
            crate::instruction::opcode_lo(crate::instruction::encode_spec(prog[k / 2]))
        },
    )
}

impl Emulator {
    /// Assemble a sequence of instructions to big-endian bytes and load them
    /// at the load offset 0x200.
    pub fn mem_load_instr(&mut self, data: Vec<Instruction>) -> (r: Result<(), EmuError>)
        requires
            old(self)@.wf(),
            forall|k: int| 0 <= k < data@.len() ==> (#[trigger] data@[k]).wf(),
        ensures
            final(self)@.wf(),
            match r {
                Ok(()) => 2 * data@.len() <= 3584 && (final(self)@ == EmuView {
                    memory: load_mem(old(self)@.memory, program_bytes(data@)),
                    ..old(self)@
                }),
                Err(e) => {
                    &&& e == EmuError::ProgramTooLarge
                    &&& 2 * data@.len() > 3584
                    &&& final(self)@ == old(self)@
                },
            },
    {
        if data.len() > 1792 {
            return Err(EmuError::ProgramTooLarge);
        }
        let mut bytes: Vec<u8> = Vec::new();
        let mut i: usize = 0;
        while i < data.len()
            invariant
                i <= data@.len() <= 1792,
                forall|k: int| 0 <= k < data@.len() ==> (#[trigger] data@[k]).wf(),
                bytes@.len() == 2 * i,
                forall|k: int| 0 <= k < bytes@.len() ==> bytes@[k] == program_bytes(data@)[k],
            decreases data@.len() - i,
        {
            let b = data[i].encode();
            bytes.push(b[0]);
            bytes.push(b[1]);
            i += 1;
            proof {
                crate::instruction::lemma_decompose(i - 1, 2, 0);
                crate::instruction::lemma_decompose(i - 1, 2, 1);
            }
        }
        proof {
            assert(bytes@ =~= program_bytes(data@));
        }
        let r = self.mem_load_bin(bytes);
        proof {
            assert(r is Ok);
        }
        r
    }

    /// The program counter.
    pub fn pc(&self) -> (r: u16)
        ensures
            r == self@.pc_reg,
    {
        self.pc_reg
    }

    /// The stack pointer: how many return addresses are pending.
    pub fn sp(&self) -> (r: u8)
        ensures
            r == self@.sp_reg,
    {
        self.sp_reg
    }

    /// The index register.
    pub fn index_reg(&self) -> (r: u16)
        ensures
            r == self@.i_reg,
    {
        self.i_reg
    }

    /// A general-purpose register.
    pub fn reg(&self, i: usize) -> (r: u8)
        requires
            self@.wf(),
            i < 16,
        ensures
            r == self@.regs[i as int],
    {
        self.regs[i]
    }

    /// The byte at a memory address.
    pub fn mem_at(&self, addr: usize) -> (r: u8)
        requires
            self@.wf(),
            addr < 4096,
        ensures
            r == self@.memory[addr as int],
    {
        self.memory[addr]
    }

    /// A pending return address on the call stack.
    pub fn stack_at(&self, i: usize) -> (r: u16)
        requires
            self@.wf(),
            i < 16,
        ensures
            r == self@.stack[i as int],
    {
        self.stack[i]
    }

    /// Whether a key is held down.
    pub fn key(&self, i: usize) -> (r: bool)
        requires
            self@.wf(),
            i < 16,
        ensures
            r == self@.keys[i as int],
    {
        self.keys[i]
    }

    /// Press or release a key; the input collaborator drives this.
    pub fn set_key(&mut self, i: usize, pressed: bool)
        requires
            old(self)@.wf(),
            i < 16,
        ensures
            final(self)@.wf(),
            (final(self)@ == EmuView { keys: old(self)@.keys.update(i as int, pressed), ..old(self)@ }),
    {
        self.keys[i] = pressed;
    }

    /// The display cell at column `x`, row `y`.
    pub fn pixel(&self, x: usize, y: usize) -> (r: bool)
        requires
            self@.wf(),
            x < self@.width,
            y < self@.height,
        ensures
            r == self@.screen[x * self@.height + y],
    {
        proof {
            assert(self@.width * self@.height <= 8192);
            lemma_grid_bounds(x as int, y as int, self@.width as int, self@.height as int);
        }
        self.screen[x * self.resolution.1 + y]
    }

    /// The active display resolution, width by height.
    pub fn resolution(&self) -> (r: (usize, usize))
        ensures
            r == (self@.width, self@.height),
    {
        self.resolution
    }

    /// The delay timer.
    pub fn delay_timer(&self) -> (r: u8)
        ensures
            r == self@.dt_reg,
    {
        self.dt_reg
    }

    /// The sound timer.
    pub fn sound_timer(&self) -> (r: u8)
        ensures
            r == self@.st_reg,
    {
        self.st_reg
    }

    /// Whether the display changed since a renderer last consumed a frame.
    pub fn redraw_pending(&self) -> (r: bool)
        ensures
            r == self@.redraw,
    {
        self.redraw
    }

    /// Mark the pending frame consumed; the rendering collaborator drives
    /// this after it reads the display.
    pub fn clear_redraw(&mut self)
        ensures
            (final(self)@ == EmuView { redraw: false, ..old(self)@ }),
    {
        self.redraw = false;
    }
}

/// With no key pressed at all, the key scan finds none.
proof fn lemma_no_key_first_pressed(keys: Seq<bool>, i: int)
    requires
        forall|k: int| 0 <= k < 16 ==> !keys[k],
    ensures
        first_pressed(keys, i) == None::<u8>,
    decreases 16 - i,
{
    if 0 <= i < 16 {
        lemma_no_key_first_pressed(keys, i + 1);
    }
}

/// Law: executing the system-call opcode 0x0230 has exactly the effect of
/// executing the clear-display opcode 0x00E0, from any state.
pub proof fn lemma_syscall_clear_display(v: EmuView, rnd: u8)
    ensures
        exec_effect(v, 0x0230, rnd) == exec_effect(v, 0x00E0, rnd),
{
    assert(crate::instruction::decode_spec(0x0230) == Instruction::Sys(0x230));
    assert(crate::instruction::decode_spec(0x00E0) == Instruction::Cls);
}

/// Law: a step that fetches a blocking key read while no key is pressed
/// leaves everything but the timers as it was — in particular the program
/// counter, which the fetch advances one instruction and the read rewinds,
/// so the same instruction executes again on the next step.
pub proof fn lemma_key_wait_holds_pc(v: EmuView, now: u64, rnd: u8)
    requires
        v.wf(),
        forall|k: int| 0 <= k < 16 ==> !v.keys[k],
        crate::instruction::decode_spec(fetched_word(v)) matches Instruction::LoadKey(r),
    ensures
        cycle_effect(v, now, rnd) matches Ok(v2) && (v2 == EmuView {
            dt_reg: v2.dt_reg,
            st_reg: v2.st_reg,
            last_tick: v2.last_tick,
            ..v
        }),
{
    let w = fetched_word(v);
    crate::instruction::lemma_decode_wf(w);
    let mid = pre_exec_view(v, now);
    lemma_no_key_first_pressed(mid.keys, 0);
    let res = cycle_effect(v, now, rnd);
    if res is Ok {
        let v2 = res->Ok_0;
        assert(v2 =~= EmuView {
            dt_reg: v2.dt_reg,
            st_reg: v2.st_reg,
            last_tick: v2.last_tick,
            ..v
        });
    }
}

/// Law: subtracting a larger register value from a smaller one clears the
/// flag register (a borrow occurred) and leaves the wrapped difference in
/// the destination (with neither operand the flag register itself).
pub proof fn lemma_sub_borrow(v: EmuView, d: int, s: int)
    requires
        v.wf(),
        0 <= d < 16,
        0 <= s < 16,
        d != 15,
        s != 15,
        v.regs[d] < v.regs[s],
    ensures
        sub_view(v, d, s).regs[15] == 0,
        sub_view(v, d, s).regs[d] == v.regs[d] + 256 - v.regs[s],
{
}

/// Relies on rand::random: a uniformly sampled byte from the thread-local
/// generator. Nothing is promised of the value.
#[verifier::external_body]
fn random_byte() -> u8 {
    rand::random::<u8>()
}

/// Relies on std::time::SystemTime::now and UNIX_EPOCH: the wall-clock time,
/// reduced to nanoseconds since the epoch (zero if the clock reads earlier
/// than the epoch). Nothing is promised of the value.
#[verifier::external_body]
fn now_nanos() -> u64 {
    match std::time::SystemTime::now().duration_since(std::time::UNIX_EPOCH) {
        Ok(d) => d.as_nanos() as u64,
        Err(_) => 0,
    }
}

} // verus!


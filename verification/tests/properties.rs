use chip8::emulator::TICK_NANOS;
use chip8::instruction::Instruction;
use chip8::{DisplaySize, EmuError, Emulator};

#[test]
fn load_then_add_immediates() {
    // Two instructions from raw bytes: load 5 into register 0, then add 3.
    let mut emu = Emulator::new(DisplaySize::Basic64x32);
    emu.mem_load_bin(vec![0x60, 0x05, 0x70, 0x03]).unwrap();
    let start = emu.pc();
    emu.cpu_one_cycle().unwrap();
    emu.cpu_one_cycle().unwrap();
    assert_eq!(emu.reg(0), 8);
    assert_eq!(emu.pc(), start + 4);
}

#[test]
fn add_reports_carry() {
    // 200 + 100 = 300: flag set, destination holds 300 mod 256 = 44.
    let mut emu = Emulator::new(DisplaySize::Basic64x32);
    emu.mem_load_instr(vec![
        Instruction::LoadVal(1, 200),
        Instruction::LoadVal(2, 100),
        Instruction::Add(1, 2),
    ])
    .unwrap();
    emu.cpu_one_cycle().unwrap();
    emu.cpu_one_cycle().unwrap();
    emu.cpu_one_cycle().unwrap();
    assert_eq!(emu.reg(1), 44);
    assert_eq!(emu.reg(0xF), 1);
}

#[test]
fn sub_reports_borrow() {
    // 100 - 200: flag cleared (borrow), destination wraps to 156.
    let mut emu = Emulator::new(DisplaySize::Basic64x32);
    emu.mem_load_instr(vec![
        Instruction::LoadVal(1, 100),
        Instruction::LoadVal(2, 200),
        Instruction::Sub(1, 2),
    ])
    .unwrap();
    emu.cpu_one_cycle().unwrap();
    emu.cpu_one_cycle().unwrap();
    emu.cpu_one_cycle().unwrap();
    assert_eq!(emu.reg(1), 156);
    assert_eq!(emu.reg(0xF), 0);
}

#[test]
fn subn_reports_no_borrow() {
    // subn: dst = src - dst; flag set when src >= dst.
    let mut emu = Emulator::new(DisplaySize::Basic64x32);
    emu.mem_load_instr(vec![
        Instruction::LoadVal(1, 50),
        Instruction::LoadVal(2, 70),
        Instruction::SubN(1, 2),
    ])
    .unwrap();
    emu.cpu_one_cycle().unwrap();
    emu.cpu_one_cycle().unwrap();
    emu.cpu_one_cycle().unwrap();
    assert_eq!(emu.reg(1), 20);
    assert_eq!(emu.reg(0xF), 1);
}

#[test]
fn syscall_0x230_acts_as_clear_display() {
    // Draw one glyph row, then execute the system-call word 0x0230: every
    // pixel it set goes dark and a redraw is pending, as for clear-display.
    let mut emu = Emulator::new(DisplaySize::Basic64x32);
    emu.mem_load_instr(vec![
        Instruction::LoadSprite(0),
        Instruction::Draw(0, 0, 1),
        Instruction::Sys(0x230),
    ])
    .unwrap();
    emu.cpu_one_cycle().unwrap();
    emu.cpu_one_cycle().unwrap();
    assert_eq!(emu.pixel(0, 0), true);
    emu.clear_redraw();
    emu.cpu_one_cycle().unwrap();
    assert_eq!(emu.pixel(0, 0), false);
    assert_eq!(emu.pixel(1, 0), false);
    assert_eq!(emu.pixel(2, 0), false);
    assert_eq!(emu.pixel(3, 0), false);
    assert!(emu.redraw_pending());
}

#[test]
fn other_low_opcodes_are_no_ops() {
    // A system call other than 0x0E0/0x0EE/0x230 only consumes the cycle.
    let mut emu = Emulator::new(DisplaySize::Basic64x32);
    emu.mem_load_instr(vec![Instruction::Sys(0x123)]).unwrap();
    emu.cpu_one_cycle().unwrap();
    assert_eq!(emu.pc(), 0x202);
    assert_eq!(emu.reg(0), 0);
    assert!(!emu.redraw_pending());
}

#[test]
fn blocking_key_read_waits() {
    // With no key pressed the program counter does not move: the same
    // instruction runs again on the next step.
    let mut emu = Emulator::new(DisplaySize::Basic64x32);
    emu.mem_load_instr(vec![Instruction::LoadKey(4)]).unwrap();
    emu.cpu_one_cycle().unwrap();
    assert_eq!(emu.pc(), 0x200);
    emu.cpu_one_cycle().unwrap();
    assert_eq!(emu.pc(), 0x200);
    // Once a key is down, its index lands in the register and execution
    // proceeds.
    emu.set_key(7, true);
    emu.cpu_one_cycle().unwrap();
    assert_eq!(emu.reg(4), 7);
    assert_eq!(emu.pc(), 0x202);
}

#[test]
fn blocking_key_read_picks_lowest() {
    let mut emu = Emulator::new(DisplaySize::Basic64x32);
    emu.mem_load_instr(vec![Instruction::LoadKey(0)]).unwrap();
    emu.set_key(9, true);
    emu.set_key(3, true);
    emu.cpu_one_cycle().unwrap();
    assert_eq!(emu.reg(0), 3);
}

#[test]
fn skip_on_key_state() {
    let mut emu = Emulator::new(DisplaySize::Basic64x32);
    emu.mem_load_instr(vec![
        Instruction::LoadVal(0, 1),
        Instruction::SkipKeyPressed(0),
        Instruction::Invalid,
        Instruction::SkipKeyNotPressed(0),
        Instruction::SkipKeyNotPressed(0),
        Instruction::Invalid,
    ])
    .unwrap();
    emu.set_key(1, true);
    emu.cpu_one_cycle().unwrap();
    emu.cpu_one_cycle().unwrap();
    assert_eq!(emu.pc(), 0x206);
    emu.cpu_one_cycle().unwrap();
    assert_eq!(emu.pc(), 0x208);
    emu.set_key(1, false);
    emu.cpu_one_cycle().unwrap();
    assert_eq!(emu.pc(), 0x20C);
}

#[test]
fn delay_timer_counts_whole_ticks() {
    let mut emu = Emulator::new_with_time(DisplaySize::Basic64x32, 0);
    emu.mem_load_instr(vec![
        Instruction::LoadVal(0, 10),
        Instruction::SetDelayTimer(0),
        Instruction::LoadVal(1, 1),
        Instruction::LoadVal(1, 2),
        Instruction::LoadVal(1, 3),
    ])
    .unwrap();
    emu.cpu_one_cycle_with_time(0).unwrap();
    emu.cpu_one_cycle_with_time(0).unwrap();
    assert_eq!(emu.delay_timer(), 10);
    // Five whole ticks and one nanosecond elapse: five decrements.
    emu.cpu_one_cycle_with_time(5 * TICK_NANOS + 1).unwrap();
    assert_eq!(emu.delay_timer(), 5);
}

#[test]
fn delay_timer_counts_exact_multiples() {
    // A decrement happens at each whole elapsed tick, an elapsed time of
    // exactly two ticks included: two decrements.
    let mut emu = Emulator::new_with_time(DisplaySize::Basic64x32, 0);
    emu.mem_load_instr(vec![
        Instruction::LoadVal(0, 10),
        Instruction::SetDelayTimer(0),
        Instruction::LoadVal(1, 1),
        Instruction::LoadVal(1, 2),
    ])
    .unwrap();
    emu.cpu_one_cycle_with_time(0).unwrap();
    emu.cpu_one_cycle_with_time(0).unwrap();
    emu.cpu_one_cycle_with_time(2 * TICK_NANOS).unwrap();
    assert_eq!(emu.delay_timer(), 8);
    // At exactly one further tick, one more decrement.
    emu.cpu_one_cycle_with_time(3 * TICK_NANOS).unwrap();
    assert_eq!(emu.delay_timer(), 7);
}

#[test]
fn timers_never_go_below_zero() {
    let mut emu = Emulator::new_with_time(DisplaySize::Basic64x32, 0);
    emu.mem_load_instr(vec![
        Instruction::LoadVal(0, 3),
        Instruction::SetDelayTimer(0),
        Instruction::SetSoundTimer(0),
        Instruction::LoadVal(1, 1),
    ])
    .unwrap();
    emu.cpu_one_cycle_with_time(0).unwrap();
    emu.cpu_one_cycle_with_time(0).unwrap();
    emu.cpu_one_cycle_with_time(0).unwrap();
    assert_eq!(emu.delay_timer(), 3);
    assert_eq!(emu.sound_timer(), 3);
    emu.cpu_one_cycle_with_time(100 * TICK_NANOS).unwrap();
    assert_eq!(emu.delay_timer(), 0);
    assert_eq!(emu.sound_timer(), 0);
}

#[test]
fn timer_reads_back() {
    let mut emu = Emulator::new_with_time(DisplaySize::Basic64x32, 0);
    emu.mem_load_instr(vec![
        Instruction::LoadVal(0, 42),
        Instruction::SetDelayTimer(0),
        Instruction::LoadDelayTimer(1),
        Instruction::SetSoundTimer(0),
    ])
    .unwrap();
    emu.cpu_one_cycle_with_time(0).unwrap();
    emu.cpu_one_cycle_with_time(0).unwrap();
    emu.cpu_one_cycle_with_time(0).unwrap();
    emu.cpu_one_cycle_with_time(0).unwrap();
    assert_eq!(emu.reg(1), 42);
    assert_eq!(emu.sound_timer(), 42);
}

#[test]
fn invalid_opcode_is_fatal() {
    // 0x5001 has a non-zero low nibble in the skip-equal group: undefined.
    let mut emu = Emulator::new(DisplaySize::Basic64x32);
    emu.mem_load_bin(vec![0x50, 0x01]).unwrap();
    assert_eq!(emu.cpu_one_cycle(), Err(EmuError::InvalidOpcode(0x5001)));
    // The fetch had already advanced the counter.
    assert_eq!(emu.pc(), 0x202);
}

#[test]
fn return_without_call_is_fatal() {
    let mut emu = Emulator::new(DisplaySize::Basic64x32);
    emu.mem_load_instr(vec![Instruction::Ret]).unwrap();
    assert_eq!(emu.cpu_one_cycle(), Err(EmuError::StackUnderflow));
}

#[test]
fn seventeenth_nested_call_is_fatal() {
    let mut emu = Emulator::new(DisplaySize::Basic64x32);
    emu.mem_load_instr(vec![Instruction::Call(0x200)]).unwrap();
    for _ in 0..16 {
        emu.cpu_one_cycle().unwrap();
    }
    assert_eq!(emu.sp(), 16);
    assert_eq!(emu.cpu_one_cycle(), Err(EmuError::StackOverflow));
}

#[test]
fn oversized_program_is_rejected() {
    let mut emu = Emulator::new(DisplaySize::Basic64x32);
    assert_eq!(
        emu.mem_load_bin(vec![0xAB; 3585]),
        Err(EmuError::ProgramTooLarge)
    );
    // The rejected image left memory alone.
    assert_eq!(emu.mem_at(0x200), 0);
    // The largest image that fits is accepted whole.
    emu.mem_load_bin(vec![0xCD; 3584]).unwrap();
    assert_eq!(emu.mem_at(0xFFF), 0xCD);
    assert_eq!(
        emu.mem_load_instr(vec![Instruction::LoadVal(0, 0); 1793]),
        Err(EmuError::ProgramTooLarge)
    );
}

#[test]
fn random_byte_is_masked() {
    let mut emu = Emulator::new(DisplaySize::Basic64x32);
    emu.mem_load_instr(vec![
        Instruction::LoadVal(1, 0xFF),
        Instruction::Random(1, 0x00),
        Instruction::Random(2, 0x0F),
    ])
    .unwrap();
    emu.cpu_one_cycle().unwrap();
    emu.cpu_one_cycle().unwrap();
    // A zero mask forces zero whatever the generator returned.
    assert_eq!(emu.reg(1), 0);
    emu.cpu_one_cycle().unwrap();
    assert!(emu.reg(2) <= 0x0F);
}

#[test]
fn jump_to_0x260_as_first_instruction_switches_mode() {
    let mut emu = Emulator::new(DisplaySize::Basic64x32);
    emu.mem_load_instr(vec![Instruction::Jump(0x260)]).unwrap();
    assert_eq!(emu.resolution(), (64, 32));
    emu.cpu_one_cycle().unwrap();
    assert_eq!(emu.resolution(), (64, 64));
    assert_eq!(emu.pc(), 0x2C0);
}

#[test]
fn jump_to_0x260_elsewhere_is_a_plain_jump() {
    let mut emu = Emulator::new(DisplaySize::Basic64x32);
    emu.mem_load_instr(vec![
        Instruction::Jump(0x204),
        Instruction::Invalid,
        Instruction::Jump(0x260),
    ])
    .unwrap();
    emu.cpu_one_cycle().unwrap();
    emu.cpu_one_cycle().unwrap();
    assert_eq!(emu.pc(), 0x260);
    assert_eq!(emu.resolution(), (64, 32));
}

#[test]
fn jump_relative_adds_register_zero() {
    let mut emu = Emulator::new(DisplaySize::Basic64x32);
    emu.mem_load_instr(vec![
        Instruction::LoadVal(0, 0x10),
        Instruction::JumpRel(0x300),
    ])
    .unwrap();
    emu.cpu_one_cycle().unwrap();
    emu.cpu_one_cycle().unwrap();
    assert_eq!(emu.pc(), 0x310);
}

#[test]
fn bcd_of_boundary_values() {
    let mut emu = Emulator::new(DisplaySize::Basic64x32);
    emu.mem_load_instr(vec![
        Instruction::LoadVal(1, 255),
        Instruction::LoadAddr(0x700),
        Instruction::Bcd(1),
        Instruction::LoadVal(1, 7),
        Instruction::Bcd(1),
    ])
    .unwrap();
    emu.cpu_one_cycle().unwrap();
    emu.cpu_one_cycle().unwrap();
    emu.cpu_one_cycle().unwrap();
    assert_eq!(emu.mem_at(0x700), 2);
    assert_eq!(emu.mem_at(0x701), 5);
    assert_eq!(emu.mem_at(0x702), 5);
    emu.cpu_one_cycle().unwrap();
    emu.cpu_one_cycle().unwrap();
    assert_eq!(emu.mem_at(0x700), 0);
    assert_eq!(emu.mem_at(0x701), 0);
    assert_eq!(emu.mem_at(0x702), 7);
}

#[test]
fn reset_restores_initial_state() {
    let mut emu = Emulator::new(DisplaySize::Basic64x32);
    emu.mem_load_instr(vec![
        Instruction::LoadVal(3, 9),
        Instruction::LoadSprite(3),
        Instruction::Draw(0, 0, 5),
    ])
    .unwrap();
    emu.cpu_one_cycle().unwrap();
    emu.cpu_one_cycle().unwrap();
    emu.cpu_one_cycle().unwrap();
    emu.set_key(5, true);
    assert!(emu.redraw_pending());

    emu.reset();
    assert_eq!(emu.pc(), 0x200);
    assert_eq!(emu.sp(), 0);
    assert_eq!(emu.reg(3), 0);
    assert_eq!(emu.index_reg(), 0);
    assert_eq!(emu.delay_timer(), 0);
    assert_eq!(emu.sound_timer(), 0);
    assert!(!emu.key(5));
    // The loaded program is wiped, the font re-installed.
    assert_eq!(emu.mem_at(0x200), 0);
    assert_eq!(emu.mem_at(0), 0xF0);
    assert_eq!(emu.mem_at(5 * 0xF), 0xF0);
    assert_eq!(emu.mem_at(5 * 0xF + 4), 0x80);
    // The display goes dark; the mode and the redraw flag stay.
    assert_eq!(emu.pixel(0, 0), false);
    assert_eq!(emu.resolution(), (64, 32));
    assert!(emu.redraw_pending());
}

#[test]
fn display_modes_have_their_resolutions() {
    assert_eq!(
        Emulator::new(DisplaySize::Basic64x32).resolution(),
        (64, 32)
    );
    assert_eq!(Emulator::new(DisplaySize::Eti64x48).resolution(), (64, 48));
    assert_eq!(Emulator::new(DisplaySize::Eti64x64).resolution(), (64, 64));
    assert_eq!(Emulator::new(DisplaySize::Hp128x64).resolution(), (128, 64));
}

#[test]
fn draw_wraps_on_tall_display() {
    // On the 64x64 display a sprite drawn at row 62 wraps to rows 0..2.
    let mut emu = Emulator::new(DisplaySize::Eti64x64);
    emu.mem_load_instr(vec![
        Instruction::LoadVal(1, 0),
        Instruction::LoadVal(2, 62),
        Instruction::LoadSprite(1), // glyph 0, first row 0xF0
        Instruction::Draw(1, 2, 5),
    ])
    .unwrap();
    emu.cpu_one_cycle().unwrap();
    emu.cpu_one_cycle().unwrap();
    emu.cpu_one_cycle().unwrap();
    emu.cpu_one_cycle().unwrap();
    assert_eq!(emu.pixel(0, 62), true);
    assert_eq!(emu.pixel(0, 63), true);
    assert_eq!(emu.pixel(0, 0), true);
    assert_eq!(emu.pixel(0, 1), true);
    assert_eq!(emu.pixel(0, 2), true);
    assert_eq!(emu.pixel(0, 3), false);
}

use chip8::instruction::Instruction;
use chip8::{DisplaySize, Emulator};

#[test]
fn test_001_load_software() {
    let mut emu = Emulator::new(DisplaySize::Basic64x32);
    emu.mem_load_bin(vec![0x01, 0x02, 0x03, 0x04]).unwrap();
    assert_eq!(emu.mem_at(0x200), 0x01);
    assert_eq!(emu.mem_at(0x201), 0x02);
    assert_eq!(emu.mem_at(0x202), 0x03);
    assert_eq!(emu.mem_at(0x203), 0x04);
}

#[test]
fn test_010_loadval_addval() {
    let mut emu = Emulator::new(DisplaySize::Basic64x32);
    emu.mem_load_instr(vec![
        Instruction::LoadVal(1, 0x55),
        Instruction::AddVal(1, 0xAA),
        Instruction::AddVal(1, 0x01),
    ])
    .unwrap();
    assert_eq!(emu.reg(1), 0x00);
    assert_eq!(emu.pc(), 0x200);

    emu.cpu_one_cycle().unwrap();
    assert_eq!(emu.pc(), 0x202);
    assert_eq!(emu.reg(1), 0x55);

    emu.cpu_one_cycle().unwrap();
    assert_eq!(emu.pc(), 0x204);
    assert_eq!(emu.reg(1), 0xFF);

    emu.cpu_one_cycle().unwrap();
    assert_eq!(emu.pc(), 0x206);
    assert_eq!(emu.reg(1), 0x00);
}

#[test]
fn test_011_load_add_sub() {
    let mut emu = Emulator::new(DisplaySize::Basic64x32);
    emu.mem_load_instr(vec![
        Instruction::LoadVal(1, 0x56), // $1 = 0x56
        Instruction::Load(2, 1),       // $2 = $1
        Instruction::Add(2, 2),        // $2 = $2 + $2 (0xAC)
        Instruction::Add(1, 2),        // $1 = $1 + $2 (0x02 + overflow)
        Instruction::Sub(1, 2),        // $1 = $1 - $2 (0x56 + no overflow)
        Instruction::Sub(1, 1),        // $1 = $1 - $1 (0x00 + overflow)
    ])
    .unwrap();
    assert_eq!(emu.reg(1), 0x00);
    assert_eq!(emu.reg(2), 0x00);
    assert_eq!(emu.pc(), 0x200);

    emu.cpu_one_cycle().unwrap();
    assert_eq!(emu.reg(1), 0x56);
    assert_eq!(emu.reg(2), 0x00);
    assert_eq!(emu.pc(), 0x202);

    emu.cpu_one_cycle().unwrap();
    assert_eq!(emu.reg(1), 0x56);
    assert_eq!(emu.reg(2), 0x56);
    assert_eq!(emu.pc(), 0x204);

    emu.cpu_one_cycle().unwrap();
    assert_eq!(emu.reg(1), 0x56);
    assert_eq!(emu.reg(2), 0xAC);
    assert_eq!(emu.reg(0xF), 0);
    assert_eq!(emu.pc(), 0x206);

    emu.cpu_one_cycle().unwrap();
    assert_eq!(emu.reg(1), 0x02);
    assert_eq!(emu.reg(2), 0xAC);
    assert_eq!(emu.reg(0xF), 1);
    assert_eq!(emu.pc(), 0x208);

    emu.cpu_one_cycle().unwrap();
    assert_eq!(emu.reg(1), 0x56);
    assert_eq!(emu.reg(2), 0xAC);
    assert_eq!(emu.reg(0xF), 0);
    assert_eq!(emu.pc(), 0x20A);

    emu.cpu_one_cycle().unwrap();
    assert_eq!(emu.reg(1), 0x00);
    assert_eq!(emu.reg(0xF), 1);
    assert_eq!(emu.pc(), 0x20C);
}

#[test]
fn test_012_or_and_xor_shr_shl() {
    let mut emu = Emulator::new(DisplaySize::Basic64x32);
    emu.mem_load_instr(vec![
        Instruction::LoadVal(1, 0xAA), // $1 = 0x55
        Instruction::LoadVal(2, 0x55), // $2 = 0x55
        Instruction::Or(1, 2),         // $1 = $1 | $2 (0xFF)
        Instruction::LoadVal(1, 0xAA), // $1 = 0x55
        Instruction::And(1, 2),        // $1 = $1 & $2 (0x00)
        Instruction::LoadVal(1, 0xAA), // $1 = 0x55
        Instruction::Xor(1, 2),        // $1 = $1 ^ $2 (0xFF)
        Instruction::Xor(1, 1),        // $1 = $1 ^ $1 (0x00)
        Instruction::LoadVal(1, 0x55), // $1 = 0x55
        Instruction::ShiftLeft(1),     // $1 <<= 1 (0xAA)
        Instruction::ShiftLeft(1),     // $1 <<= 1 (0x54 + overflow)
        Instruction::LoadVal(1, 0x55), // $1 = 0x55
        Instruction::ShiftRight(1),    // $1 >>= 1 (0x2A)
        Instruction::ShiftRight(1),    // $1 >>= 1 (0x15 + overflow)
    ])
    .unwrap();
    emu.cpu_one_cycle().unwrap();
    emu.cpu_one_cycle().unwrap();
    emu.cpu_one_cycle().unwrap();
    assert_eq!(emu.pc(), 0x206);
    assert_eq!(emu.reg(1), 0xFF);

    emu.cpu_one_cycle().unwrap();
    emu.cpu_one_cycle().unwrap();
    assert_eq!(emu.pc(), 0x20A);
    assert_eq!(emu.reg(1), 0x00);

    emu.cpu_one_cycle().unwrap();
    emu.cpu_one_cycle().unwrap();
    assert_eq!(emu.pc(), 0x20E);
    assert_eq!(emu.reg(1), 0xFF);
    emu.cpu_one_cycle().unwrap();
    assert_eq!(emu.pc(), 0x210);
    assert_eq!(emu.reg(1), 0x00);

    emu.cpu_one_cycle().unwrap();
    emu.cpu_one_cycle().unwrap();
    assert_eq!(emu.pc(), 0x214);
    assert_eq!(emu.reg(1), 0xAA);
    assert_eq!(emu.reg(0xF), 0);
    emu.cpu_one_cycle().unwrap();
    assert_eq!(emu.pc(), 0x216);
    assert_eq!(emu.reg(1), 0x54);
    assert_eq!(emu.reg(0xF), 1);

    emu.cpu_one_cycle().unwrap();
    emu.cpu_one_cycle().unwrap();
    assert_eq!(emu.pc(), 0x21A);
    assert_eq!(emu.reg(1), 0x2A);
    assert_eq!(emu.reg(0xF), 1);
    emu.cpu_one_cycle().unwrap();
    assert_eq!(emu.pc(), 0x21C);
    assert_eq!(emu.reg(1), 0x15);
    assert_eq!(emu.reg(0xF), 0);
}

#[test]
fn test_013_skip() {
    let mut emu = Emulator::new(DisplaySize::Basic64x32);
    emu.mem_load_instr(vec![
        Instruction::LoadVal(1, 0xAA),
        Instruction::SkipValEq(1, 0xAB),
        Instruction::SkipValEq(1, 0xAA),
        Instruction::Invalid,
        Instruction::SkipValNotEq(1, 0xAA),
        Instruction::SkipValNotEq(1, 0xAB),
        Instruction::Invalid,
        Instruction::LoadVal(2, 0xAB), // $1 = 0x55
        Instruction::SkipEq(1, 2),
        Instruction::LoadVal(3, 0xAA), // $1 = 0x55
        Instruction::SkipEq(1, 3),
        Instruction::Invalid,
    ])
    .unwrap();

    assert_eq!(emu.pc(), 0x200);
    emu.cpu_one_cycle().unwrap();
    assert_eq!(emu.pc(), 0x202);
    emu.cpu_one_cycle().unwrap();
    assert_eq!(emu.pc(), 0x204);
    emu.cpu_one_cycle().unwrap();
    assert_eq!(emu.pc(), 0x208);

    emu.cpu_one_cycle().unwrap();
    assert_eq!(emu.pc(), 0x20A);
    emu.cpu_one_cycle().unwrap();
    assert_eq!(emu.pc(), 0x20E);

    emu.cpu_one_cycle().unwrap();
    assert_eq!(emu.pc(), 0x210);
    emu.cpu_one_cycle().unwrap();
    assert_eq!(emu.pc(), 0x212);
    emu.cpu_one_cycle().unwrap();
    assert_eq!(emu.pc(), 0x214);
    emu.cpu_one_cycle().unwrap();
    assert_eq!(emu.pc(), 0x218);
}

#[test]
fn test_014_jump_call_ret() {
    let mut emu = Emulator::new(DisplaySize::Basic64x32);
    emu.mem_load_instr(vec![
        Instruction::Jump(0x204),
        Instruction::Invalid,
        Instruction::Call(0x208),
        Instruction::Invalid,
        Instruction::Ret,
    ])
    .unwrap();
    assert_eq!(emu.pc(), 0x200);
    emu.cpu_one_cycle().unwrap();
    assert_eq!(emu.pc(), 0x204);
    assert_eq!(emu.sp(), 0);

    emu.cpu_one_cycle().unwrap();
    assert_eq!(emu.pc(), 0x208);
    assert_eq!(emu.sp(), 1);
    assert_eq!(emu.stack_at(0), 0x206);

    emu.cpu_one_cycle().unwrap();
    assert_eq!(emu.pc(), 0x206);
    assert_eq!(emu.sp(), 0);
}

#[test]
fn test_015_sprite_draw_cls() {
    let mut emu = Emulator::new(DisplaySize::Basic64x32);
    emu.mem_load_instr(vec![
        Instruction::LoadVal(1, 0x00),
        Instruction::LoadVal(2, 0x00),
        Instruction::LoadVal(3, 0x0F),
        Instruction::LoadSprite(3),
        Instruction::Draw(1, 2, 5),
        // check overflow
        Instruction::Draw(1, 2, 5),
        // check wrap around
        Instruction::LoadVal(1, 63),
        Instruction::LoadVal(2, 31),
        Instruction::Draw(1, 2, 5),
        // check clear
        Instruction::Cls,
    ])
    .unwrap();
    emu.cpu_one_cycle().unwrap();
    emu.cpu_one_cycle().unwrap();
    emu.cpu_one_cycle().unwrap();
    assert_eq!(emu.pc(), 0x206);

    emu.cpu_one_cycle().unwrap();
    assert_eq!(emu.index_reg(), 0xF * 5);
    assert_eq!(emu.pc(), 0x208);

    // draw letter "F"
    emu.cpu_one_cycle().unwrap();
    assert_eq!(emu.pc(), 0x20A);
    assert_eq!(emu.reg(0xF), 0);
    assert_eq!(emu.pixel(0, 0), true);
    assert_eq!(emu.pixel(1, 0), true);
    assert_eq!(emu.pixel(2, 0), true);
    assert_eq!(emu.pixel(3, 0), true);
    assert_eq!(emu.pixel(4, 0), false);
    assert_eq!(emu.pixel(0, 1), true);
    assert_eq!(emu.pixel(1, 1), false);
    assert_eq!(emu.pixel(0, 2), true);
    assert_eq!(emu.pixel(1, 2), true);
    assert_eq!(emu.pixel(2, 2), true);
    assert_eq!(emu.pixel(3, 2), true);
    assert_eq!(emu.pixel(4, 2), false);
    assert_eq!(emu.pixel(0, 3), true);
    assert_eq!(emu.pixel(1, 3), false);
    assert_eq!(emu.pixel(0, 4), true);
    assert_eq!(emu.pixel(1, 4), false);

    // clear letter "F"
    emu.cpu_one_cycle().unwrap();
    assert_eq!(emu.pc(), 0x20C);
    assert_eq!(emu.reg(0xF), 1);
    assert_eq!(emu.pixel(0, 0), false);
    assert_eq!(emu.pixel(1, 0), false);
    assert_eq!(emu.pixel(2, 0), false);
    assert_eq!(emu.pixel(3, 0), false);
    assert_eq!(emu.pixel(4, 0), false);
    assert_eq!(emu.pixel(0, 1), false);
    assert_eq!(emu.pixel(1, 1), false);
    assert_eq!(emu.pixel(0, 2), false);
    assert_eq!(emu.pixel(1, 2), false);
    assert_eq!(emu.pixel(2, 2), false);
    assert_eq!(emu.pixel(0, 3), false);
    assert_eq!(emu.pixel(1, 3), false);
    assert_eq!(emu.pixel(0, 4), false);
    assert_eq!(emu.pixel(1, 4), false);

    // draw letter F on border
    emu.cpu_one_cycle().unwrap();
    emu.cpu_one_cycle().unwrap();
    emu.cpu_one_cycle().unwrap();
    assert_eq!(emu.pc(), 0x212);
    assert_eq!(emu.reg(0xF), 0);
    assert_eq!(emu.pixel(63, 31), true);
    assert_eq!(emu.pixel(0, 31), true);
    assert_eq!(emu.pixel(1, 31), true);
    assert_eq!(emu.pixel(2, 31), true);
    assert_eq!(emu.pixel(3, 31), false);
    assert_eq!(emu.pixel(63, 0), true);
    assert_eq!(emu.pixel(0, 0), false);
    assert_eq!(emu.pixel(63, 1), true);
    assert_eq!(emu.pixel(0, 1), true);
    assert_eq!(emu.pixel(1, 1), true);
    assert_eq!(emu.pixel(2, 1), true);
    assert_eq!(emu.pixel(3, 1), false);
    assert_eq!(emu.pixel(63, 2), true);
    assert_eq!(emu.pixel(0, 2), false);
    assert_eq!(emu.pixel(63, 3), true);
    assert_eq!(emu.pixel(0, 3), false);

    emu.cpu_one_cycle().unwrap();
    assert_eq!(emu.pc(), 0x214);
    assert_eq!(emu.reg(0xF), 0);
    assert_eq!(emu.pixel(63, 31), false);
    assert_eq!(emu.pixel(0, 31), false);
    assert_eq!(emu.pixel(1, 31), false);
    assert_eq!(emu.pixel(2, 31), false);
    assert_eq!(emu.pixel(3, 31), false);
    assert_eq!(emu.pixel(63, 0), false);
    assert_eq!(emu.pixel(0, 0), false);
    assert_eq!(emu.pixel(63, 1), false);
    assert_eq!(emu.pixel(0, 1), false);
    assert_eq!(emu.pixel(1, 1), false);
    assert_eq!(emu.pixel(2, 1), false);
    assert_eq!(emu.pixel(3, 1), false);
    assert_eq!(emu.pixel(63, 2), false);
    assert_eq!(emu.pixel(0, 2), false);
    assert_eq!(emu.pixel(63, 3), false);
    assert_eq!(emu.pixel(0, 3), false);
}

#[test]
fn test_016_loadaddr_addi_regs_store_load() {
    let mut emu = Emulator::new(DisplaySize::Basic64x32);
    emu.mem_load_instr(vec![
        Instruction::LoadAddr(0x600),
        Instruction::LoadVal(0, 0xDE),
        Instruction::LoadVal(1, 0xAD),
        Instruction::LoadVal(2, 0xBE),
        Instruction::LoadVal(3, 0xEF),
        Instruction::StoreRegs(2),
        Instruction::LoadVal(0, 0x00),
        Instruction::LoadVal(1, 0x00),
        Instruction::LoadVal(2, 0x00),
        Instruction::LoadRegs(2),
        Instruction::AddI(1),
    ])
    .unwrap();
    emu.cpu_one_cycle().unwrap();
    assert_eq!(emu.pc(), 0x202);
    assert_eq!(emu.index_reg(), 0x600);

    emu.cpu_one_cycle().unwrap();
    emu.cpu_one_cycle().unwrap();
    emu.cpu_one_cycle().unwrap();
    emu.cpu_one_cycle().unwrap();
    assert_eq!(emu.pc(), 0x20A);

    emu.cpu_one_cycle().unwrap();
    assert_eq!(emu.mem_at(0x600), 0xDE);
    assert_eq!(emu.mem_at(0x601), 0xAD);
    assert_eq!(emu.mem_at(0x602), 0xBE);
    assert_eq!(emu.mem_at(0x603), 0x00);

    emu.cpu_one_cycle().unwrap();
    emu.cpu_one_cycle().unwrap();
    emu.cpu_one_cycle().unwrap();
    assert_eq!(emu.pc(), 0x212);

    emu.cpu_one_cycle().unwrap();
    assert_eq!(emu.reg(0), 0xDE);
    assert_eq!(emu.reg(1), 0xAD);
    assert_eq!(emu.reg(2), 0xBE);
    assert_eq!(emu.reg(3), 0xEF);
    assert_eq!(emu.pc(), 0x214);

    emu.cpu_one_cycle().unwrap();
    assert_eq!(emu.index_reg(), 0x6AD);
}

#[test]
fn test_017_bcd() {
    let mut emu = Emulator::new(DisplaySize::Basic64x32);
    emu.mem_load_instr(vec![
        Instruction::LoadVal(1, 234),
        Instruction::LoadAddr(0x600),
        Instruction::Bcd(1),
    ])
    .unwrap();

    emu.cpu_one_cycle().unwrap();
    assert_eq!(emu.pc(), 0x202);
    assert_eq!(emu.reg(1), 234);

    emu.cpu_one_cycle().unwrap();
    assert_eq!(emu.pc(), 0x204);
    assert_eq!(emu.index_reg(), 0x600);

    emu.cpu_one_cycle().unwrap();
    assert_eq!(emu.pc(), 0x206);
    assert_eq!(emu.mem_at(0x600), 2);
    assert_eq!(emu.mem_at(0x601), 3);
    assert_eq!(emu.mem_at(0x602), 4);
}

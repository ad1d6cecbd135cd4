use chip8::instruction::Instruction;

#[test]
fn test_instructions() {
    let tests: Vec<(Instruction, [u8; 2])> = vec![
        (Instruction::Cls, [0x00, 0xE0]),
        (Instruction::Ret, [0x00, 0xEE]),
        (Instruction::Sys(0x123), [0x01, 0x23]),
        (Instruction::Jump(0x0234), [0x12, 0x34]),
        (Instruction::Call(0x0345), [0x23, 0x45]),
        (Instruction::SkipValEq(0x4, 0x56), [0x34, 0x56]),
        (Instruction::SkipValNotEq(0x5, 0x67), [0x45, 0x67]),
        (Instruction::SkipEq(0x6, 0x7), [0x56, 0x70]),
        (Instruction::LoadVal(0x7, 0x89), [0x67, 0x89]),
        (Instruction::AddVal(0x8, 0x90), [0x78, 0x90]),
        (Instruction::Load(1, 2), [0x81, 0x20]),
        (Instruction::Or(1, 2), [0x81, 0x21]),
        (Instruction::And(1, 2), [0x81, 0x22]),
        (Instruction::Xor(1, 2), [0x81, 0x23]),
        (Instruction::Add(1, 2), [0x81, 0x24]),
        (Instruction::Sub(1, 2), [0x81, 0x25]),
        (Instruction::ShiftRight(1), [0x81, 0x06]),
        (Instruction::SubN(1, 2), [0x81, 0x27]),
        (Instruction::ShiftLeft(1), [0x81, 0x0E]),
        (Instruction::SkipNotEq(0xA, 0xB), [0x9A, 0xB0]),
        (Instruction::LoadAddr(0xBCD), [0xAB, 0xCD]),
        (Instruction::JumpRel(0xCDE), [0xBC, 0xDE]),
        (Instruction::Random(0xD, 0xEF), [0xCD, 0xEF]),
        (Instruction::Draw(1, 2, 3), [0xD1, 0x23]),
        (Instruction::SkipKeyPressed(0xF), [0xEF, 0x9E]),
        (Instruction::SkipKeyNotPressed(0xF), [0xEF, 0xA1]),
        (Instruction::LoadDelayTimer(0), [0xF0, 0x07]),
        (Instruction::LoadKey(0), [0xF0, 0x0A]),
        (Instruction::SetDelayTimer(0), [0xF0, 0x15]),
        (Instruction::SetSoundTimer(0), [0xF0, 0x18]),
        (Instruction::AddI(0), [0xF0, 0x1E]),
        (Instruction::LoadSprite(1), [0xF1, 0x29]),
        (Instruction::Bcd(1), [0xF1, 0x33]),
        (Instruction::StoreRegs(1), [0xF1, 0x55]),
        (Instruction::LoadRegs(1), [0xF1, 0x65]),
    ];

    for (instr, ops) in tests {
        assert_eq!(instr.encode(), ops);
        assert_eq!(
            Instruction::from(((ops[0] as u16) << 8) | (ops[1] as u16)),
            instr
        );
    }
}

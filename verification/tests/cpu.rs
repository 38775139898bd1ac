use ch8::cpu::{Cpu, Fault, Outcome, RomError, FONTSET, MAX_ROM_SIZE};

fn machine(rom: &[u8]) -> Cpu {
    let mut cpu = Cpu::new();
    cpu.load_rom(rom).unwrap();
    cpu
}

fn run(cpu: &mut Cpu, steps: usize) -> Vec<Outcome> {
    let mut outcomes = Vec::new();
    for _ in 0..steps {
        assert_eq!(cpu.pending_fault(), None);
        outcomes.push(cpu.step().outcome);
    }
    outcomes
}

#[test]
fn new_stores_font_and_starts_at_program() {
    let cpu = Cpu::new();
    let mem = cpu.memory();
    assert_eq!(&mem[0x50..0xA0], &FONTSET[..]);
    assert_eq!(mem[0x50], 0xF0);
    assert_eq!(mem[0x9F], 0x80);
    assert!(mem[..0x50].iter().all(|&b| b == 0));
    assert!(mem[0xA0..].iter().all(|&b| b == 0));
    assert_eq!(cpu.pc(), 0x200);
    assert_eq!(cpu.sp(), 0);
    assert_eq!(cpu.index_reg(), 0);
    assert_eq!(cpu.v_regs(), [0u8; 16]);
    assert_eq!(cpu.stack(), [0u16; 16]);
    assert!(cpu.display().iter().all(|&b| b == 0));
    assert_eq!(cpu.delay_timer(), 0);
    assert_eq!(cpu.sound_timer(), 0);
}

#[test]
fn default_is_blank_memory() {
    let cpu = Cpu::default();
    assert!(cpu.memory().iter().all(|&b| b == 0));
    assert_eq!(cpu.pc(), 0x200);
}

#[test]
fn load_rom_places_bytes_at_program_start() {
    let mut cpu = Cpu::new();
    assert_eq!(cpu.load_rom(&[1, 2, 3]), Ok(()));
    let mem = cpu.memory();
    assert_eq!(&mem[0x200..0x203], &[1, 2, 3]);
    assert_eq!(mem[0x203], 0);
    assert_eq!(&mem[0x50..0xA0], &FONTSET[..]);
}

#[test]
fn load_rom_accepts_the_largest_rom() {
    let mut cpu = Cpu::new();
    let rom = vec![0xAB; MAX_ROM_SIZE];
    assert_eq!(cpu.load_rom(&rom), Ok(()));
    assert_eq!(cpu.memory()[4095], 0xAB);
    assert_eq!(cpu.memory()[0x1FF], 0);
}

#[test]
fn load_rom_refuses_a_rom_too_large() {
    let mut cpu = Cpu::new();
    let rom = vec![0xAB; 3585];
    let err = cpu.load_rom(&rom).unwrap_err();
    assert_eq!(err, RomError::TooLarge { size: 3585 });
    assert_eq!(
        err.message(),
        "ROM too large. Maximum of 3584 bytes, current file is 3585 bytes"
    );
    assert_eq!(cpu.memory()[0x200], 0);
}

#[test]
fn set_register_and_add_wrapping() {
    let mut cpu = machine(&[0x6A, 0x05, 0x7A, 0xFF, 0x7A, 0x01]);
    run(&mut cpu, 1);
    assert_eq!(cpu.v_regs()[0xA], 5);
    run(&mut cpu, 1);
    assert_eq!(cpu.v_regs()[0xA], 4);
    run(&mut cpu, 1);
    assert_eq!(cpu.v_regs()[0xA], 5);
    assert_eq!(cpu.pc(), 0x206);
}

#[test]
fn step_reports_the_fetched_opcode() {
    let mut cpu = machine(&[0x6A, 0x05]);
    let report = cpu.step();
    assert_eq!(report.opcode, 0x6A05);
    assert_eq!(report.outcome, Outcome::Executed);
}

#[test]
fn jump_sets_program_counter() {
    let mut cpu = machine(&[0x13, 0x45]);
    run(&mut cpu, 1);
    assert_eq!(cpu.pc(), 0x345);
}

#[test]
fn skip_if_equal_and_not_equal() {
    // V0 = 7; 3007 skips; 4007 does not skip; 3008 does not skip; 4008 skips
    let mut cpu = machine(&[0x60, 0x07, 0x30, 0x07, 0, 0, 0x40, 0x07, 0x30, 0x08, 0x40, 0x08]);
    run(&mut cpu, 2);
    assert_eq!(cpu.pc(), 0x206);
    run(&mut cpu, 1);
    assert_eq!(cpu.pc(), 0x208);
    run(&mut cpu, 1);
    assert_eq!(cpu.pc(), 0x20A);
    run(&mut cpu, 1);
    assert_eq!(cpu.pc(), 0x20E);
}

#[test]
fn skip_if_registers_equal() {
    let mut cpu = machine(&[0x61, 0x03, 0x62, 0x03, 0x51, 0x20, 0, 0, 0x51, 0x30]);
    run(&mut cpu, 3);
    assert_eq!(cpu.pc(), 0x208);
    run(&mut cpu, 1);
    assert_eq!(cpu.pc(), 0x20A);
}

#[test]
fn logic_operations() {
    let mut cpu = machine(&[
        0x61, 0b1100, 0x62, 0b1010, // V1, V2
        0x83, 0x10, // V3 = V1
        0x83, 0x21, // V3 |= V2
        0x84, 0x10, 0x84, 0x22, // V4 = V1 & V2
        0x85, 0x10, 0x85, 0x23, // V5 = V1 ^ V2
    ]);
    run(&mut cpu, 3);
    assert_eq!(cpu.v_regs()[3], 0b1100);
    run(&mut cpu, 1);
    assert_eq!(cpu.v_regs()[3], 0b1110);
    run(&mut cpu, 2);
    assert_eq!(cpu.v_regs()[4], 0b1000);
    run(&mut cpu, 2);
    assert_eq!(cpu.v_regs()[5], 0b0110);
}

#[test]
fn add_with_carry() {
    let mut cpu = machine(&[0x61, 0xF0, 0x62, 0x20, 0x81, 0x24, 0x83, 0x24]);
    run(&mut cpu, 3);
    assert_eq!(cpu.v_regs()[1], 0x10);
    assert_eq!(cpu.v_regs()[0xF], 1);
    run(&mut cpu, 1);
    assert_eq!(cpu.v_regs()[3], 0x20);
    assert_eq!(cpu.v_regs()[0xF], 0);
}

#[test]
fn subtract_with_borrow() {
    let mut cpu = machine(&[0x61, 0x05, 0x62, 0x07, 0x81, 0x25, 0x63, 0x09, 0x83, 0x25]);
    run(&mut cpu, 3);
    assert_eq!(cpu.v_regs()[1], 0xFE);
    assert_eq!(cpu.v_regs()[0xF], 0);
    run(&mut cpu, 2);
    assert_eq!(cpu.v_regs()[3], 2);
    assert_eq!(cpu.v_regs()[0xF], 1);
}

#[test]
fn reverse_subtract() {
    let mut cpu = machine(&[0x61, 0x05, 0x62, 0x07, 0x81, 0x27, 0x63, 0x09, 0x83, 0x27]);
    run(&mut cpu, 3);
    assert_eq!(cpu.v_regs()[1], 2);
    assert_eq!(cpu.v_regs()[0xF], 1);
    run(&mut cpu, 2);
    assert_eq!(cpu.v_regs()[3], 0xFE);
    assert_eq!(cpu.v_regs()[0xF], 0);
}

#[test]
fn shifts_set_flag_from_lost_bit() {
    let mut cpu = machine(&[0x61, 0x83, 0x81, 0x06, 0x62, 0x81, 0x82, 0x0E, 0x63, 0x01, 0x83, 0x0E]);
    run(&mut cpu, 2);
    assert_eq!(cpu.v_regs()[1], 0x41);
    assert_eq!(cpu.v_regs()[0xF], 1);
    run(&mut cpu, 2);
    assert_eq!(cpu.v_regs()[2], 0x02);
    assert_eq!(cpu.v_regs()[0xF], 1);
    run(&mut cpu, 2);
    assert_eq!(cpu.v_regs()[3], 0x02);
    assert_eq!(cpu.v_regs()[0xF], 0);
}

#[test]
fn shift_right_into_flag_register() {
    // 8F06 writes VF first, then shifts the new VF
    let mut cpu = machine(&[0x6F, 0x03, 0x8F, 0x06]);
    run(&mut cpu, 2);
    assert_eq!(cpu.v_regs()[0xF], 0);
}

#[test]
fn unknown_opcodes_change_nothing_but_pc() {
    let mut cpu = machine(&[0x01, 0x23, 0x81, 0x28, 0xA1, 0x23, 0x91, 0x20]);
    let before = cpu.v_regs();
    let outcomes = run(&mut cpu, 4);
    assert_eq!(
        outcomes,
        vec![
            Outcome::UnknownSystemOpcode,
            Outcome::UnknownArithmeticOpcode,
            Outcome::UnknownOpcode,
            Outcome::Executed,
        ]
    );
    assert_eq!(cpu.v_regs(), before);
    assert_eq!(cpu.pc(), 0x208);
    assert_eq!(cpu.index_reg(), 0);
}

#[test]
fn clear_display_opcode() {
    let mut cpu = machine(&[0x00, 0xE0]);
    assert_eq!(run(&mut cpu, 1), vec![Outcome::Executed]);
    assert!(cpu.display().iter().all(|&b| b == 0));
    assert_eq!(cpu.pc(), 0x202);
}

#[test]
fn return_with_empty_stack_faults() {
    let cpu = machine(&[0x00, 0xEE]);
    assert_eq!(cpu.pending_fault(), Some(Fault::StackUnderflow));
}

#[test]
fn call_then_return() {
    // 0x200: call 0x204; 0x202: V1 = 9; 0x204: V2 = 7; 0x206: return
    let mut cpu = machine(&[0x22, 0x04, 0x61, 0x09, 0x62, 0x07, 0x00, 0xEE]);
    run(&mut cpu, 1);
    assert_eq!(cpu.pc(), 0x204);
    assert_eq!(cpu.sp(), 1);
    assert_eq!(cpu.stack()[0], 0x202);
    run(&mut cpu, 2);
    assert_eq!(cpu.pc(), 0x202);
    assert_eq!(cpu.sp(), 0);
    run(&mut cpu, 1);
    assert_eq!(cpu.v_regs()[1], 9);
    assert_eq!(cpu.v_regs()[2], 7);
}

#[test]
fn seventeenth_nested_call_overflows() {
    let mut rom = Vec::new();
    for k in 0..17u16 {
        let target = 0x200 + 2 * (k + 1);
        rom.push(0x20 | (target >> 8) as u8);
        rom.push((target & 0xFF) as u8);
    }
    let mut cpu = machine(&rom);
    run(&mut cpu, 16);
    assert_eq!(cpu.sp(), 16);
    assert_eq!(cpu.stack()[15], 0x220);
    assert_eq!(cpu.pending_fault(), Some(Fault::StackOverflow));
}

#[test]
fn program_counter_at_end_of_memory_faults() {
    let mut cpu = machine(&[0x1F, 0xFF]);
    run(&mut cpu, 1);
    assert_eq!(cpu.pc(), 0xFFF);
    assert_eq!(cpu.pending_fault(), Some(Fault::ProgramCounterOutOfRange));
}

#[test]
fn last_whole_instruction_runs() {
    let mut cpu = machine(&[0x1F, 0xFD]);
    run(&mut cpu, 1);
    assert_eq!(cpu.pending_fault(), None);
    cpu.step();
    assert_eq!(cpu.pc(), 0xFFF);
}

#[test]
fn steps_never_write_memory() {
    let rom = [0x61, 0x05, 0x81, 0x14, 0x71, 0x01, 0x00, 0xE0];
    let mut cpu = machine(&rom);
    let before = *cpu.memory();
    run(&mut cpu, 4);
    assert_eq!(*cpu.memory(), before);
}

#[test]
fn timers_stay_at_zero() {
    let mut cpu = Cpu::new();
    cpu.tick_timers();
    assert_eq!(cpu.delay_timer(), 0);
    assert_eq!(cpu.sound_timer(), 0);
    assert!(!cpu.sound_active());
}

#[test]
fn shift_left_flag_is_top_bit() {
    let mut cpu = machine(&[0x60, 0x81, 0x80, 0x0E]);
    run(&mut cpu, 2);
    let v = cpu.v_regs();
    assert_eq!(v[0], 0x02);
    assert_eq!(v[0xF], 1);
    assert!(v[1..15].iter().all(|&r| r == 0));
}

use termcraft::cpu::{example_counter, example_fibonacci, RedstoneCPU};

fn outputs_of(program: &[u8], cycles: u64) -> Vec<u8> {
    let mut cpu = RedstoneCPU::new();
    cpu.load_program(program);
    let mut outs = Vec::new();
    for _ in 0..cycles {
        if !cpu.running {
            break;
        }
        let before = cpu.program[cpu.pc as usize];
        cpu.tick();
        if before >> 4 == 0xD {
            outs.push(cpu.signal_output());
        }
    }
    outs
}

#[test]
fn new_cpu_is_stopped_and_clear() {
    let cpu = RedstoneCPU::new();
    assert_eq!(cpu.registers, [0; 8]);
    assert_eq!(cpu.ram, [0; 16]);
    assert_eq!(cpu.pc, 0);
    assert!(!cpu.running);
    assert_eq!(cpu.signal_output(), 0);
    assert!(cpu.program.is_empty());
}

#[test]
fn load_program_starts_at_zero() {
    let mut cpu = RedstoneCPU::new();
    cpu.pc = 7;
    cpu.cycle_count = 99;
    cpu.load_program(&[0x10, 0x05]);
    assert_eq!(cpu.program, vec![0x10, 0x05]);
    assert_eq!(cpu.pc, 0);
    assert!(cpu.running);
    assert_eq!(cpu.cycle_count, 0);
}

#[test]
fn counter_first_cycles() {
    let mut cpu = RedstoneCPU::new();
    cpu.load_program(&example_counter());
    cpu.run(6);
    assert_eq!(cpu.registers[0], 1);
    assert_eq!(cpu.registers[1], 1);
    assert_eq!(cpu.pc, 4);
    assert_eq!(cpu.signal_output(), 0);
    assert_eq!(cpu.cycle_count, 6);
    cpu.run(1);
    assert_eq!(cpu.signal_output(), 1);
    assert_eq!(cpu.pc, 5);
}

#[test]
fn counter_counts_and_wraps() {
    let outs = outputs_of(&example_counter(), 100);
    let expected: Vec<u8> = (0..16).chain(0..9).collect();
    assert_eq!(outs, expected);
}

#[test]
fn fibonacci_program_outputs() {
    let outs = outputs_of(&example_fibonacci(), 221);
    assert_eq!(outs, vec![0, 1, 1, 2, 3, 5, 8, 13, 5, 2, 7, 9, 0, 9, 9, 2, 11, 13, 8, 5]);
}

#[test]
fn example_programs_bytes() {
    assert_eq!(example_counter(), vec![0x10, 0x00, 0x11, 0x01, 0xD0, 0x30, 0x90, 0x84, 0xF0]);
    assert_eq!(
        example_fibonacci(),
        vec![0x11, 0x01, 0xD0, 0x27, 0x20, 0x37, 0x26, 0x25, 0x24, 0x23, 0x22, 0x21, 0x82, 0xF0]
    );
}

#[test]
fn subtraction_borrows_and_halts() {
    // R3 = 5, R4 = 3, R3 -= R4, out R3, halt
    let mut cpu = RedstoneCPU::new();
    cpu.load_program(&[0x13, 0x05, 0x14, 0x03, 0x43, 0xD3, 0xF0]);
    cpu.run(10);
    assert_eq!(cpu.registers[3], 2);
    assert!(!cpu.flags_c);
    assert!(!cpu.flags_z);
    assert_eq!(cpu.signal_output(), 2);
    assert!(!cpu.running);
    assert_eq!(cpu.cycle_count, 5);
    // R3 = 3, R4 = 5: 3 - 5 wraps to 14 with a borrow
    let mut cpu = RedstoneCPU::new();
    cpu.load_program(&[0x13, 0x03, 0x14, 0x05, 0x43, 0xF0]);
    cpu.run(10);
    assert_eq!(cpu.registers[3], 14);
    assert!(cpu.flags_c);
}

#[test]
fn addition_carries_into_nibble() {
    // R3 = 10, R4 = 9, R3 += R4 -> 19 mod 16 = 3, carry
    let mut cpu = RedstoneCPU::new();
    cpu.load_program(&[0x13, 0x0A, 0x14, 0x09, 0x33, 0xD3, 0xF0]);
    cpu.run(10);
    assert_eq!(cpu.registers[3], 3);
    assert!(cpu.flags_c);
    assert!(!cpu.flags_z);
    assert_eq!(cpu.signal_output(), 3);
}

#[test]
fn logic_memory_and_input() {
    // R0 = 12, R1 = 10; R0 &= R1 -> 8; R2 = 6, R3 = 3: R2 |= R3 -> 7; R4 = 5, R5 = 5: R4 ^= R5 -> 0 (Z)
    let mut cpu = RedstoneCPU::new();
    cpu.load_program(&[0x10, 0x0C, 0x11, 0x0A, 0x50, 0x12, 0x06, 0x13, 0x03, 0x62, 0x14, 0x05, 0x15, 0x05, 0x74, 0xF0]);
    cpu.run(20);
    assert_eq!(cpu.registers[0], 8);
    assert_eq!(cpu.registers[2], 7);
    assert_eq!(cpu.registers[4], 0);
    assert!(cpu.flags_z);
    // store and load: R0 = 2 (address), R1 = 9 (value): RAM[R0] = R1; R0 = RAM[R0]; R0 read from input
    let mut cpu = RedstoneCPU::new();
    cpu.load_program(&[0x10, 0x02, 0x11, 0x09, 0xB0, 0xC0, 0xD0, 0xE1, 0xF0]);
    cpu.run(20);
    assert_eq!(cpu.ram[2], 9);
    assert_eq!(cpu.registers[0], 9);
    assert_eq!(cpu.signal_output(), 9);
    assert_eq!(cpu.registers[1], 0);
}

#[test]
fn jumps_follow_the_zero_flag() {
    // R0 = 1, R1 = 1: R0 ^= R1 -> 0 sets Z; JNZ 0 not taken; JZ 8 taken; byte 7 halts early if reached
    let mut cpu = RedstoneCPU::new();
    cpu.load_program(&[0x10, 0x01, 0x11, 0x01, 0x70, 0xA0, 0x98, 0xF0, 0x13, 0x07, 0xD3, 0xF0]);
    cpu.run(20);
    assert_eq!(cpu.signal_output(), 7);
    assert!(!cpu.running);
}

#[test]
fn running_off_the_program_stops() {
    let mut cpu = RedstoneCPU::new();
    cpu.load_program(&[0x00, 0x00]);
    cpu.run(10);
    assert!(!cpu.running);
    assert_eq!(cpu.cycle_count, 2);
    assert_eq!(cpu.pc, 2);
}

#[test]
fn halted_cpu_does_not_change() {
    let mut cpu = RedstoneCPU::new();
    cpu.load_program(&[0xF0]);
    cpu.run(5);
    let (pc, cycles, regs) = (cpu.pc, cpu.cycle_count, cpu.registers);
    cpu.run(50);
    cpu.tick();
    assert_eq!((cpu.pc, cpu.cycle_count, cpu.registers), (pc, cycles, regs));
    assert!(!cpu.running);
}

#[test]
fn output_stays_a_signal_strength() {
    let mut cpu = RedstoneCPU::new();
    cpu.load_program(&example_counter());
    for _ in 0..200 {
        cpu.tick();
        assert!(cpu.signal_output() <= 15);
        assert!(cpu.pc < 16);
    }
}

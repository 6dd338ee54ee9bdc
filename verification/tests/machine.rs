use chip8::{Chip8, Fault, State};

#[test]
fn new_initial_state() {
    let m = Chip8::new(vec![0x12, 0x34]);
    assert_eq!(m.pc(), 0x200);
    assert_eq!(m.i(), 0);
    assert_eq!(m.delay(), 0);
    assert_eq!(m.sound(), 0);
    assert_eq!(m.stack_depth(), 0);
    assert_eq!(m.state(), State::Default);
    for k in 0..16u8 {
        assert!(!m.key(k));
        assert_eq!(m.vr(k), 0);
    }
    assert_eq!(m.display().len(), 64 * 32);
    for p in 0..64 * 32 {
        assert!(!m.display()[p]);
    }
}

#[test]
fn new_loads_font() {
    let m = Chip8::new(Vec::new());
    assert_eq!(m.read8(0), 0xF0);
    assert_eq!(m.read8(4), 0xF0);
    assert_eq!(m.read8(5), 0x20);
    assert_eq!(m.read8(9), 0x70);
    assert_eq!(m.read8(79), 0x80);
    assert_eq!(m.read8(80), 0x00);
}

#[test]
fn new_loads_rom_at_load_address() {
    let m = Chip8::new(vec![0xAB, 0xCD, 0xEF]);
    assert_eq!(m.read8(0x1FF), 0x00);
    assert_eq!(m.read8(0x200), 0xAB);
    assert_eq!(m.read8(0x201), 0xCD);
    assert_eq!(m.read8(0x202), 0xEF);
    assert_eq!(m.read8(0x203), 0x00);
}

#[test]
fn new_accepts_largest_program() {
    let rom = vec![0x77u8; 4096 - 512];
    let m = Chip8::new(rom);
    assert_eq!(m.read8(0xFFF), 0x77);
}

#[test]
fn unrecognized_instruction_faults() {
    let mut m = Chip8::new(vec![0xFF, 0xFF]);
    assert_eq!(m.cycle(), Err(Fault::UnrecognizedInstruction(0xFFFF)));
    assert_eq!(m.pc(), 0x202);
}

#[test]
fn zero_word_is_unrecognized() {
    let mut m = Chip8::new(Vec::new());
    assert_eq!(m.cycle(), Err(Fault::UnrecognizedInstruction(0x0000)));
}

#[test]
fn delay_write_pattern_is_unrecognized() {
    // Fx11 matches no table entry.
    let mut m = Chip8::new(vec![0xF0, 0x11]);
    assert_eq!(m.cycle(), Err(Fault::UnrecognizedInstruction(0xF011)));
}

#[test]
fn return_on_empty_stack_faults() {
    let mut m = Chip8::new(vec![0x00, 0xEE]);
    assert_eq!(m.cycle(), Err(Fault::StackUnderflow));
    assert_eq!(m.stack_depth(), 0);
    assert_eq!(m.pc(), 0x202);
}

#[test]
fn timers_decrement_and_saturate() {
    // V0 <- 3; delay <- V0; sound stays 0.
    let mut m = Chip8::new(vec![0x60, 0x03, 0xF0, 0x15]);
    assert_eq!(m.cycle(), Ok(()));
    assert_eq!(m.cycle(), Ok(()));
    assert_eq!(m.delay(), 3);
    assert_eq!(m.sound(), 0);
    m.decrease_timers();
    assert_eq!(m.delay(), 2);
    assert_eq!(m.sound(), 0);
    m.decrease_timers();
    m.decrease_timers();
    m.decrease_timers();
    assert_eq!(m.delay(), 0);
    assert_eq!(m.sound(), 0);
}

#[test]
fn sound_timer_loads_and_ticks() {
    // V0 <- 2; sound <- V0.
    let mut m = Chip8::new(vec![0x60, 0x02, 0xF0, 0x18]);
    assert_eq!(m.cycle(), Ok(()));
    assert_eq!(m.cycle(), Ok(()));
    assert_eq!(m.sound(), 2);
    m.decrease_timers();
    assert_eq!(m.sound(), 1);
}

#[test]
fn delay_timer_reads_back() {
    // V0 <- 5; delay <- V0; tick; V1 <- delay.
    let mut m = Chip8::new(vec![0x60, 0x05, 0xF0, 0x15, 0xF1, 0x07]);
    assert_eq!(m.cycle(), Ok(()));
    assert_eq!(m.cycle(), Ok(()));
    m.decrease_timers();
    assert_eq!(m.cycle(), Ok(()));
    assert_eq!(m.vr(1), 4);
}

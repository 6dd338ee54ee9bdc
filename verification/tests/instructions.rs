use chip8::Chip8;

fn run(rom: Vec<u8>, steps: usize) -> Chip8 {
    let mut m = Chip8::new(rom);
    for _ in 0..steps {
        m.cycle().expect("step faulted");
    }
    m
}

#[test]
fn add_without_overflow_scenario() {
    // V0 <- 0x0A; V1 <- 0x05; V0 <- V0 + V1.
    let m = run(vec![0x60, 0x0A, 0x61, 0x05, 0x80, 0x14], 3);
    assert_eq!(m.vr(0x0), 0x0F);
    assert_eq!(m.vr(0xF), 0x00);
}

#[test]
fn add_with_carry_wraps() {
    let m = run(vec![0x60, 0xFF, 0x61, 0x02, 0x80, 0x14], 3);
    assert_eq!(m.vr(0x0), 0x01);
    assert_eq!(m.vr(0xF), 0x01);
}

#[test]
fn sub_unborrowed_sets_flag() {
    // 10 - 5: no borrow needed.
    let m = run(vec![0x60, 0x0A, 0x61, 0x05, 0x80, 0x15], 3);
    assert_eq!(m.vr(0x0), 0x05);
    assert_eq!(m.vr(0xF), 0x01);
}

#[test]
fn sub_borrowed_wraps() {
    // 5 - 10 wraps to 251.
    let m = run(vec![0x60, 0x05, 0x61, 0x0A, 0x80, 0x15], 3);
    assert_eq!(m.vr(0x0), 0xFB);
    assert_eq!(m.vr(0xF), 0x00);
}

#[test]
fn sub_equal_values_leaves_flag_clear() {
    // The machine tests strict order: 5 - 5 reports a borrow flag of 0.
    let m = run(vec![0x60, 0x05, 0x61, 0x05, 0x80, 0x15], 3);
    assert_eq!(m.vr(0x0), 0x00);
    assert_eq!(m.vr(0xF), 0x00);
}

#[test]
fn sub_reversed_operands() {
    // V0 <- V1 - V0 = 10 - 5.
    let m = run(vec![0x60, 0x05, 0x61, 0x0A, 0x80, 0x17], 3);
    assert_eq!(m.vr(0x0), 0x05);
    assert_eq!(m.vr(0xF), 0x01);
}

#[test]
fn or_clears_flag() {
    let m = run(vec![0x6F, 0x05, 0x60, 0x0C, 0x61, 0x0A, 0x80, 0x11], 4);
    assert_eq!(m.vr(0x0), 0x0E);
    assert_eq!(m.vr(0xF), 0x00);
}

#[test]
fn and_clears_flag() {
    let m = run(vec![0x6F, 0x05, 0x60, 0x0C, 0x61, 0x0A, 0x80, 0x12], 4);
    assert_eq!(m.vr(0x0), 0x08);
    assert_eq!(m.vr(0xF), 0x00);
}

#[test]
fn xor_clears_flag() {
    let m = run(vec![0x6F, 0x05, 0x60, 0x0C, 0x61, 0x0A, 0x80, 0x13], 4);
    assert_eq!(m.vr(0x0), 0x06);
    assert_eq!(m.vr(0xF), 0x00);
}

#[test]
fn shift_right_uses_source_register() {
    // V0 <- V1 >> 1 with the shifted-out bit in VF.
    let m = run(vec![0x60, 0x70, 0x61, 0x05, 0x80, 0x16], 3);
    assert_eq!(m.vr(0x0), 0x02);
    assert_eq!(m.vr(0xF), 0x01);
}

#[test]
fn shift_left_uses_source_register() {
    let m = run(vec![0x60, 0x70, 0x61, 0x81, 0x80, 0x1E], 3);
    assert_eq!(m.vr(0x0), 0x02);
    assert_eq!(m.vr(0xF), 0x01);
}

#[test]
fn register_copy() {
    let m = run(vec![0x61, 0x2A, 0x80, 0x10], 2);
    assert_eq!(m.vr(0x0), 0x2A);
}

#[test]
fn add_immediate_wraps_without_flag() {
    let m = run(vec![0x60, 0xFF, 0x70, 0x02], 2);
    assert_eq!(m.vr(0x0), 0x01);
    assert_eq!(m.vr(0xF), 0x00);
}

#[test]
fn jump_sets_pc_and_next_fetch_comes_from_target() {
    let mut rom = vec![0x12, 0x08];
    rom.resize(8, 0x00);
    rom.extend_from_slice(&[0x60, 0x2A]);
    let mut m = Chip8::new(rom);
    m.cycle().expect("jump faulted");
    assert_eq!(m.pc(), 0x208);
    m.cycle().expect("fetch after jump faulted");
    assert_eq!(m.vr(0x0), 0x2A);
    assert_eq!(m.pc(), 0x20A);
}

#[test]
fn skip_equal_immediate() {
    // V0 == 7 skips the fault word.
    let m = run(vec![0x60, 0x07, 0x30, 0x07, 0x00, 0x00, 0x61, 0x01], 3);
    assert_eq!(m.vr(0x1), 0x01);
    // Not equal: no skip, next instruction executes.
    let m2 = run(vec![0x60, 0x07, 0x30, 0x08, 0x61, 0x01], 3);
    assert_eq!(m2.vr(0x1), 0x01);
}

#[test]
fn skip_not_equal_immediate() {
    let m = run(vec![0x60, 0x07, 0x40, 0x08, 0x00, 0x00, 0x61, 0x01], 3);
    assert_eq!(m.vr(0x1), 0x01);
}

#[test]
fn skip_equal_registers() {
    let m = run(vec![0x60, 0x07, 0x61, 0x07, 0x50, 0x10, 0x00, 0x00, 0x62, 0x01], 4);
    assert_eq!(m.vr(0x2), 0x01);
}

#[test]
fn skip_not_equal_registers() {
    let m = run(vec![0x60, 0x07, 0x61, 0x08, 0x90, 0x10, 0x00, 0x00, 0x62, 0x01], 4);
    assert_eq!(m.vr(0x2), 0x01);
}

#[test]
fn call_and_return_restore_pc() {
    // 0x200: call 0x206; 0x206: return; 0x202: V0 <- 1.
    let mut m = Chip8::new(vec![0x22, 0x06, 0x60, 0x01, 0x00, 0x00, 0x00, 0xEE]);
    m.cycle().expect("call faulted");
    assert_eq!(m.pc(), 0x206);
    assert_eq!(m.stack_depth(), 1);
    m.cycle().expect("return faulted");
    assert_eq!(m.pc(), 0x202);
    assert_eq!(m.stack_depth(), 0);
    m.cycle().expect("step after return faulted");
    assert_eq!(m.vr(0x0), 0x01);
}

#[test]
fn nested_calls_return_in_order() {
    // 0x200: call 0x204; 0x204: call 0x208; 0x208: return; 0x206: return;
    // 0x202: V0 <- 1.
    let mut m = Chip8::new(vec![0x22, 0x04, 0x60, 0x01, 0x22, 0x08, 0x00, 0xEE, 0x00, 0xEE]);
    m.cycle().expect("outer call faulted");
    m.cycle().expect("inner call faulted");
    assert_eq!(m.stack_depth(), 2);
    m.cycle().expect("inner return faulted");
    assert_eq!(m.pc(), 0x206);
    m.cycle().expect("outer return faulted");
    assert_eq!(m.pc(), 0x202);
    assert_eq!(m.stack_depth(), 0);
    m.cycle().expect("step after returns faulted");
    assert_eq!(m.vr(0x0), 0x01);
}

#[test]
fn index_load() {
    let m = run(vec![0xA1, 0x23], 1);
    assert_eq!(m.i(), 0x123);
}

#[test]
fn jump_with_offset() {
    let m = run(vec![0x60, 0x10, 0xB2, 0x00], 2);
    assert_eq!(m.pc(), 0x210);
}

#[test]
fn random_masked_with_zero_is_zero() {
    // Whatever byte the source produced, AND 0x00 clears it.
    let m = run(vec![0x60, 0x55, 0xC0, 0x00], 2);
    assert_eq!(m.vr(0x0), 0x00);
}

#[test]
fn index_add() {
    let m = run(vec![0x60, 0x05, 0xA1, 0x00, 0xF0, 0x1E], 3);
    assert_eq!(m.i(), 0x105);
}

#[test]
fn font_glyph_address() {
    let m = run(vec![0x60, 0x07, 0xF0, 0x29], 2);
    assert_eq!(m.i(), 35);
}

#[test]
fn binary_coded_decimal() {
    // V0 <- 156; digits 1, 5, 6 land at I, I+1, I+2.
    let m = run(vec![0x60, 0x9C, 0xA3, 0x00, 0xF0, 0x33], 3);
    assert_eq!(m.read8(0x300), 1);
    assert_eq!(m.read8(0x301), 5);
    assert_eq!(m.read8(0x302), 6);
}

#[test]
fn store_registers_advances_index() {
    let m = run(vec![0x60, 0x01, 0x61, 0x02, 0x62, 0x03, 0xA3, 0x00, 0xF2, 0x55], 5);
    assert_eq!(m.read8(0x300), 1);
    assert_eq!(m.read8(0x301), 2);
    assert_eq!(m.read8(0x302), 3);
    assert_eq!(m.read8(0x303), 0);
    assert_eq!(m.i(), 0x303);
}

#[test]
fn load_registers_advances_index() {
    // Store V0..=V2, zero them, reset I, load them back.
    let m = run(
        vec![
            0x60, 0x01, 0x61, 0x02, 0x62, 0x03, 0xA3, 0x00, 0xF2, 0x55, 0x60, 0x00, 0x61, 0x00,
            0x62, 0x00, 0xA3, 0x00, 0xF2, 0x65,
        ],
        10,
    );
    assert_eq!(m.vr(0x0), 1);
    assert_eq!(m.vr(0x1), 2);
    assert_eq!(m.vr(0x2), 3);
    assert_eq!(m.i(), 0x303);
}

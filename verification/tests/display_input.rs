use chip8::{Chip8, State};

fn px(m: &Chip8, x: usize, y: usize) -> bool {
    m.display()[y * 64 + x]
}

#[test]
fn draw_renders_font_glyph() {
    // I stays 0: glyph 0 (rows F0, 90, 90, 90, F0) at the origin.
    let mut m = Chip8::new(vec![0xD0, 0x05]);
    m.cycle().expect("draw faulted");
    for x in 0..4 {
        assert!(px(&m, x, 0));
    }
    for x in 4..8 {
        assert!(!px(&m, x, 0));
    }
    assert!(px(&m, 0, 1));
    assert!(!px(&m, 1, 1));
    assert!(!px(&m, 2, 1));
    assert!(px(&m, 3, 1));
    assert_eq!(m.vr(0xF), 0);
}

#[test]
fn draw_twice_restores_display() {
    let mut m = Chip8::new(vec![0xD0, 0x05, 0xD0, 0x05]);
    m.cycle().expect("first draw faulted");
    m.cycle().expect("second draw faulted");
    for p in 0..64 * 32 {
        assert!(!m.display()[p]);
    }
    // Turning lit cells off is a collision: the second draw reports it.
    assert_eq!(m.vr(0xF), 1);
}

#[test]
fn draw_wraps_origin() {
    // x = 64 wraps to 0.
    let mut m = Chip8::new(vec![0x60, 0x40, 0xD0, 0x11]);
    m.cycle().expect("load faulted");
    m.cycle().expect("draw faulted");
    assert!(px(&m, 0, 0));
    assert!(px(&m, 3, 0));
    assert!(!px(&m, 4, 0));
}

#[test]
fn draw_clips_at_right_edge() {
    // x = 62: the glyph row F0 lights 62 and 63; 64 and 65 are clipped, not
    // wrapped.
    let mut m = Chip8::new(vec![0x60, 0x3E, 0xD0, 0x11]);
    m.cycle().expect("load faulted");
    m.cycle().expect("draw faulted");
    assert!(px(&m, 62, 0));
    assert!(px(&m, 63, 0));
    assert!(!px(&m, 0, 0));
    assert!(!px(&m, 1, 0));
}

#[test]
fn clear_display_blanks_screen() {
    let mut m = Chip8::new(vec![0xD0, 0x05, 0x00, 0xE0]);
    m.cycle().expect("draw faulted");
    assert!(px(&m, 0, 0));
    m.cycle().expect("clear faulted");
    for p in 0..64 * 32 {
        assert!(!m.display()[p]);
    }
}

#[test]
fn keys_report_pressed_state() {
    let mut m = Chip8::new(Vec::new());
    assert!(!m.key(0x4));
    m.down(0x4);
    assert!(m.key(0x4));
    m.up(0x4);
    assert!(!m.key(0x4));
}

#[test]
fn skip_if_key_pressed() {
    let mut m = Chip8::new(vec![0x60, 0x04, 0xE0, 0x9E, 0x00, 0x00, 0x61, 0x01]);
    m.down(0x4);
    m.cycle().expect("load faulted");
    m.cycle().expect("key test faulted");
    assert_eq!(m.pc(), 0x206);
    m.cycle().expect("step after skip faulted");
    assert_eq!(m.vr(0x1), 1);
}

#[test]
fn skip_if_key_not_pressed() {
    let mut m = Chip8::new(vec![0x60, 0x04, 0xE0, 0xA1, 0x00, 0x00, 0x61, 0x01]);
    m.cycle().expect("load faulted");
    m.cycle().expect("key test faulted");
    assert_eq!(m.pc(), 0x206);
    m.cycle().expect("step after skip faulted");
    assert_eq!(m.vr(0x1), 1);
}

#[test]
fn held_key_does_not_skip_as_released() {
    let mut m = Chip8::new(vec![0x60, 0x04, 0xE0, 0xA1, 0x61, 0x01]);
    m.down(0x4);
    m.cycle().expect("load faulted");
    m.cycle().expect("key test faulted");
    assert_eq!(m.pc(), 0x204);
    m.cycle().expect("step faulted");
    assert_eq!(m.vr(0x1), 1);
}

#[test]
fn wait_key_scenario() {
    // F50A blocks fetch until a rising edge, then V5 holds the key and the
    // following step executes the next word.
    let mut m = Chip8::new(vec![0xF5, 0x0A, 0x60, 0x01]);
    m.cycle().expect("wait faulted");
    assert_eq!(m.state(), State::GetKey(5));
    assert_eq!(m.pc(), 0x202);
    for _ in 0..3 {
        m.cycle().expect("blocked step faulted");
        assert_eq!(m.pc(), 0x202);
        assert_eq!(m.state(), State::GetKey(5));
    }
    m.up(0x7);
    assert_eq!(m.state(), State::GetKey(5));
    m.down(0x7);
    assert_eq!(m.state(), State::Default);
    assert_eq!(m.vr(0x5), 0x7);
    assert_eq!(m.pc(), 0x202);
    m.cycle().expect("step after wait faulted");
    assert_eq!(m.vr(0x0), 0x1);
    assert_eq!(m.pc(), 0x204);
}

#[test]
fn held_key_does_not_resolve_wait() {
    let mut m = Chip8::new(vec![0xF5, 0x0A, 0x60, 0x01]);
    m.down(0x3);
    m.cycle().expect("wait faulted");
    assert_eq!(m.state(), State::GetKey(5));
    // The key is already down: no rising edge, still blocked.
    m.down(0x3);
    assert_eq!(m.state(), State::GetKey(5));
    m.up(0x3);
    m.down(0x3);
    assert_eq!(m.state(), State::Default);
    assert_eq!(m.vr(0x5), 0x3);
}

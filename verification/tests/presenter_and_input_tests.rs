use console_renderer::{Color, SceneParams};
use console_renderer::raster::PixelBuffer;
use console_renderer::presenter::{present, terminal_ops, expand_write, random_letter,
    CellWrite};
use console_renderer::input::{vk_to_keycode, KeyCode, KeyEvent, ConsoleInput};

#[test]
fn present_emits_only_changed_cells_in_order() {
    let bg = Color { r: 0, g: 0, b: 0, a: 255 };
    let prev = PixelBuffer::new(3, 2, bg);
    let mut cur = PixelBuffer::new(3, 2, bg);
    let red = Color { r: 255, g: 0, b: 0, a: 255 };
    cur.set_pixel(1, 0, red);
    cur.set_pixel(2, 1, red);
    let params = SceneParams::new();
    let writes = present(&prev, &cur, &params);
    assert_eq!(writes.len(), 2);
    assert_eq!((writes[0].x, writes[0].y), (1, 0));
    assert_eq!((writes[1].x, writes[1].y), (2, 1));
    assert_eq!(writes[0].color, red);
    assert_eq!(writes[0].character, '=');
}

#[test]
fn present_identical_buffers_emits_nothing() {
    let bg = Color { r: 3, g: 3, b: 3, a: 255 };
    let prev = PixelBuffer::new(4, 4, bg);
    let cur = PixelBuffer::new(4, 4, bg);
    let writes = present(&prev, &cur, &SceneParams::new());
    assert_eq!(writes.len(), 0);
}

#[test]
fn present_against_empty_previous_paints_fully() {
    let bg = Color { r: 1, g: 2, b: 3, a: 255 };
    let prev = PixelBuffer::new(0, 0, bg);
    let cur = PixelBuffer::new(2, 2, bg);
    let writes = present(&prev, &cur, &SceneParams::new());
    assert_eq!(writes.len(), 4);
}

#[test]
fn present_random_mode_uses_lowercase_letters() {
    let bg = Color { r: 0, g: 0, b: 0, a: 255 };
    let prev = PixelBuffer::new(0, 0, bg);
    let cur = PixelBuffer::new(2, 1, bg);
    let params = SceneParams::new().with_random_chars(true);
    let writes = present(&prev, &cur, &params);
    assert_eq!(writes.len(), 2);
    for w in &writes {
        assert!(w.character.is_ascii_lowercase());
    }
}

#[test]
fn random_letter_stays_in_range() {
    for _ in 0..100 {
        let c = random_letter();
        assert!(('a'..='z').contains(&c));
    }
}

#[test]
fn expand_write_builds_the_pixel_block() {
    let w = CellWrite {
        x: 1,
        y: 1,
        color: Color { r: 10, g: 20, b: 30, a: 255 },
        character: '#',
    };
    let ops = expand_write(&w, 2);
    assert_eq!(ops.len(), 4);
    let positions: Vec<(u32, u32)> = ops.iter().map(|o| (o.col, o.row)).collect();
    assert_eq!(positions, vec![(2, 2), (3, 2), (2, 3), (3, 3)]);
    for op in &ops {
        assert!(op.text.contains('#'));
    }
}

#[test]
fn terminal_ops_expands_every_write() {
    let w1 = CellWrite { x: 0, y: 0, color: Color::default(), character: 'a' };
    let w2 = CellWrite { x: 3, y: 1, color: Color::default(), character: 'b' };
    let ops = terminal_ops(&vec![w1, w2], 3);
    assert_eq!(ops.len(), 18);
    assert_eq!((ops[0].col, ops[0].row), (0, 0));
    assert_eq!((ops[9].col, ops[9].row), (9, 3));
}

#[test]
fn vk_mapping_covers_letters_digits_and_controls() {
    assert_eq!(vk_to_keycode(b'A'), Some(KeyCode::A));
    assert_eq!(vk_to_keycode(b'Z'), Some(KeyCode::Z));
    assert_eq!(vk_to_keycode(b'0'), Some(KeyCode::Key0));
    assert_eq!(vk_to_keycode(b'9'), Some(KeyCode::Key9));
    assert_eq!(vk_to_keycode(0x20), Some(KeyCode::Space));
    assert_eq!(vk_to_keycode(0x0d), Some(KeyCode::Return));
    assert_eq!(vk_to_keycode(0x1b), Some(KeyCode::Escape));
    assert_eq!(vk_to_keycode(0x08), Some(KeyCode::Backspace));
    assert_eq!(vk_to_keycode(0x09), Some(KeyCode::Tab));
    assert_eq!(vk_to_keycode(0xf0), None);
}

#[test]
fn key_set_tracks_presses_and_releases() {
    let mut input = ConsoleInput::new();
    input.apply_event(KeyEvent::Pressed(b'A'));
    input.apply_event(KeyEvent::Pressed(b'B'));
    // A repeated press does not duplicate the key.
    input.apply_event(KeyEvent::Pressed(b'A'));
    let mut keys = input.pressed_keys();
    keys.sort();
    assert_eq!(keys, vec![KeyCode::A, KeyCode::B]);

    input.apply_event(KeyEvent::Released(b'A'));
    assert_eq!(input.pressed_keys(), vec![KeyCode::B]);

    // Releasing a key that is not down, or an unmapped key, changes nothing.
    input.apply_event(KeyEvent::Released(b'C'));
    input.apply_event(KeyEvent::Pressed(0xf0));
    assert_eq!(input.pressed_keys(), vec![KeyCode::B]);
}

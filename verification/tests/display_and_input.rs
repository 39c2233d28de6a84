use multiemu::chip8_display::{
    Chip8Display, Chip8DisplayConfig, Chip8Kind, DisplayComponentInitializationData,
    DISPLAY_HEIGHT, DISPLAY_WIDTH,
};
use multiemu::chip8_input::Chip8KeyCode;
use multiemu::input::{GamepadInput, Input, KeyboardInput};
use multiemu::rom_memory::{RomMemory, RomMemoryConfig, RomId};
use multiemu::range_table::RangeTable;
use multiemu::access::{PreviewMemoryRecord, ReadMemoryRecord, WriteMemoryRecord};
use multiemu::snapshot::{SnapshotValue, bytes_eq, make_bin_map_snapshot, take_bin_map_payload};

fn fresh_display() -> Chip8Display {
    let mut display = Chip8Display::from_config(Chip8DisplayConfig { kind: Chip8Kind::Chip8 });
    display.set_display_data(DisplayComponentInitializationData::Software);
    display
}

fn pixel(frame: &[u8], x: usize, y: usize) -> bool {
    let k = (x + DISPLAY_WIDTH * y) * 4;
    frame[k] == 255 && frame[k + 1] == 255 && frame[k + 2] == 255 && frame[k + 3] == 255
}

#[test]
fn sprite_xor_and_collision() {
    let mut display = fresh_display();
    assert!(!display.draw_sprite((0, 0), &vec![0xff]));
    let frame = display.get_framebuffer();
    for x in 0..8 {
        assert!(pixel(&frame, x, 0));
    }
    assert!(display.draw_sprite((0, 0), &vec![0xff]));
    let frame = display.get_framebuffer();
    for x in 0..64 {
        assert!(!pixel(&frame, x, 0));
    }
}

#[test]
fn drawing_twice_restores_the_frame() {
    let mut display = fresh_display();
    display.draw_sprite((3, 5), &vec![0x3c, 0x42, 0x81]);
    let once = display.get_framebuffer();
    display.draw_sprite((10, 6), &vec![0xff, 0x18]);
    display.draw_sprite((10, 6), &vec![0xff, 0x18]);
    assert_eq!(display.get_framebuffer(), once);
}

#[test]
fn sprites_clip_at_the_edges() {
    let mut display = fresh_display();
    // wrapped entry position: 62 stays 62, pixels past column 63 are clipped
    display.draw_sprite((62, 30), &vec![0xff, 0xff, 0xff]);
    let frame = display.get_framebuffer();
    assert!(pixel(&frame, 62, 30));
    assert!(pixel(&frame, 63, 31));
    assert!(!pixel(&frame, 0, 30));
    assert!(!pixel(&frame, 0, 0));
}

#[test]
fn entry_position_wraps_modulo_63_and_31() {
    // the modelled hardware wraps the entry position modulo 63 and 31, not
    // 64 and 32: position (63, 31) lands at the origin
    let mut display = fresh_display();
    display.draw_sprite((63, 31), &vec![0x80]);
    let frame = display.get_framebuffer();
    assert!(pixel(&frame, 0, 0));
    assert!(!pixel(&frame, 63, 31));
}

#[test]
fn clear_display_turns_every_pixel_off() {
    let mut display = fresh_display();
    display.draw_sprite((5, 5), &vec![0xff, 0xff]);
    display.clear_display();
    let frame = display.get_framebuffer();
    for y in 0..DISPLAY_HEIGHT {
        for x in 0..DISPLAY_WIDTH {
            assert!(!pixel(&frame, x, y));
        }
    }
}

#[test]
fn display_snapshot_roundtrip() {
    let mut display = fresh_display();
    display.draw_sprite((12, 9), &vec![0xa5, 0x5a]);
    let snapshot = display.save_snapshot();
    let frame = display.get_framebuffer();

    let mut other = fresh_display();
    assert!(other.load_snapshot(snapshot));
    assert_eq!(other.get_framebuffer(), frame);
}

#[test]
fn display_snapshot_wrong_length_is_refused() {
    let mut display = fresh_display();
    let before = display.get_framebuffer();
    let bad = make_bin_map_snapshot(b"screen_buffer".to_vec(), vec![0u8; 16]);
    assert!(!display.load_snapshot(bad));
    assert_eq!(display.get_framebuffer(), before);
}

#[test]
fn display_reset_blanks_the_screen() {
    let mut display = fresh_display();
    display.draw_sprite((0, 0), &vec![0xff]);
    display.reset();
    let frame = display.get_framebuffer();
    assert!(!pixel(&frame, 0, 0));
}

#[test]
fn display_run_commits_and_clears_the_flag() {
    let mut display = fresh_display();
    display.draw_sprite((0, 0), &vec![0x80]);
    let frame = display.get_framebuffer();
    display.run(16_666_666);
    assert_eq!(display.get_framebuffer(), frame);
}

#[test]
fn key_map_is_the_identity_pairing() {
    for code in 0u8..=0xf {
        let input = Chip8KeyCode(code).try_to_input().unwrap();
        assert_eq!(Chip8KeyCode::try_from_input(input), Ok(Chip8KeyCode(code)));
    }
    assert_eq!(Chip8KeyCode(0x10).try_to_input(), Err(()));
    assert_eq!(
        Chip8KeyCode::try_from_input(Input::Keyboard(KeyboardInput::Space)),
        Err(())
    );
    assert_eq!(
        Chip8KeyCode::try_from_input(Input::Gamepad(GamepadInput::Start)),
        Err(())
    );
}

#[test]
fn input_iter_lists_gamepad_then_keyboard() {
    let inputs = Input::iter();
    assert_eq!(inputs.len(), 29);
    assert_eq!(inputs[0], Input::Gamepad(GamepadInput::DPadUp));
    assert_eq!(inputs[10], Input::Keyboard(KeyboardInput::Numpad0));
    assert!(inputs.contains(&Input::Keyboard(KeyboardInput::KeyF)));
}

#[test]
fn rom_memory_denies_writes_and_serves_reads() {
    let rom = RomMemory::from_config(
        RomMemoryConfig {
            rom: RomId(3),
            max_word_size: 4,
            assigned_range: 0..8,
        },
        vec![1, 2, 3, 4, 5, 6, 7, 8],
    );
    let mut buffer = vec![0u8; 4];
    let mut errors: RangeTable<ReadMemoryRecord> = RangeTable::new();
    rom.read_memory(2, &mut buffer, &mut errors);
    assert!(errors.is_empty());
    assert_eq!(buffer, [3, 4, 5, 6]);

    let mut errors: RangeTable<WriteMemoryRecord> = RangeTable::new();
    rom.write_memory(0, &vec![9u8, 9u8], &mut errors);
    assert_eq!(errors.entry_at(0), (0, 2, WriteMemoryRecord::Denied));
    let mut buffer = vec![0u8; 2];
    let mut errors: RangeTable<ReadMemoryRecord> = RangeTable::new();
    rom.read_memory(0, &mut buffer, &mut errors);
    assert_eq!(buffer, [1, 2]);
}

#[test]
fn rom_memory_word_size_denies_but_preview_does_not() {
    let rom = RomMemory::from_config(
        RomMemoryConfig {
            rom: RomId(4),
            max_word_size: 2,
            assigned_range: 0..8,
        },
        vec![1, 2, 3, 4, 5, 6, 7, 8],
    );
    // a read past the maximum word size denies the whole range, yet still
    // fills the buffer
    let mut buffer = vec![0u8; 4];
    let mut errors: RangeTable<ReadMemoryRecord> = RangeTable::new();
    rom.read_memory(0, &mut buffer, &mut errors);
    assert_eq!(errors.entry_at(0), (0, 4, ReadMemoryRecord::Denied));
    assert_eq!(buffer, [1, 2, 3, 4]);
    // a preview of the same width passes: it has no word size check
    let mut buffer = vec![0u8; 4];
    let mut errors: RangeTable<PreviewMemoryRecord> = RangeTable::new();
    rom.preview_memory(0, &mut buffer, &mut errors);
    assert!(errors.is_empty());
    assert_eq!(buffer, [1, 2, 3, 4]);
}

#[test]
fn rom_memory_serves_past_the_range_end_from_its_image() {
    // the image is longer than the assigned range: bytes past the range end
    // are still served, exactly as the mapped file would be
    let rom = RomMemory::from_config(
        RomMemoryConfig {
            rom: RomId(6),
            max_word_size: 8,
            assigned_range: 0..4,
        },
        vec![1, 2, 3, 4, 5, 6, 7, 8],
    );
    let mut buffer = vec![0u8; 4];
    let mut errors: RangeTable<ReadMemoryRecord> = RangeTable::new();
    rom.read_memory(2, &mut buffer, &mut errors);
    assert!(errors.is_empty());
    assert_eq!(buffer, [3, 4, 5, 6]);
    let mut buffer = vec![0u8; 4];
    let mut errors: RangeTable<PreviewMemoryRecord> = RangeTable::new();
    rom.preview_memory(4, &mut buffer, &mut errors);
    assert!(errors.is_empty());
    assert_eq!(buffer, [5, 6, 7, 8]);
}

#[test]
fn rom_memory_denies_past_its_image() {
    let rom = RomMemory::from_config(
        RomMemoryConfig {
            rom: RomId(5),
            max_word_size: 8,
            assigned_range: 0..16,
        },
        vec![1, 2, 3, 4],
    );
    let mut buffer = vec![0u8; 8];
    let mut errors: RangeTable<ReadMemoryRecord> = RangeTable::new();
    rom.read_memory(2, &mut buffer, &mut errors);
    assert_eq!(errors.entry_at(0), (4, 10, ReadMemoryRecord::Denied));
}

#[test]
fn snapshot_payload_needs_the_right_key() {
    let v = make_bin_map_snapshot(b"memory".to_vec(), vec![1, 2, 3]);
    let wrong = take_bin_map_payload(v, &b"screen_buffer".to_vec());
    assert!(wrong.is_none());
    let v = make_bin_map_snapshot(b"memory".to_vec(), vec![1, 2, 3]);
    let right = take_bin_map_payload(v, &b"memory".to_vec()).unwrap();
    assert_eq!(right, [1, 2, 3]);
    assert!(!take_bin_map_payload(SnapshotValue::Boolean(true), &b"memory".to_vec()).is_some());
    assert!(bytes_eq(&vec![1, 2], &vec![1, 2]));
    assert!(!bytes_eq(&vec![1, 2], &vec![1, 3]));
}

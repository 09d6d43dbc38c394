use rusticnes_wasm::events::{load_rom, piano_roll_window_click, update_windows, Event};

#[test]
fn load_rom_carries_the_image_and_no_save() {
    let image = [0x4eu8, 0x45, 0x53, 0x1a, 2, 1];
    let events = load_rom(&image);
    assert_eq!(
        events,
        vec![Event::LoadCartridge { rom: image.to_vec(), save: Vec::new() }]
    );
}

#[test]
fn load_rom_of_an_empty_image_is_still_one_event() {
    let events = load_rom(&[]);
    assert_eq!(events, vec![Event::LoadCartridge { rom: Vec::new(), save: Vec::new() }]);
}

#[test]
fn second_load_carries_nothing_over_from_the_first() {
    let first = load_rom(&[1, 2, 3]);
    let second = load_rom(&[4, 5]);
    assert_eq!(first, vec![Event::LoadCartridge { rom: vec![1, 2, 3], save: Vec::new() }]);
    assert_eq!(second, vec![Event::LoadCartridge { rom: vec![4, 5], save: Vec::new() }]);
}

#[test]
fn update_windows_is_one_update_tick() {
    assert_eq!(update_windows(), vec![Event::Update]);
}

#[test]
fn click_keeps_its_coordinates() {
    assert_eq!(piano_roll_window_click(12, 34), Event::MouseClick { x: 12, y: 34 });
    assert_eq!(piano_roll_window_click(-1, i32::MAX), Event::MouseClick { x: -1, y: i32::MAX });
}

#[test]
fn events_are_copied_whole() {
    let load = Event::LoadCartridge { rom: vec![7; 16], save: vec![1, 2] };
    assert_eq!(load.clone(), load);
    assert_ne!(Event::RunScanline, Event::RunFrame);
    assert_ne!(Event::RequestFrame, Event::Update);
}

use firmware_setup::key::Key;
use firmware_setup::screens::{
    BootScreen, CmosChoice, LoadOption, MainScreen, ScreenChange, SettingEntry, SettingScreen,
};

#[test]
fn main_menu_moves_and_opens() {
    let mut m = MainScreen::new(7);
    assert_eq!(m.row(), 0);
    assert_eq!(m.key(Key::Up), ScreenChange::Stay);
    assert_eq!(m.row(), 0);
    m.key(Key::Down);
    assert_eq!(m.key(Key::Enter), ScreenChange::Boot);
    m.key(Key::Down);
    m.key(Key::Down);
    assert_eq!(m.row(), 2);
    assert_eq!(m.key(Key::Enter), ScreenChange::Settings);
    assert_eq!(m.key(Key::Escape), ScreenChange::Exit);
    assert_eq!(MainScreen::new(1).row(), 1);
}

#[test]
fn boot_menu_returns_to_main() {
    let mut b = BootScreen::new(vec![
        ("Boot0000".to_string(), "Disk".to_string()),
        ("Boot0001".to_string(), "Network".to_string()),
    ]);
    b.key(Key::Down);
    b.key(Key::Down);
    assert_eq!(b.row(), 1);
    b.key(Key::Up);
    assert_eq!(b.row(), 0);
    assert_eq!(b.key(Key::Escape), ScreenChange::Main(1));
    assert_eq!(b.entries().len(), 2);
}

#[test]
fn settings_change_values_within_bounds() {
    let mut s = SettingScreen::new(
        vec!["boot_option".to_string(), "power_on".to_string()],
        vec![
            SettingEntry { config_id: 1, value: 0, max: 1 },
            SettingEntry { config_id: 2, value: 3, max: 3 },
        ],
        vec![
            CmosChoice { config_id: 1, text: "Fallback".to_string(), value: 0 },
            CmosChoice { config_id: 1, text: "Normal".to_string(), value: 1 },
        ],
    );
    assert_eq!(s.choice_for(0), Some(0));
    s.key(Key::PageUp);
    assert_eq!(s.entries()[0].value, 0);
    s.key(Key::PageDown);
    s.key(Key::PageDown);
    assert_eq!(s.entries()[0].value, 1);
    assert_eq!(s.choice_for(0), Some(1));
    s.key(Key::Down);
    s.key(Key::PageDown);
    assert_eq!(s.entries()[1].value, 3);
    assert_eq!(s.choice_for(1), None);
    assert_eq!(s.key(Key::Enter), ScreenChange::Stay);
    assert_eq!(s.column(), 1);
    s.key(Key::Right);
    assert_eq!(s.column(), 1);
    assert_eq!(s.key(Key::Escape), ScreenChange::Stay);
    assert_eq!(s.column(), 0);
    assert_eq!(s.key(Key::Escape), ScreenChange::Main(2));
}

#[test]
fn description_ends_at_nul() {
    assert_eq!(LoadOption::description_len(&vec![0x44, 0x69, 0, 0x73]), 2);
    assert_eq!(LoadOption::description_len(&vec![0x44, 0x69]), 2);
    assert_eq!(LoadOption::description_len(&vec![1; 3000]), 2048);
    let o = LoadOption { attributes: 1, file_path_list_length: 4 };
    assert_eq!(o.file_path_list_length, 4);
}

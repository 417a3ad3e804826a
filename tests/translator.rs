use tablet_driver::config::{ActionsConfig, Config, PenConfig, SettingsConfig};
use tablet_driver::keys::{combo_codes, split_combo, ConfigError};
use tablet_driver::translator::{
    asserted_indices, missing_indices, EmitCommand, MappingConfig, TabletM100Translator, Translator,
    BTN_STYLUS2_CODE, BTN_STYLUS_CODE, STYLUS_PRIMARY_INDEX, STYLUS_SECONDARY_INDEX,
};

const KEY_A: i32 = 30;
const KEY_B: i32 = 48;
const KEY_Z: i32 = 44;
const KEY_LEFTCTRL: i32 = 29;

fn config(buttons: &[&str], swap_axis: bool, swap_x: bool, swap_y: bool) -> Config {
    Config {
        xinput_name: "Tablet M100".to_string(),
        vendor_id: 0x08f2,
        product_id: 0x6811,
        interface: 0x85,
        pen: PenConfig {
            max_x: 32767,
            max_y: 20000,
            max_pressure: 8191,
            resolution_x: 100,
            resolution_y: 100,
        },
        actions: ActionsConfig {
            pen: "BTN_LEFT".to_string(),
            stylus: "BTN_RIGHT".to_string(),
            pen_touch: "BTN_TOUCH".to_string(),
            tablet_buttons: buttons.iter().map(|s| s.to_string()).collect(),
        },
        settings: SettingsConfig {
            swap_axis,
            swap_direction_x: swap_x,
            swap_direction_y: swap_y,
        },
    }
}

fn translator(buttons: &[&str]) -> TabletM100Translator {
    TabletM100Translator::new(&config(buttons, false, false, false)).unwrap()
}

fn btn(key: i32, pressed: bool, index: usize) -> EmitCommand {
    EmitCommand::Btn { key, pressed, index }
}

#[test]
fn pen_report_touching() {
    let mut t = translator(&[]);
    // raw X = 2*255 + 10, raw Y = 1*255 + 20, pressure = 3*255 + 7
    let out = t.translate(&vec![0, 193, 20, 1, 10, 2, 7, 3]);
    assert_eq!(out, vec![EmitCommand::Pen { x: 520, y: 275, pressure: 772, touch: true }]);
}

#[test]
fn pen_report_hovering() {
    let mut t = translator(&[]);
    let out = t.translate(&vec![0, 192, 0, 0, 0, 0, 0, 0]);
    assert_eq!(out, vec![EmitCommand::Pen { x: 0, y: 0, pressure: 0, touch: false }]);
}

#[test]
fn pen_report_takes_precedence_over_button_byte() {
    let mut t = translator(&["KEY_A"]);
    let out = t.translate(&vec![2, 193, 1, 0, 2, 0, 3, 0, 99, 99]);
    assert_eq!(out, vec![EmitCommand::Pen { x: 2, y: 1, pressure: 3, touch: true }]);
}

#[test]
fn pen_report_with_max_reading() {
    let mut t = translator(&[]);
    let out = t.translate(&vec![0, 193, 255, 255, 255, 255, 255, 255]);
    assert_eq!(out, vec![EmitCommand::Pen { x: 65280, y: 65280, pressure: 65280, touch: true }]);
}

#[test]
fn axis_swap_then_mirror() {
    let mut t = TabletM100Translator::new(&config(&[], true, true, false)).unwrap();
    // raw X = 100, raw Y = 40; swapped: x = 40, y = 100; x mirrored: 32767 - 40
    let out = t.translate(&vec![0, 193, 40, 0, 100, 0, 0, 0]);
    assert_eq!(out, vec![EmitCommand::Pen { x: 32727, y: 100, pressure: 0, touch: true }]);
}

#[test]
fn mirror_y() {
    let mut t = TabletM100Translator::new(&config(&[], false, false, true)).unwrap();
    let out = t.translate(&vec![0, 192, 40, 0, 100, 0, 0, 0]);
    assert_eq!(out, vec![EmitCommand::Pen { x: 100, y: 19960, pressure: 0, touch: false }]);
}

#[test]
fn flag_flipped_twice_gives_same_output() {
    let packet = vec![0, 193, 40, 1, 100, 2, 9, 0];
    let mut plain = translator(&[]);
    let expected = plain.translate(&packet);
    let mut t = translator(&[]);
    let mut cfg = config(&[], false, false, false);
    cfg.settings.swap_direction_x = !cfg.settings.swap_direction_x;
    t.update_from_config(&cfg).unwrap();
    assert_ne!(t.translate(&packet), expected);
    cfg.settings.swap_direction_x = !cfg.settings.swap_direction_x;
    t.update_from_config(&cfg).unwrap();
    assert_eq!(t.translate(&packet), expected);
}

#[test]
fn mirror_twice_restores_coordinate() {
    let mut once = TabletM100Translator::new(&config(&[], false, true, true)).unwrap();
    let out = once.translate(&vec![0, 193, 7, 0, 9, 0, 0, 0]);
    let (x, y) = match out[0] {
        EmitCommand::Pen { x, y, .. } => (x, y),
        _ => panic!("pen event expected"),
    };
    assert_eq!((32767 - x, 20000 - y), (9, 7));
}

#[test]
fn button_press_then_release() {
    let mut t = translator(&["KEY_A"]);
    let press = vec![2, 1, 0, 86, 0, 0, 0, 0];
    let release = vec![2, 0, 0, 0, 0, 0, 0, 0];
    assert_eq!(t.translate(&press), vec![btn(KEY_A, true, 0)]);
    assert_eq!(t.translate(&release), vec![btn(KEY_A, false, 0)]);
}

#[test]
fn held_button_gives_no_second_press() {
    let mut t = translator(&["KEY_A"]);
    let press = vec![2, 1, 0, 86, 0, 0, 0, 0];
    assert_eq!(t.translate(&press), vec![btn(KEY_A, true, 0)]);
    assert_eq!(t.translate(&press), vec![]);
    assert_eq!(t.translate(&vec![2, 0, 0, 0, 0, 0, 0, 0]), vec![btn(KEY_A, false, 0)]);
    assert_eq!(t.translate(&vec![2, 0, 0, 0, 0, 0, 0, 0]), vec![]);
    assert_eq!(t.translate(&press), vec![btn(KEY_A, true, 0)]);
}

#[test]
fn switching_buttons_presses_new_then_releases_old() {
    let mut t = translator(&["KEY_A", "KEY_B"]);
    assert_eq!(t.translate(&vec![2, 1, 0, 86, 0, 0, 0, 0]), vec![btn(KEY_A, true, 0)]);
    assert_eq!(
        t.translate(&vec![2, 1, 0, 87, 0, 0, 0, 0]),
        vec![btn(KEY_B, true, 1), btn(KEY_A, false, 0)]
    );
}

#[test]
fn combo_presses_every_key() {
    let mut t = translator(&["KEY_A", "KEY_B", "KEY_LEFTCTRL+KEY_Z"]);
    assert_eq!(
        t.translate(&vec![2, 0, 0, 47, 0, 0, 0, 0]),
        vec![btn(KEY_LEFTCTRL, true, 2), btn(KEY_Z, true, 2)]
    );
    assert_eq!(
        t.translate(&vec![2, 0, 0, 0, 0, 0, 0, 0]),
        vec![btn(KEY_LEFTCTRL, false, 2), btn(KEY_Z, false, 2)]
    );
}

#[test]
fn stylus_buttons_use_fixed_keys() {
    let mut t = translator(&[]);
    assert_eq!(
        t.translate(&vec![2, 1, 0, 28, 0, 0, 0, 0]),
        vec![btn(BTN_STYLUS_CODE as i32, true, STYLUS_PRIMARY_INDEX)]
    );
    assert_eq!(
        t.translate(&vec![2, 1, 0, 29, 0, 0, 0, 0]),
        vec![
            btn(BTN_STYLUS2_CODE as i32, true, STYLUS_SECONDARY_INDEX),
            btn(BTN_STYLUS_CODE as i32, false, STYLUS_PRIMARY_INDEX),
        ]
    );
    assert_eq!(BTN_STYLUS_CODE, 0x14b);
    assert_eq!(BTN_STYLUS2_CODE, 0x14c);
}

#[test]
fn unmapped_button_is_silent() {
    let mut t = translator(&["KEY_A"]);
    // (4, 0) asserts slot 7, beyond the one configured combo
    assert_eq!(t.translate(&vec![2, 4, 0, 0, 0, 0, 0, 0]), vec![]);
    assert_eq!(t.translate(&vec![2, 0, 0, 0, 0, 0, 0, 0]), vec![]);
}

#[test]
fn other_packets_are_ignored() {
    let mut t = translator(&["KEY_A"]);
    assert_eq!(t.translate(&vec![]), vec![]);
    assert_eq!(t.translate(&vec![2, 1, 0, 86, 0, 0, 0]), vec![]);
    assert_eq!(t.translate(&vec![0, 193, 0, 0]), vec![]);
    assert_eq!(t.translate(&vec![3, 1, 0, 86, 0, 0, 0, 0]), vec![]);
}

#[test]
fn trait_methods_delegate() {
    let mut t = translator(&["KEY_A"]);
    assert_eq!(t.conv(&vec![2, 1, 0, 86, 0, 0, 0, 0]), vec![btn(KEY_A, true, 0)]);
    let cfg = config(&["KEY_B"], false, false, false);
    assert_eq!(Translator::update_from_config(&mut t, &cfg), Ok(()));
    assert_eq!(t.conv(&vec![2, 0, 0, 0, 0, 0, 0, 0]), vec![btn(KEY_B, false, 0)]);
}

#[test]
fn reconfigure_keeps_held_buttons() {
    let mut t = translator(&["KEY_A"]);
    assert_eq!(t.translate(&vec![2, 1, 0, 86, 0, 0, 0, 0]), vec![btn(KEY_A, true, 0)]);
    t.update_from_config(&config(&["KEY_Z"], false, false, false)).unwrap();
    assert_eq!(t.translate(&vec![2, 0, 0, 0, 0, 0, 0, 0]), vec![btn(KEY_Z, false, 0)]);
}

#[test]
fn unknown_key_name_is_rejected() {
    let mut cfg = config(&["KEY_A"], false, false, false);
    cfg.actions.pen = "NOT_A_KEY".to_string();
    assert_eq!(TabletM100Translator::new(&cfg).err(), Some(ConfigError::UnknownKey));
    let cfg = config(&["KEY_A+NOPE"], false, false, false);
    assert_eq!(MappingConfig::from_config(&cfg).err(), Some(ConfigError::UnknownKey));
}

#[test]
fn failed_update_keeps_mapping() {
    let mut t = translator(&["KEY_A"]);
    let bad = config(&["KEY_A+"], false, false, false);
    assert_eq!(t.update_from_config(&bad), Err(ConfigError::UnknownKey));
    assert_eq!(t.translate(&vec![2, 1, 0, 86, 0, 0, 0, 0]), vec![btn(KEY_A, true, 0)]);
}

#[test]
fn large_limits_are_kept_and_mirror_saturates() {
    let mut cfg = config(&["KEY_A"], false, true, true);
    cfg.pen.max_x = u32::MAX;
    cfg.pen.max_y = (i32::MAX as u32) + 10;
    let mut t = TabletM100Translator::new(&cfg).unwrap();
    assert_eq!(t.mapping_config().pen_max_x, u32::MAX);
    // mirrored X = u32::MAX - 5 saturates; mirrored Y = i32::MAX + 10 - 20 fits
    assert_eq!(
        t.translate(&vec![0, 193, 20, 0, 5, 0, 0, 0]),
        vec![EmitCommand::Pen { x: i32::MAX, y: i32::MAX - 10, pressure: 0, touch: true }]
    );
    let mut t2 = translator(&[]);
    assert_eq!(t2.update_from_config(&cfg), Ok(()));
    assert_eq!(t2.mapping_config().pen_max_y, (i32::MAX as u32) + 10);
}

#[test]
fn conv_worked_pen_example() {
    let mut t = translator(&[]);
    assert_eq!(
        t.conv(&vec![0, 193, 10, 1, 20, 2, 30, 3]),
        vec![EmitCommand::Pen { x: 530, y: 265, pressure: 795, touch: true }]
    );
}

#[test]
fn conv_stylus_press_without_combos() {
    let mut t = translator(&[]);
    assert_eq!(
        t.conv(&vec![2, 1, 0, 28, 0, 0, 0, 0]),
        vec![btn(BTN_STYLUS_CODE as i32, true, STYLUS_PRIMARY_INDEX)]
    );
    assert_eq!(t.pressed_slots(), &vec![STYLUS_PRIMARY_INDEX]);
}

#[test]
fn getters_show_mapping_in_force() {
    let mut t = translator(&["KEY_A", "KEY_LEFTCTRL+KEY_Z"]);
    assert_eq!(t.action_tablet_buttons(), &vec![vec![30u16], vec![29, 44]]);
    t.translate(&vec![2, 1, 0, 87, 0, 0, 0, 0]);
    assert_eq!(t.pressed_slots(), &vec![1]);
    t.update_from_config(&config(&["KEY_B"], true, false, false)).unwrap();
    assert_eq!(t.action_tablet_buttons(), &vec![vec![48u16]]);
    assert!(t.mapping_config().swap_axis);
    assert_eq!(t.pressed_slots(), &vec![1]);
}

#[test]
fn mapping_from_config_resolves_names() {
    let cfg = config(&[" KEY_A + KEY_B ", "KEY_Z"], true, false, true);
    let m = MappingConfig::from_config(&cfg).unwrap();
    assert_eq!(m.pen_click_key, 0x110);
    assert_eq!(m.stylus_key, 0x111);
    assert_eq!(m.pen_touch_key, 0x14a);
    assert_eq!(m.tablet_button_combos, vec![vec![30, 48], vec![44]]);
    assert_eq!((m.pen_max_x, m.pen_max_y, m.pen_max_pressure), (32767, 20000, 8191));
    assert!(m.swap_axis && !m.swap_direction_x && m.swap_direction_y);
}

#[test]
fn combo_parts_are_split_and_trimmed() {
    assert_eq!(split_combo("KEY_A+KEY_B"), vec!["KEY_A", "KEY_B"]);
    assert_eq!(split_combo(""), vec![""]);
    assert_eq!(split_combo("KEY_A+"), vec!["KEY_A", ""]);
    assert_eq!(split_combo("+"), vec!["", ""]);
    assert_eq!(combo_codes(" KEY_LEFTCTRL +KEY_Z"), Some(vec![29, 44]));
    assert_eq!(combo_codes("KEY_A++KEY_B"), None);
    assert_eq!(combo_codes("key_a"), None);
}

#[test]
fn button_table_lookup() {
    assert_eq!(asserted_indices(1, 86), vec![0]);
    assert_eq!(asserted_indices(4, 0), vec![7]);
    assert_eq!(asserted_indices(1, 28), vec![STYLUS_PRIMARY_INDEX]);
    assert_eq!(asserted_indices(2, 86), Vec::<usize>::new());
}

#[test]
fn index_difference() {
    assert_eq!(missing_indices(&vec![1, 2, 3], &vec![2]), vec![1, 3]);
    assert_eq!(missing_indices(&vec![], &vec![2]), Vec::<usize>::new());
    assert_eq!(missing_indices(&vec![5, 5], &vec![]), vec![5, 5]);
}

#[test]
fn translator_from_mapping() {
    let mut m = MappingConfig::from_config(&config(&[], false, false, false)).unwrap();
    m.pen_max_y = 5;
    m.swap_direction_y = true;
    let mut t = TabletM100Translator::from_mapping(m);
    assert_eq!(
        t.translate(&vec![0, 193, 2, 0, 0, 0, 0, 0]),
        vec![EmitCommand::Pen { x: 0, y: 3, pressure: 0, touch: true }]
    );
    assert_eq!(KEY_B, 48);
}

use stars::tui::{tui_next_step, Key, KeyPress, TuiStep, TAB_COUNT};

fn press(key: Key) -> KeyPress {
    KeyPress { key, control: false }
}

#[test]
fn quit_keys() {
    assert_eq!(tui_next_step(2, press(Key::Char('q'))), TuiStep::Quit);
    assert_eq!(tui_next_step(2, press(Key::Esc)), TuiStep::Quit);
    assert_eq!(tui_next_step(0, KeyPress { key: Key::Char('c'), control: true }), TuiStep::Quit);
    assert_eq!(tui_next_step(0, press(Key::Char('c'))), TuiStep::Show(0));
}

#[test]
fn digit_keys_select_tabs() {
    assert_eq!(TAB_COUNT, 5);
    assert_eq!(tui_next_step(3, press(Key::Char('1'))), TuiStep::Show(0));
    assert_eq!(tui_next_step(0, press(Key::Char('5'))), TuiStep::Show(4));
    assert_eq!(tui_next_step(4, press(Key::Char('6'))), TuiStep::Show(4));
    assert_eq!(tui_next_step(1, press(Key::Char('0'))), TuiStep::Show(1));
}

#[test]
fn other_keys_keep_the_tab() {
    assert_eq!(tui_next_step(2, press(Key::Other)), TuiStep::Show(2));
    assert_eq!(tui_next_step(3, press(Key::Char('x'))), TuiStep::Show(3));
}

#[test]
fn tab_stays_in_range_over_a_session() {
    let keys = ['3', 'x', '9', '5', 'a', '1', '2'];
    let mut tab = 0usize;
    for k in keys {
        match tui_next_step(tab, press(Key::Char(k))) {
            TuiStep::Show(t) => tab = t,
            TuiStep::Quit => panic!("no quit key was pressed"),
        }
        assert!(tab < TAB_COUNT);
    }
    assert_eq!(tab, 1);
}

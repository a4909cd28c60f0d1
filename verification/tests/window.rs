use newtron::window::{on_focus_change, on_shortcut, WindowAction};

#[test]
fn alt_n_toggles_the_bar() {
    assert_eq!(on_shortcut(true, true, true), Some(WindowAction::Hide));
    assert_eq!(on_shortcut(true, true, false), Some(WindowAction::ShowAndFocus));
}

#[test]
fn other_shortcut_events_do_nothing() {
    assert_eq!(on_shortcut(false, true, true), None);
    assert_eq!(on_shortcut(true, false, false), None);
}

#[test]
fn losing_focus_hides_the_bar() {
    assert_eq!(on_focus_change(false), Some(WindowAction::Hide));
    assert_eq!(on_focus_change(true), None);
}

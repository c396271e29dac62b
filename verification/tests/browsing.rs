use hermes::ui::{ui_init, ui_step, UiEvent};

#[test]
fn selection_moves_within_bounds() {
    let s0 = ui_init();
    assert_eq!(s0.selected, 0);
    let s1 = ui_step(&s0, UiEvent::Down, 3);
    assert_eq!(s1.selected, 1);
    let s2 = ui_step(&s1, UiEvent::Down, 3);
    let s3 = ui_step(&s2, UiEvent::Down, 3);
    assert_eq!(s3.selected, 2);
    let s4 = ui_step(&s3, UiEvent::Up, 3);
    assert_eq!(s4.selected, 1);
    let s5 = ui_step(&ui_init(), UiEvent::Up, 3);
    assert_eq!(s5.selected, 0);
}

#[test]
fn selection_is_inert_on_empty_listing() {
    let s0 = ui_init();
    let s1 = ui_step(&s0, UiEvent::Down, 0);
    assert_eq!(s1.selected, 0);
    let s2 = ui_step(&s1, UiEvent::Open, 0);
    assert!(s2.viewing.is_none());
}

#[test]
fn open_and_close_viewing_pane() {
    let s0 = ui_init();
    let s1 = ui_step(&s0, UiEvent::Down, 2);
    let s2 = ui_step(&s1, UiEvent::Open, 2);
    assert_eq!(s2.viewing, Some(1));
    let s3 = ui_step(&s2, UiEvent::Close, 2);
    assert!(s3.viewing.is_none());
    assert_eq!(s3.selected, 1);
}

#[test]
fn quit_ends_the_loop_and_other_keys_do_nothing() {
    let s0 = ui_init();
    let s1 = ui_step(&s0, UiEvent::Other, 2);
    assert_eq!(s1, s0);
    let s2 = ui_step(&s1, UiEvent::Quit, 2);
    assert!(s2.done);
}

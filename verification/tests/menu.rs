use bebasin::app::{menu, App, InputMode, TableState};

#[test]
fn fresh_install_menu() {
    let app = App::for_installation(false);
    assert_eq!(app.items, vec![vec!["Install"], vec!["Custom Install"], vec!["Repository"]]);
    assert_eq!(app.state.selected, None);
    assert_eq!(app.input, "");
    assert_eq!(app.input_mode, InputMode::Normal);
    assert!(!app.installed);
    assert!(app.status.is_none());
}

#[test]
fn installed_menu() {
    let app = App::for_installation(true);
    assert_eq!(app.items, vec![vec!["Uninstall"], vec!["Update"], vec!["Repository"]]);
    assert!(app.installed);
    assert_eq!(menu(true), app.items);
}

#[test]
fn down_starts_at_first_row_and_wraps() {
    let mut app = App::for_installation(false);
    app.next();
    assert_eq!(app.state.selected, Some(0));
    app.next();
    assert_eq!(app.state.selected, Some(1));
    app.next();
    assert_eq!(app.state.selected, Some(2));
    app.next();
    assert_eq!(app.state.selected, Some(0));
}

#[test]
fn up_starts_at_first_row_and_wraps() {
    let mut app = App::for_installation(false);
    app.previous();
    assert_eq!(app.state.selected, Some(0));
    app.previous();
    assert_eq!(app.state.selected, Some(2));
    app.previous();
    assert_eq!(app.state.selected, Some(1));
}

#[test]
fn up_undoes_down() {
    let mut app = App::for_installation(true);
    for start in 0..3 {
        app.state = TableState { selected: Some(start) };
        app.next();
        app.previous();
        assert_eq!(app.state.selected, Some(start));
    }
}

#[test]
fn down_three_times_returns() {
    let mut app = App::for_installation(true);
    app.state = TableState { selected: Some(1) };
    app.next();
    app.next();
    app.next();
    assert_eq!(app.state.selected, Some(1));
}

#[test]
fn out_of_range_selection_wraps_to_first() {
    let mut app = App::for_installation(true);
    app.state = TableState { selected: Some(7) };
    app.next();
    assert_eq!(app.state.selected, Some(0));
}

#[test]
fn up_three_times_returns() {
    let mut app = App::for_installation(false);
    app.state = TableState { selected: Some(2) };
    app.previous();
    app.previous();
    app.previous();
    assert_eq!(app.state.selected, Some(2));
}

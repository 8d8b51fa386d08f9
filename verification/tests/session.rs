use bebasin::app::{App, InputMode, Status, TableState};
use bebasin::error::ErrorKind;
use bebasin::ui::{Action, Event, Key, Pending, Session, INSTALL_QUESTION, REPOSITORY_PAGE};

fn session(installed: bool) -> Session<'static> {
    Session::new(App::for_installation(installed), String::from("/tmp/hosts"), String::from("# header"))
}

fn read_error() -> ErrorKind {
    ErrorKind::ReadFailed { path: String::from("/x"), reason: String::from("gone") }
}

fn prepared_session() -> Session<'static> {
    let mut s = session(false);
    s.step(Event::Key(Key::Down));
    assert!(matches!(s.step(Event::Key(Key::Enter)), Action::CheckBackup));
    assert!(matches!(s.step(Event::BackupChecked(true)), Action::ReadInstallSources));
    let action = s.step(Event::InstallSources {
        bundled: Ok(b"0.0.0.0 ads.example\n".to_vec()),
        backup: Ok(b"127.0.0.1 localhost\n".to_vec()),
    });
    assert!(matches!(action, Action::Continue));
    s
}

#[test]
fn q_quits_in_menu() {
    let mut s = session(false);
    assert!(matches!(s.step(Event::Key(Key::Char('q'))), Action::Quit));
}

#[test]
fn arrows_move_highlight() {
    let mut s = session(false);
    assert!(matches!(s.step(Event::Key(Key::Down)), Action::Continue));
    assert_eq!(s.app.state, TableState { selected: Some(0) });
    s.step(Event::Key(Key::Up));
    assert_eq!(s.app.state.selected, Some(2));
}

#[test]
fn install_asks_for_confirmation() {
    let s = prepared_session();
    match &s.app.status {
        Some(Status::InstallSuccess(m)) => assert_eq!(m, INSTALL_QUESTION),
        _ => panic!("no confirmation"),
    }
    assert_eq!(s.pending, Pending::Nothing);
    assert_eq!(s.hosts_data.hosts_path, Some(String::from("/tmp/hosts")));
    assert_eq!(s.hosts_data.hosts_header, Some(String::from("# header")));
    let hosts = s.hosts_data.hosts_bebasin.as_ref().unwrap();
    assert!(hosts.contains(&b"0.0.0.0".to_vec(), &b"ads.example".to_vec()));
    assert!(hosts.contains(&b"127.0.0.1".to_vec(), &b"localhost".to_vec()));
}

#[test]
fn confirming_writes_then_shows_installed_menu() {
    let mut s = prepared_session();
    match s.step(Event::Key(Key::Enter)) {
        Action::WriteHosts { path, text } => {
            assert_eq!(path, "/tmp/hosts");
            assert_eq!(text, b"# header\n0.0.0.0 ads.example\n127.0.0.1 localhost\n".to_vec());
        }
        _ => panic!("expected a write"),
    }
    assert_eq!(s.pending, Pending::Write);
    assert!(matches!(s.step(Event::HostsWritten(Ok(()))), Action::Continue));
    assert!(s.app.installed);
    assert!(s.app.status.is_none());
    assert_eq!(s.app.items, vec![vec!["Uninstall"], vec!["Update"], vec!["Repository"]]);
}

#[test]
fn failed_write_leaves_not_installed() {
    let mut s = prepared_session();
    s.step(Event::Key(Key::Enter));
    let error = ErrorKind::WriteFailed { path: String::from("/tmp/hosts"), reason: String::from("denied") };
    s.step(Event::HostsWritten(Err(error)));
    assert!(!s.app.installed);
    assert!(s.app.status.is_none());
    assert_eq!(s.app.items, vec![vec!["Uninstall"], vec!["Update"], vec!["Repository"]]);
}

#[test]
fn esc_cancels_confirmation_and_removes_backup() {
    let mut s = prepared_session();
    assert!(matches!(s.step(Event::Key(Key::Esc)), Action::RemoveBackup));
    assert!(s.app.status.is_none());
    assert!(matches!(s.step(Event::Key(Key::Esc)), Action::Continue));
}

#[test]
fn missing_backup_is_made_first() {
    let mut s = session(false);
    s.step(Event::Key(Key::Down));
    s.step(Event::Key(Key::Enter));
    assert!(matches!(s.step(Event::BackupChecked(false)), Action::MakeBackup));
    assert!(matches!(s.step(Event::BackupDone(Ok(()))), Action::ReadInstallSources));
}

#[test]
fn failed_backup_quits() {
    let mut s = session(false);
    s.step(Event::Key(Key::Enter));
    s.step(Event::BackupChecked(false));
    assert!(matches!(s.step(Event::BackupDone(Err(read_error()))), Action::Quit));
}

#[test]
fn unreadable_list_shows_error_and_enter_does_nothing() {
    let mut s = prepared_session_with_error();
    assert!(matches!(s.app.status, Some(Status::Error(_))));
    assert!(matches!(s.step(Event::Key(Key::Enter)), Action::Continue));
    assert!(matches!(s.app.status, Some(Status::Error(_))));
}

fn prepared_session_with_error() -> Session<'static> {
    let mut s = session(false);
    s.step(Event::Key(Key::Down));
    s.step(Event::Key(Key::Enter));
    s.step(Event::BackupChecked(true));
    s.step(Event::InstallSources { bundled: Ok(Vec::new()), backup: Err(read_error()) });
    s
}

#[test]
fn second_row_edits_custom_path() {
    let mut s = session(false);
    s.step(Event::Key(Key::Down));
    s.step(Event::Key(Key::Down));
    s.step(Event::Key(Key::Enter));
    assert!(matches!(s.step(Event::BackupChecked(true)), Action::Continue));
    assert_eq!(s.app.input_mode, InputMode::Editing);
    s.step(Event::Key(Key::Char('q')));
    s.step(Event::Key(Key::Char('x')));
    assert_eq!(s.app.input, "qx");
    s.step(Event::Key(Key::Backspace));
    assert_eq!(s.app.input, "q");
    s.step(Event::Key(Key::Backspace));
    s.step(Event::Key(Key::Backspace));
    assert_eq!(s.app.input, "");
    s.step(Event::Key(Key::Enter));
    assert_eq!(s.app.input_mode, InputMode::Editing);
    s.step(Event::Key(Key::Esc));
    assert_eq!(s.app.input_mode, InputMode::Normal);
}

#[test]
fn third_row_opens_repository() {
    let mut s = session(false);
    s.step(Event::Key(Key::Up));
    s.step(Event::Key(Key::Up));
    assert_eq!(s.app.state.selected, Some(2));
    s.step(Event::Key(Key::Enter));
    match s.step(Event::BackupChecked(true)) {
        Action::OpenBrowser(page) => assert_eq!(page, REPOSITORY_PAGE),
        _ => panic!("expected the browser"),
    }
}

#[test]
fn installed_menu_does_nothing_on_enter() {
    let mut s = session(true);
    s.step(Event::Key(Key::Down));
    s.step(Event::Key(Key::Enter));
    assert!(matches!(s.step(Event::BackupChecked(true)), Action::Continue));
    assert_eq!(s.pending, Pending::Nothing);
    assert!(s.app.status.is_none());
}

#[test]
fn unexpected_events_change_nothing() {
    let mut s = session(false);
    assert!(matches!(s.step(Event::BackupChecked(false)), Action::Continue));
    assert!(matches!(s.step(Event::HostsWritten(Ok(()))), Action::Continue));
    assert!(!s.app.installed);
    s.step(Event::Key(Key::Enter));
    assert!(matches!(s.step(Event::Key(Key::Char('q'))), Action::Continue));
    assert_eq!(s.pending, Pending::BackupCheck);
}

#[test]
fn longer_menu_is_accepted() {
    let mut app = App::for_installation(false);
    app.items.push(vec!["Extra"]);
    app.state = TableState { selected: Some(3) };
    let mut s = Session::new(app, String::from("/tmp/hosts"), String::from("# header"));
    s.step(Event::Key(Key::Down));
    assert_eq!(s.app.state.selected, Some(0));
    s.step(Event::Key(Key::Up));
    assert_eq!(s.app.state.selected, Some(3));
}

#[test]
fn written_file_reads_back_as_the_sources() {
    let mut s = prepared_session();
    match s.step(Event::Key(Key::Enter)) {
        Action::WriteHosts { text, .. } => {
            let written = bebasin::hosts::parse(&text);
            assert_eq!(written.len(), 2);
            assert!(written.contains(&b"0.0.0.0".to_vec(), &b"ads.example".to_vec()));
            assert!(written.contains(&b"127.0.0.1".to_vec(), &b"localhost".to_vec()));
        }
        _ => panic!("expected a write"),
    }
}

#[test]
fn highlight_stays_on_three_row_menu() {
    let mut s = prepared_session();
    s.step(Event::Key(Key::Up));
    s.step(Event::Key(Key::Up));
    s.step(Event::Key(Key::Enter));
    s.step(Event::HostsWritten(Ok(())));
    let selected = s.app.state.selected.unwrap();
    assert!(selected < s.app.items.len());
}

#[test]
fn empty_menu_down_highlights_first_row() {
    let mut app = App::for_installation(false);
    app.items.clear();
    let mut s = Session::new(app, String::new(), String::new());
    s.step(Event::Key(Key::Down));
    assert_eq!(s.app.state.selected, Some(0));
    s.step(Event::Key(Key::Enter));
    assert_eq!(s.pending, Pending::BackupCheck);
}

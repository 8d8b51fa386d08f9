//! The decisions of the installer's event loop.
//!
//! The loop itself (drawing, reading keys, touching files, opening a
//! browser) belongs to the program around this library. Each time something
//! happens it hands the session an [`Event`]; the session updates the screen
//! state and answers with the [`Action`] to perform next.
use vstd::prelude::*;

use crate::app::{
    labels_of, lemma_moves_stay_in_menu, menu, menu_labels, next_index, previous_index, App,
    InputMode, Status,
};
use crate::error::ErrorKind;
use crate::hosts::{merge, parse, parse_hosts, render_file, Hosts};
use crate::layout::Rect;
use vstd::string::StrSliceExecFns;
use vstd::utf8::encode_utf8;

verus! {

/// `String::push`: its documentation says it appends the character to the end.
pub assume_specification[ String::push ](string: &mut String, ch: char)
    ensures
        final(string)@ == old(string)@.push(ch),
;

/// `String::pop`: its documentation says it removes the last character and
/// returns it, or returns `None` and leaves the string alone when it is empty.
pub assume_specification[ String::pop ](string: &mut String) -> (last: Option<char>)
    ensures
        old(string)@.len() == 0 ==> last is None && final(string)@ == old(string)@,
        old(string)@.len() > 0 ==> last == Some(old(string)@.last()) && final(string)@
            == old(string)@.drop_last(),
;

/// The page that the third menu row opens.
pub const REPOSITORY_PAGE: &'static str = "https://github.com/mochidaz/bebasin";

/// The question asked before the hosts list is written.
pub const INSTALL_QUESTION: &'static str = "Are you sure that you want to install bebasin?";

/// A key that the installer tells apart.
#[derive(Debug, Clone, Copy, PartialEq, Eq, Structural)]
pub enum Key {
    Char(char),
    Up,
    Down,
    Enter,
    Esc,
    Backspace,
    Other,
}

/// What happened: a key was pressed, or a piece of outside work asked for by an
/// [`Action`] finished.
#[derive(Debug)]
pub enum Event {
    Key(Key),
    /// Whether a backup of the hosts file exists.
    BackupChecked(bool),
    /// The outcome of backing up the hosts file.
    BackupDone(Result<(), ErrorKind>),
    /// The bundled hosts list and the backed-up hosts file, as read.
    InstallSources { bundled: Result<Vec<u8>, ErrorKind>, backup: Result<Vec<u8>, ErrorKind> },
    /// The outcome of writing the hosts file.
    HostsWritten(Result<(), ErrorKind>),
}

/// What to do next.
#[derive(Debug)]
pub enum Action {
    /// Draw the screen and wait for the next key.
    Continue,
    /// Leave the installer.
    Quit,
    /// Remove the backup of the hosts file, then continue.
    RemoveBackup,
    /// Find out whether a backup exists and report [`Event::BackupChecked`].
    CheckBackup,
    /// Back up the hosts file and report [`Event::BackupDone`].
    MakeBackup,
    /// Read the bundled hosts list and the backup, and report [`Event::InstallSources`].
    ReadInstallSources,
    /// Write the text to the file at the path and report [`Event::HostsWritten`].
    WriteHosts { path: String, text: Vec<u8> },
    /// Open the page in a web browser, then continue.
    OpenBrowser(&'static str),
}

/// Which piece of outside work the session waits for.
#[derive(Debug, Clone, Copy, PartialEq, Eq, Structural)]
pub enum Pending {
    Nothing,
    BackupCheck,
    Backup,
    InstallSources,
    Write,
}

/// The hosts list prepared for installing, kept until the user confirms.
#[derive(Debug)]
pub struct HostsData {
    pub hosts_path: Option<String>,
    pub hosts_bebasin: Option<Hosts>,
    pub hosts_header: Option<String>,
}

impl HostsData {
    /// Nothing prepared.
    pub fn new() -> (data: HostsData)
        ensures
            data.hosts_path is None,
            data.hosts_bebasin is None,
            data.hosts_header is None,
    {
        HostsData { hosts_path: None, hosts_bebasin: None, hosts_header: None }
    }
}

/// The installer's state between events.
pub struct Session<'a> {
    pub app: App<'a>,
    pub hosts_data: HostsData,
    pub pending: Pending,
    /// Where the hosts file is.
    pub hosts_path: String,
    /// The text written above the hosts list.
    pub hosts_header: String,
}

/// A confirmation is on screen.
pub open spec fn confirming(status: Option<Status>) -> bool {
    status matches Some(s) && s.is_confirmation()
}

impl<'a> Session<'a> {
    /// The state that every event keeps: a prepared hosts list whenever a
    /// confirmation is on screen.
    pub open spec fn wf(&self) -> bool {
        &&& confirming(self.app.status) ==> {
            &&& self.hosts_data.hosts_path is Some
            &&& self.hosts_data.hosts_bebasin is Some
            &&& self.hosts_data.hosts_header is Some
        }
    }

    /// A session over a fresh screen, with nothing prepared and nothing awaited.
    pub fn new(app: App<'a>, hosts_path: String, hosts_header: String) -> (session: Session<'a>)
        requires
            !confirming(app.status),
        ensures
            session.wf(),
            session.app == app,
            session.hosts_data.hosts_path is None,
            session.hosts_data.hosts_bebasin is None,
            session.hosts_data.hosts_header is None,
            session.pending == Pending::Nothing,
            session.hosts_path == hosts_path,
            session.hosts_header == hosts_header,
    {
        Session { app, hosts_data: HostsData::new(), pending: Pending::Nothing, hosts_path, hosts_header }
    }
}

/// Up or Down on the menu with a row highlighted needs a row to wrap to: the
/// menu code computes the last row's index, which underflows on an empty menu.
pub open spec fn moves_have_rows(s: Session, event: Event) -> bool {
    (event matches Event::Key(key) && (key == Key::Up || key == Key::Down) && s.pending
        == Pending::Nothing && s.app.input_mode == InputMode::Normal && s.app.state.selected is Some)
        ==> s.app.items.len() > 0
}

/// A key pressed while the menu has the keyboard.
pub open spec fn menu_key(pre: Session, key: Key, post: Session, action: Action) -> bool {
    match key {
        Key::Char(c) => if c == 'q' {
            post == pre && action is Quit
        } else {
            post == pre && action is Continue
        },
        Key::Down => {
            &&& post == (Session {
                app: App {
                    state: crate::app::TableState {
                        selected: Some(next_index(pre.app.state.selected, pre.app.items.len() as nat)),
                    },
                    ..pre.app
                },
                ..pre
            })
            &&& action is Continue
        },
        Key::Up => {
            &&& post == (Session {
                app: App {
                    state: crate::app::TableState {
                        selected: Some(previous_index(pre.app.state.selected, pre.app.items.len() as nat)),
                    },
                    ..pre.app
                },
                ..pre
            })
            &&& action is Continue
        },
        Key::Esc => if confirming(pre.app.status) {
            post == (Session { app: App { status: None, ..pre.app }, ..pre }) && action is RemoveBackup
        } else {
            post == pre && action is Continue
        },
        Key::Enter => if confirming(pre.app.status) {
            &&& post == (Session { pending: Pending::Write, ..pre })
            &&& action matches Action::WriteHosts { path, text } && {
                &&& path == pre.hosts_data.hosts_path.unwrap()
                &&& text@ == render_file(
                    encode_utf8(pre.hosts_data.hosts_header.unwrap()@),
                    pre.hosts_data.hosts_bebasin.unwrap().lines(),
                )
                &&& parse_hosts(text@) == merge(
                    parse_hosts(encode_utf8(pre.hosts_data.hosts_header.unwrap()@)),
                    pre.hosts_data.hosts_bebasin.unwrap()@,
                )
            }
        } else if pre.app.status is Some {
            post == pre && action is Continue
        } else {
            post == (Session { pending: Pending::BackupCheck, ..pre }) && action is CheckBackup
        },
        _ => post == pre && action is Continue,
    }
}

/// A key pressed while the custom path is being edited.
pub open spec fn editing_key(pre: Session, key: Key, post: Session, action: Action) -> bool {
    &&& action is Continue
    &&& match key {
        Key::Char(c) => post == (Session { app: App { input: post.app.input, ..pre.app }, ..pre })
            && post.app.input@ == pre.app.input@.push(c),
        Key::Backspace => post == (Session { app: App { input: post.app.input, ..pre.app }, ..pre })
            && post.app.input@ == (if pre.app.input@.len() == 0 {
            pre.app.input@
        } else {
            pre.app.input@.drop_last()
        }),
        Key::Esc => post == (Session { app: App { input_mode: InputMode::Normal, ..pre.app }, ..pre }),
        _ => post == pre,
    }
}

/// Enter on the menu, once a backup is known to exist: the highlighted row
/// decides, unless the hosts list is already installed.
pub open spec fn menu_choice(pre: Session, post: Session, action: Action) -> bool {
    let idle = Session { pending: Pending::Nothing, ..pre };
    if !pre.app.installed && pre.app.state.selected == Some(0usize) {
        post == (Session { pending: Pending::InstallSources, ..pre }) && action is ReadInstallSources
    } else if !pre.app.installed && pre.app.state.selected == Some(1usize) {
        post == (Session { app: App { input_mode: InputMode::Editing, ..pre.app }, ..idle })
            && action is Continue
    } else if !pre.app.installed && pre.app.state.selected == Some(2usize) {
        post == idle && action == Action::OpenBrowser(REPOSITORY_PAGE)
    } else {
        post == idle && action is Continue
    }
}

/// The sources of the hosts list were read: on success the list is prepared
/// and the user is asked to confirm; otherwise the first error is shown.
pub open spec fn sources_read(
    pre: Session,
    bundled: Result<Vec<u8>, ErrorKind>,
    backup: Result<Vec<u8>, ErrorKind>,
    post: Session,
) -> bool {
    let idle = Session { pending: Pending::Nothing, ..pre };
    match (bundled, backup) {
        (Err(e), _) => post == (Session { app: App { status: Some(Status::Error(e)), ..pre.app }, ..idle }),
        (Ok(_), Err(e)) => post == (Session {
            app: App { status: Some(Status::Error(e)), ..pre.app },
            ..idle
        }),
        (Ok(b), Ok(k)) => {
            &&& post == (Session {
                app: App { status: post.app.status, ..pre.app },
                hosts_data: HostsData {
                    hosts_path: Some(pre.hosts_path),
                    hosts_bebasin: post.hosts_data.hosts_bebasin,
                    hosts_header: Some(pre.hosts_header),
                },
                ..idle
            })
            &&& post.app.status matches Some(Status::InstallSuccess(m)) && m@ == INSTALL_QUESTION@
            &&& post.hosts_data.hosts_bebasin matches Some(h) && h@ == merge(
                parse_hosts(b@),
                parse_hosts(k@),
            )
        },
    }
}

/// The hosts file was written (or failed to be): the confirmation goes away,
/// the menu becomes that of an installed system, and the system counts as
/// installed if the write succeeded.
pub open spec fn hosts_written(pre: Session, written: bool, post: Session) -> bool {
    &&& post == (Session {
        app: App {
            status: None,
            installed: pre.app.installed || written,
            items: post.app.items,
            ..pre.app
        },
        pending: Pending::Nothing,
        ..pre
    })
    &&& labels_of(post.app.items@) == menu_labels(true)
    &&& post.app.items.len() == 3
}

/// What one event does: the session after it, and the action it asks for.
/// An event that the session does not wait for changes nothing.
pub open spec fn step_spec(pre: Session, event: Event, post: Session, action: Action) -> bool {
    let unchanged = post == pre && action is Continue;
    match event {
        Event::Key(key) => if pre.pending != Pending::Nothing {
            unchanged
        } else if pre.app.input_mode == InputMode::Normal {
            menu_key(pre, key, post, action)
        } else {
            editing_key(pre, key, post, action)
        },
        Event::BackupChecked(backed) => if pre.pending != Pending::BackupCheck {
            unchanged
        } else if backed {
            menu_choice(pre, post, action)
        } else {
            post == (Session { pending: Pending::Backup, ..pre }) && action is MakeBackup
        },
        Event::BackupDone(result) => if pre.pending != Pending::Backup {
            unchanged
        } else if result is Ok {
            menu_choice(pre, post, action)
        } else {
            post == (Session { pending: Pending::Nothing, ..pre }) && action is Quit
        },
        Event::InstallSources { bundled, backup } => if pre.pending != Pending::InstallSources {
            unchanged
        } else {
            sources_read(pre, bundled, backup, post) && action is Continue
        },
        Event::HostsWritten(result) => if pre.pending != Pending::Write {
            unchanged
        } else {
            hosts_written(pre, result is Ok, post) && action is Continue
        },
    }
}

/// The hosts file is written only when the user presses Enter on a
/// confirmation, and it is then written with the prepared hosts list.
pub proof fn lemma_write_only_after_confirmation(pre: Session, event: Event, post: Session, action: Action)
    requires
        step_spec(pre, event, post, action),
        action is WriteHosts,
    ensures
        event == Event::Key(Key::Enter),
        pre.pending == Pending::Nothing,
        pre.app.input_mode == InputMode::Normal,
        confirming(pre.app.status),
        post.pending == Pending::Write,
{
}

/// An install writes what it read: confirming the prepared list writes the
/// hosts file with the header's entries, the bundled list and the backed-up
/// hosts file, merged, to the hosts path.
pub proof fn lemma_install_writes_what_was_read(
    s0: Session,
    bundled: Vec<u8>,
    backup: Vec<u8>,
    s1: Session,
    a1: Action,
    s2: Session,
    a2: Action,
)
    requires
        s0.pending == Pending::InstallSources,
        s0.app.input_mode == InputMode::Normal,
        step_spec(s0, Event::InstallSources { bundled: Ok(bundled), backup: Ok(backup) }, s1, a1),
        step_spec(s1, Event::Key(Key::Enter), s2, a2),
    ensures
        a2 matches Action::WriteHosts { path, text } && {
            &&& path == s0.hosts_path
            &&& parse_hosts(text@) == merge(
                parse_hosts(encode_utf8(s0.hosts_header@)),
                merge(parse_hosts(bundled@), parse_hosts(backup@)),
            )
        },
{
}

/// The highlight, if any, is on a row of the menu.
pub open spec fn highlight_on_menu(s: Session) -> bool {
    s.app.state.selected matches Some(i) ==> i < s.app.items.len()
}

/// On a menu of at most three rows (every menu the installer builds has
/// three), every event keeps the highlight on a row of the menu. A longer menu
/// is replaced by the three rows of the installed menu once the hosts list is
/// written, which can leave a highlight past the new last row.
pub proof fn lemma_highlight_stays_on_menu(pre: Session, event: Event, post: Session, action: Action)
    requires
        pre.wf(),
        step_spec(pre, event, post, action),
        0 < pre.app.items.len() <= 3,
        highlight_on_menu(pre),
    ensures
        highlight_on_menu(post),
        post.app.items.len() <= 3,
{
    lemma_moves_stay_in_menu(pre.app.state.selected, pre.app.items.len() as nat);
}

/// The installer quits only on `q` in the menu, or when the backup it needs
/// could not be made.
pub proof fn lemma_quit_only_on_q_or_failed_backup(pre: Session, event: Event, post: Session, action: Action)
    requires
        step_spec(pre, event, post, action),
        action is Quit,
    ensures
        event == Event::Key(Key::Char('q')) && pre.app.input_mode == InputMode::Normal || (
        event matches Event::BackupDone(r) && r is Err),
{
}

/// Once a backup is known to exist, Enter on the menu starts reading the
/// install sources exactly when Install (the first row) is highlighted on a
/// system without the hosts list; with no row highlighted the session goes
/// idle, asks to continue, and changes nothing else.
pub proof fn lemma_choice_follows_highlight(pre: Session, event: Event, post: Session, action: Action)
    requires
        step_spec(pre, event, post, action),
        (event == Event::BackupChecked(true) && pre.pending == Pending::BackupCheck) || (event
            == Event::BackupDone(Ok(())) && pre.pending == Pending::Backup),
    ensures
        action is ReadInstallSources <==> (!pre.app.installed && pre.app.state.selected == Some(0usize)),
        action is ReadInstallSources ==> post == (Session { pending: Pending::InstallSources, ..pre }),
        pre.app.state.selected is None ==> action is Continue && post == (Session {
            pending: Pending::Nothing,
            ..pre
        }),
        pre.app.installed ==> action is Continue && post == (Session { pending: Pending::Nothing, ..pre }),
{
}

/// `q` on the menu, with nothing pending, quits and changes nothing, whatever
/// row is highlighted and whatever is on screen.
pub proof fn lemma_q_quits(pre: Session, post: Session, action: Action)
    requires
        step_spec(pre, Event::Key(Key::Char('q')), post, action),
        pre.pending == Pending::Nothing,
        pre.app.input_mode == InputMode::Normal,
    ensures
        action is Quit,
        post == pre,
{
}

/// While the custom path is edited, a typed character is appended to it, and
/// nothing else changes.
pub proof fn lemma_typing_appends(pre: Session, c: char, post: Session, action: Action)
    requires
        step_spec(pre, Event::Key(Key::Char(c)), post, action),
        pre.pending == Pending::Nothing,
        pre.app.input_mode == InputMode::Editing,
    ensures
        post.app.input@.len() == pre.app.input@.len() + 1,
        post.app.input@.last() == c,
        post.app.input@.drop_last() == pre.app.input@,
        post == (Session { app: App { input: post.app.input, ..pre.app }, ..pre }),
        action is Continue,
{
    assert(pre.app.input@.push(c).drop_last() =~= pre.app.input@);
}

/// While the custom path is edited, Backspace removes its last character (if
/// any), and nothing else changes.
pub proof fn lemma_backspace_removes_last(pre: Session, post: Session, action: Action)
    requires
        step_spec(pre, Event::Key(Key::Backspace), post, action),
        pre.pending == Pending::Nothing,
        pre.app.input_mode == InputMode::Editing,
    ensures
        pre.app.input@.len() > 0 ==> post.app.input@.push(pre.app.input@.last()) == pre.app.input@,
        pre.app.input@.len() == 0 ==> post.app.input@.len() == 0,
        post == (Session { app: App { input: post.app.input, ..pre.app }, ..pre }),
        action is Continue,
{
    if pre.app.input@.len() > 0 {
        assert(pre.app.input@.drop_last().push(pre.app.input@.last()) =~= pre.app.input@);
    }
}

/// A key pressed while the session waits for outside work changes nothing.
pub proof fn lemma_keys_wait_for_outside_work(pre: Session, key: Key, post: Session, action: Action)
    requires
        step_spec(pre, Event::Key(key), post, action),
        pre.pending != Pending::Nothing,
    ensures
        post == pre,
        action is Continue,
{
}

impl<'a> Session<'a> {
    /// Handles one event and says what to do next.
    pub fn step(&mut self, event: Event) -> (action: Action)
        requires
            old(self).wf(),
            moves_have_rows(*old(self), event),
        ensures
            final(self).wf(),
            step_spec(*old(self), event, *final(self), action),
    {
        match event {
            Event::Key(key) => {
                if self.pending != Pending::Nothing {
                    Action::Continue
                } else if self.app.input_mode == InputMode::Normal {
                    self.menu_key(key)
                } else {
                    self.editing_key(key);
                    Action::Continue
                }
            },
            Event::BackupChecked(backed) => {
                if self.pending != Pending::BackupCheck {
                    Action::Continue
                } else if backed {
                    self.menu_choice()
                } else {
                    self.pending = Pending::Backup;
                    Action::MakeBackup
                }
            },
            Event::BackupDone(result) => {
                if self.pending != Pending::Backup {
                    Action::Continue
                } else {
                    match result {
                        Ok(()) => self.menu_choice(),
                        Err(_) => {
                            self.pending = Pending::Nothing;
                            Action::Quit
                        },
                    }
                }
            },
            Event::InstallSources { bundled, backup } => {
                if self.pending != Pending::InstallSources {
                    Action::Continue
                } else {
                    self.sources_read(bundled, backup);
                    Action::Continue
                }
            },
            Event::HostsWritten(result) => {
                if self.pending != Pending::Write {
                    Action::Continue
                } else {
                    let written = result.is_ok();
                    self.hosts_written(written);
                    Action::Continue
                }
            },
        }
    }

    fn menu_key(&mut self, key: Key) -> (action: Action)
        requires
            old(self).wf(),
            (key == Key::Up || key == Key::Down) && old(self).app.state.selected is Some
                ==> old(self).app.items.len() > 0,
        ensures
            final(self).wf(),
            menu_key(*old(self), key, *final(self), action),
    {
        match key {
            Key::Char(c) => {
                if c == 'q' {
                    Action::Quit
                } else {
                    Action::Continue
                }
            },
            Key::Down => {
                self.app.next();
                Action::Continue
            },
            Key::Up => {
                self.app.previous();
                Action::Continue
            },
            Key::Esc => {
                let confirming = match &self.app.status {
                    Some(Status::InstallSuccess(_)) => true,
                    Some(Status::RemoveSuccess(_)) => true,
                    _ => false,
                };
                if confirming {
                    self.app.status = None;
                    Action::RemoveBackup
                } else {
                    Action::Continue
                }
            },
            Key::Enter => {
                let confirming = match &self.app.status {
                    Some(Status::InstallSuccess(_)) => true,
                    Some(Status::RemoveSuccess(_)) => true,
                    _ => false,
                };
                if confirming {
                    let path = match &self.hosts_data.hosts_path {
                        Some(p) => p.clone(),
                        None => String::new(),
                    };
                    let text = match (&self.hosts_data.hosts_bebasin, &self.hosts_data.hosts_header) {
                        (Some(hosts), Some(header)) => hosts.render_file(header.as_str().as_bytes()),
                        _ => Vec::new(),
                    };
                    self.pending = Pending::Write;
                    Action::WriteHosts { path, text }
                } else if self.app.status.is_some() {
                    Action::Continue
                } else {
                    self.pending = Pending::BackupCheck;
                    Action::CheckBackup
                }
            },
            _ => Action::Continue,
        }
    }

    fn editing_key(&mut self, key: Key)
        requires
            old(self).wf(),
        ensures
            final(self).wf(),
            editing_key(*old(self), key, *final(self), Action::Continue),
    {
        match key {
            Key::Char(c) => {
                self.app.input.push(c);
            },
            Key::Backspace => {
                self.app.input.pop();
            },
            Key::Esc => {
                self.app.input_mode = InputMode::Normal;
            },
            _ => {},
        }
    }

    fn menu_choice(&mut self) -> (action: Action)
        requires
            old(self).wf(),
        ensures
            final(self).wf(),
            menu_choice(*old(self), *final(self), action),
    {
        if !self.app.installed {
            match self.app.state.selected {
                Some(0) => {
                    self.pending = Pending::InstallSources;
                    Action::ReadInstallSources
                },
                Some(1) => {
                    self.pending = Pending::Nothing;
                    self.app.input_mode = InputMode::Editing;
                    Action::Continue
                },
                Some(2) => {
                    self.pending = Pending::Nothing;
                    Action::OpenBrowser(REPOSITORY_PAGE)
                },
                _ => {
                    self.pending = Pending::Nothing;
                    Action::Continue
                },
            }
        } else {
            self.pending = Pending::Nothing;
            Action::Continue
        }
    }

    fn sources_read(&mut self, bundled: Result<Vec<u8>, ErrorKind>, backup: Result<Vec<u8>, ErrorKind>)
        requires
            old(self).wf(),
            old(self).pending == Pending::InstallSources,
        ensures
            final(self).wf(),
            sources_read(*old(self), bundled, backup, *final(self)),
    {
        self.pending = Pending::Nothing;
        match bundled {
            Err(e) => {
                self.app.status = Some(Status::Error(e));
            },
            Ok(bundled_text) => {
                match backup {
                    Err(e) => {
                        self.app.status = Some(Status::Error(e));
                    },
                    Ok(backup_text) => {
                        let mut hosts = parse(bundled_text.as_slice());
                        let backed_up = parse(backup_text.as_slice());
                        hosts.append(backed_up);
                        self.app.status = Some(Status::InstallSuccess(INSTALL_QUESTION.to_owned()));
                        self.hosts_data.hosts_path = Some(self.hosts_path.clone());
                        self.hosts_data.hosts_bebasin = Some(hosts);
                        self.hosts_data.hosts_header = Some(self.hosts_header.clone());
                    },
                }
            },
        }
    }

    fn hosts_written(&mut self, written: bool)
        requires
            old(self).wf(),
        ensures
            final(self).wf(),
            hosts_written(*old(self), written, *final(self)),
    {
        if written {
            self.app.installed = true;
        }
        self.app.status = None;
        self.app.items = menu(true);
        self.pending = Pending::Nothing;
    }
}

/// The word shown in the status box.
pub fn status_label(installed: bool) -> (label: &'static str)
    ensures
        label@ == (if installed { "Installed"@ } else { "Not Installed"@ }),
{
    if installed {
        "Installed"
    } else {
        "Not Installed"
    }
}

/// The number of line feeds in a text.
pub open spec fn line_breaks(text: Seq<char>) -> nat
    decreases text.len(),
{
    if text.len() == 0 {
        0
    } else {
        line_breaks(text.drop_last()) + if text.last() == '\n' { 1nat } else { 0nat }
    }
}

/// The most line feeds in any cell of a row.
pub open spec fn most_line_breaks(cells: Seq<Seq<char>>) -> nat
    decreases cells.len(),
{
    if cells.len() == 0 {
        0
    } else {
        let rest = most_line_breaks(cells.drop_last());
        let last = line_breaks(cells.last());
        if rest >= last {
            rest
        } else {
            last
        }
    }
}

/// The most line feeds in a row are at least those of every cell, and exactly
/// those of some cell (none for a row without cells).
pub proof fn lemma_most_line_breaks(cells: Seq<Seq<char>>)
    ensures
        forall|i: int| 0 <= i < cells.len() ==> line_breaks(#[trigger] cells[i]) <= most_line_breaks(cells),
        cells.len() == 0 ==> most_line_breaks(cells) == 0,
        cells.len() > 0 ==> exists|i: int|
            0 <= i < cells.len() && line_breaks(#[trigger] cells[i]) == most_line_breaks(cells),
    decreases cells.len(),
{
    if cells.len() > 0 {
        let rest = cells.drop_last();
        lemma_most_line_breaks(rest);
        assert forall|i: int| 0 <= i < cells.len() implies line_breaks(#[trigger] cells[i])
            <= most_line_breaks(cells) by {
            if i < cells.len() - 1 {
                assert(cells[i] == rest[i]);
            }
        }
        if most_line_breaks(cells) == line_breaks(cells.last()) {
            assert(line_breaks(cells[cells.len() - 1]) == most_line_breaks(cells));
        } else {
            let i = choose|i: int| 0 <= i < rest.len() && line_breaks(#[trigger] rest[i]) == most_line_breaks(rest);
            assert(cells[i] == rest[i]);
        }
    }
}

/// The texts of the cells of a row.
pub open spec fn cell_texts<'a>(row: Seq<&'a str>) -> Seq<Seq<char>> {
    row.map_values(|cell: &'a str| cell@)
}

/// The number of line feeds in a text.
pub fn count_line_breaks(text: &str) -> (count: usize)
    ensures
        count == line_breaks(text@),
        count <= text@.len(),
{
    let n = text.unicode_len();
    let mut count: usize = 0;
    let mut i: usize = 0;
    while i < n
        invariant
            n == text@.len(),
            i <= n,
            count == line_breaks(text@.subrange(0, i as int)),
            count <= i,
        decreases n - i,
    {
        let c = text.get_char(i);
        assert(text@.subrange(0, i + 1).drop_last() =~= text@.subrange(0, i as int));
        if c == '\n' {
            count = count + 1;
        }
        i = i + 1;
    }
    assert(text@.subrange(0, i as int) =~= text@);
    count
}

/// The height of a menu row: one line more than the most line feeds in any of
/// its cells, cut to sixteen bits.
pub fn row_height(row: &Vec<&str>) -> (height: u16)
    requires
        forall|i: int| 0 <= i < row.len() ==> (#[trigger] row@[i])@.len() < usize::MAX,
    ensures
        height == (most_line_breaks(cell_texts(row@)) + 1) as u16,
        most_line_breaks(cell_texts(row@)) < u16::MAX ==> {
            &&& forall|i: int| 0 <= i < row.len() ==> line_breaks((#[trigger] row@[i])@) < height
            &&& row.len() == 0 ==> height == 1
            &&& row.len() > 0 ==> exists|i: int| 0 <= i < row.len() && line_breaks((#[trigger] row@[i])@) + 1 == height
        },
{
    proof {
        lemma_most_line_breaks(cell_texts(row@));
        assert forall|i: int| 0 <= i < row.len() implies cell_texts(row@)[i] == (#[trigger] row@[i])@ by {}
    }
    let mut most: usize = 0;
    let mut i: usize = 0;
    while i < row.len()
        invariant
            i <= row.len(),
            forall|k: int| 0 <= k < row.len() ==> (#[trigger] row@[k])@.len() < usize::MAX,
            most == most_line_breaks(cell_texts(row@.subrange(0, i as int))),
            most < usize::MAX,
        decreases row.len() - i,
    {
        let count = count_line_breaks(row[i]);
        assert(cell_texts(row@.subrange(0, i + 1)).drop_last() =~= cell_texts(row@.subrange(0, i as int)));
        if count > most {
            most = count;
        }
        i = i + 1;
    }
    assert(row@.subrange(0, i as int) =~= row@);
    (most + 1) as u16
}

/// The width of a text on the terminal, in cells.
pub uninterp spec fn display_width(text: Seq<char>) -> usize;

/// `unicode_width::UnicodeWidthStr::width`: the width of the text in
/// columns, computed from the Unicode width tables with rules that look at
/// neighbouring characters (joiners, variation selectors and the like). It
/// is a function of the text alone, named `display_width`.
#[verifier::external_body]
fn text_width(text: &str) -> (width: usize)
    ensures
        width == display_width(text@),
{
    unicode_width::UnicodeWidthStr::width(text)
}

/// The cursor fits on the terminal: it stands one cell right of the typed
/// text (its width cut to sixteen bits) and one row down, from the corner of
/// the area.
pub open spec fn cursor_fits(area: Rect, width: usize) -> bool {
    &&& area.x + (width as u16) + 1 <= u16::MAX
    &&& area.y + 1 <= u16::MAX
}

/// Where the cursor stands after typed text of the given width.
pub fn cursor_at(area: Rect, width: usize) -> (position: (u16, u16))
    requires
        cursor_fits(area, width),
    ensures
        position == ((area.x + (width as u16) + 1) as u16, (area.y + 1) as u16),
{
    (area.x + (width as u16) + 1, area.y + 1)
}

/// Where the cursor stands while the custom path is edited: after the typed
/// path, measured from the corner of the area. `None` where that position
/// does not fit in sixteen bits.
pub fn input_cursor(area: Rect, input: &String) -> (position: Option<(u16, u16)>)
    ensures
        position is Some <==> cursor_fits(area, display_width(input@)),
        position matches Some(p) ==> p == (
            (area.x + (display_width(input@) as u16) + 1) as u16,
            (area.y + 1) as u16,
        ),
{
    let width = text_width(input.as_str());
    let columns = width as u16;
    if area.x as u32 + columns as u32 + 1 > u16::MAX as u32 || area.y == u16::MAX {
        None
    } else {
        Some(cursor_at(area, width))
    }
}

} // verus!

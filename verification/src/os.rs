use vstd::prelude::*;

verus! {

/// The hosts file on Unix-like systems.
pub const UNIX_HOSTS_PATH: &'static str = "/etc/hosts";

/// The copy of the hosts file taken before the first install, on Unix-like systems.
pub const UNIX_HOSTS_BACKUP_PATH: &'static str = "/etc/hosts.bebasin-backup";

/// The hosts file on Windows.
pub const WINDOWS_HOSTS_PATH: &'static str = "C:\\Windows\\System32\\drivers\\etc\\hosts";

/// The copy of the hosts file taken before the first install, on Windows.
pub const WINDOWS_HOSTS_BACKUP_PATH: &'static str = "C:\\Windows\\System32\\drivers\\etc\\hosts.bebasin-backup";

/// `std::path::MAIN_SEPARATOR`: its documentation gives `'\\'` on Windows and
/// `'/'` elsewhere; the contract claims only that it is one of the two.
#[verifier::external_body]
fn main_separator() -> (sep: char)
    ensures
        sep == '/' || sep == '\\',
{
    std::path::MAIN_SEPARATOR
}

/// Whether paths on this platform are Windows paths.
pub fn is_windows() -> (windows: bool) {
    main_separator() == '\\'
}

/// The path of the system's hosts file on Windows or elsewhere.
pub fn hosts_path_for(windows: bool) -> (path: &'static str)
    ensures
        path@ == (if windows { WINDOWS_HOSTS_PATH@ } else { UNIX_HOSTS_PATH@ }),
{
    if windows {
        WINDOWS_HOSTS_PATH
    } else {
        UNIX_HOSTS_PATH
    }
}

/// The path of the backup of the hosts file on Windows or elsewhere.
pub fn hosts_backup_path_for(windows: bool) -> (path: &'static str)
    ensures
        path@ == (if windows { WINDOWS_HOSTS_BACKUP_PATH@ } else { UNIX_HOSTS_BACKUP_PATH@ }),
{
    if windows {
        WINDOWS_HOSTS_BACKUP_PATH
    } else {
        UNIX_HOSTS_BACKUP_PATH
    }
}

/// The path of the system's hosts file on this platform.
pub fn hosts_path() -> (path: &'static str)
    ensures
        path@ == UNIX_HOSTS_PATH@ || path@ == WINDOWS_HOSTS_PATH@,
{
    hosts_path_for(is_windows())
}

/// The path of the backup of the hosts file on this platform.
pub fn hosts_backup_path() -> (path: &'static str)
    ensures
        path@ == UNIX_HOSTS_BACKUP_PATH@ || path@ == WINDOWS_HOSTS_BACKUP_PATH@,
{
    hosts_backup_path_for(is_windows())
}

} // verus!

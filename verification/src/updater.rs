use vstd::prelude::*;

use crate::hosts::{lemma_merge_with_empty, merge, parse, parse_hosts, render_file, NEWLINE};
use crate::os::{hosts_backup_path, hosts_path};

verus! {

/// `std::path::Path::exists` on the given path. What is on disk decides the
/// result, so nothing is stated of it.
#[verifier::external_body]
fn path_exists(path: &str) -> (exists: bool) {
    std::path::Path::new(path).exists()
}

/// Whether the installed hosts list is in place: that is judged by the
/// presence of the backup taken before installing.
pub fn is_installed() -> (installed: bool) {
    is_backed()
}

/// Whether the system's hosts file exists.
pub fn hosts_exists() -> (exists: bool) {
    path_exists(hosts_path())
}

/// Whether a backup of the hosts file exists.
pub fn is_backed() -> (backed: bool) {
    path_exists(hosts_backup_path())
}

/// The text of a fresh hosts file: the header, a line feed, then the default
/// entries.
pub fn default_hosts_text(header: &[u8], defaults: &[u8]) -> (text: Vec<u8>)
    ensures
        text@ == header@ + seq![NEWLINE] + defaults@,
{
    let mut text: Vec<u8> = Vec::new();
    let mut i: usize = 0;
    while i < header.len()
        invariant
            i <= header.len(),
            text@ == header@.subrange(0, i as int),
        decreases header.len() - i,
    {
        text.push(header[i]);
        i = i + 1;
        assert(text@ =~= header@.subrange(0, i as int));
    }
    assert(header@.subrange(0, i as int) =~= header@);
    text.push(NEWLINE);
    let ghost start = text@;
    let mut j: usize = 0;
    while j < defaults.len()
        invariant
            j <= defaults.len(),
            text@ == start + defaults@.subrange(0, j as int),
        decreases defaults.len() - j,
    {
        text.push(defaults[j]);
        j = j + 1;
        assert(text@ =~= start + defaults@.subrange(0, j as int));
    }
    assert(defaults@.subrange(0, j as int) =~= defaults@);
    text
}

/// The text of the backup of a hosts file: the backup header, a line feed,
/// then the entries read from the hosts file. Read back, it holds the entries
/// of the header together with those of the hosts file, and so exactly the
/// entries of the hosts file when the header holds none (a header of comments).
pub fn backup_text(hosts_text: &[u8], header: &[u8]) -> (text: Vec<u8>)
    ensures
        parse_hosts(text@) == merge(parse_hosts(header@), parse_hosts(hosts_text@)),
        parse_hosts(header@) == Map::<Seq<u8>, Set<Seq<u8>>>::empty() ==> parse_hosts(text@)
            == parse_hosts(hosts_text@),
        exists|lines: Seq<(Seq<u8>, Seq<Seq<u8>>)>| #[trigger] render_file(header@, lines) == text@,
{
    let hosts = parse(hosts_text);
    let text = hosts.render_file(header);
    assert(render_file(header@, hosts.lines()) == text@);
    proof {
        lemma_merge_with_empty(parse_hosts(hosts_text@));
    }
    text
}

} // verus!

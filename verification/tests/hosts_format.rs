use bebasin::hosts::{parse, Hosts};
use bebasin::updater::{backup_text, default_hosts_text};

fn b(s: &str) -> Vec<u8> {
    s.as_bytes().to_vec()
}

#[test]
fn parses_addresses_and_names() {
    let hosts = parse(b"127.0.0.1 localhost\n0.0.0.0 ads.example tracker.example\n");
    assert_eq!(hosts.len(), 2);
    assert!(hosts.contains(&b("127.0.0.1"), &b("localhost")));
    assert!(hosts.contains(&b("0.0.0.0"), &b("ads.example")));
    assert!(hosts.contains(&b("0.0.0.0"), &b("tracker.example")));
    assert!(!hosts.contains(&b("127.0.0.1"), &b("ads.example")));
    assert!(!hosts.contains(&b("10.0.0.1"), &b("localhost")));
}

#[test]
fn comments_blank_lines_and_tabs() {
    let hosts = parse(b"# a header\n\n  0.0.0.0\tads.example # blocked\r\n#0.0.0.0 hidden.example\n");
    assert_eq!(hosts.len(), 1);
    assert!(hosts.contains(&b("0.0.0.0"), &b("ads.example")));
    assert!(!hosts.contains(&b("0.0.0.0"), &b("blocked")));
    assert!(!hosts.contains(&b("0.0.0.0"), &b("hidden.example")));
}

#[test]
fn last_line_needs_no_line_feed() {
    let hosts = parse(b"0.0.0.0 a.example");
    assert!(hosts.contains(&b("0.0.0.0"), &b("a.example")));
}

#[test]
fn repeated_address_lines_are_joined() {
    let hosts = parse(b"0.0.0.0 a.example\n0.0.0.0 b.example a.example\n");
    assert_eq!(hosts.len(), 1);
    assert_eq!(hosts.render(), b("0.0.0.0 a.example b.example\n"));
}

#[test]
fn empty_text_has_no_entries() {
    assert_eq!(parse(b"").len(), 0);
    assert_eq!(parse(b"# only a comment").len(), 0);
    assert_eq!(Hosts::new().len(), 0);
    assert_eq!(Hosts::new().render(), Vec::<u8>::new());
}

#[test]
fn address_alone_is_kept() {
    let hosts = parse(b"10.1.1.1\n");
    assert_eq!(hosts.len(), 1);
    assert_eq!(hosts.render(), b("10.1.1.1\n"));
}

#[test]
fn render_reads_back() {
    let hosts = parse(b"127.0.0.1 localhost\n0.0.0.0 x.example y.example\n::1 ip6-localhost\n");
    let again = parse(&hosts.render());
    assert_eq!(again.len(), 3);
    assert!(again.contains(&b("::1"), &b("ip6-localhost")));
    assert!(again.contains(&b("0.0.0.0"), &b("y.example")));
    assert_eq!(again.render(), hosts.render());
}

#[test]
fn render_file_puts_header_first() {
    let hosts = parse(b"0.0.0.0 a.example\n");
    let text = hosts.render_file(b"# header");
    assert_eq!(text, b("# header\n0.0.0.0 a.example\n"));
}

#[test]
fn append_merges_names() {
    let mut bundled = parse(b"0.0.0.0 ads.example\n");
    let local = parse(b"127.0.0.1 localhost\n0.0.0.0 own.example ads.example\n");
    bundled.append(local);
    assert_eq!(bundled.len(), 2);
    assert!(bundled.contains(&b("0.0.0.0"), &b("ads.example")));
    assert!(bundled.contains(&b("0.0.0.0"), &b("own.example")));
    assert!(bundled.contains(&b("127.0.0.1"), &b("localhost")));
    assert_eq!(bundled.render(), b("0.0.0.0 ads.example own.example\n127.0.0.1 localhost\n"));
}

#[test]
fn backup_keeps_entries_under_header() {
    let text = backup_text(b"127.0.0.1   localhost # me\n", b"# backup");
    assert_eq!(text, b("# backup\n127.0.0.1 localhost\n"));
}

#[test]
fn default_hosts_is_header_then_defaults() {
    assert_eq!(default_hosts_text(b"# h", b"127.0.0.1 localhost"), b("# h\n127.0.0.1 localhost"));
}

#[test]
fn header_entries_join_the_table() {
    let hosts = parse(b"0.0.0.0 a.example\n");
    let text = hosts.render_file(b"0.0.0.0 b.example # kept");
    let again = parse(&text);
    assert_eq!(again.len(), 1);
    assert!(again.contains(&b("0.0.0.0"), &b("a.example")));
    assert!(again.contains(&b("0.0.0.0"), &b("b.example")));
}

#[test]
fn backup_under_comment_header_holds_the_hosts_file() {
    let local = b"127.0.0.1 localhost\n0.0.0.0 a.example b.example\n";
    let again = parse(&backup_text(local, b"# backup of the hosts file"));
    assert_eq!(again.render(), parse(local).render());
}

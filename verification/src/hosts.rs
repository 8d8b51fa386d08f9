//! The hosts file format.
//!
//! A hosts file is read line by line. A `#` starts a comment that runs to the
//! end of the line; spaces, tabs and carriage returns separate the words of a
//! line. The first word of a line is an address, the words after it are the
//! host names that resolve to it. The file stands for a map from each address
//! to the set of names given for it on any of its lines.
use vstd::prelude::*;

verus! {

/// Line feed: ends a line.
pub const NEWLINE: u8 = 10u8;

/// `#`: starts a comment.
pub const COMMENT: u8 = 35u8;

/// Space: what the file writer puts between the words of a line.
pub const SPACE: u8 = 32u8;

/// Tab.
pub const TAB: u8 = 9u8;

/// Carriage return.
pub const RETURN: u8 = 13u8;

/// A byte that separates words within a line.
pub open spec fn is_blank(b: u8) -> bool {
    b == SPACE || b == TAB || b == RETURN
}

/// A byte that can stand in a word.
pub open spec fn is_word_byte(b: u8) -> bool {
    !is_blank(b) && b != NEWLINE && b != COMMENT
}

/// A non-empty run of word bytes.
pub open spec fn is_word(w: Seq<u8>) -> bool {
    w.len() > 0 && forall|i: int| 0 <= i < w.len() ==> is_word_byte(#[trigger] w[i])
}

/// Every element is a word.
pub open spec fn all_words(ws: Seq<Seq<u8>>) -> bool {
    forall|i: int| 0 <= i < ws.len() ==> is_word(#[trigger] ws[i])
}

/// No element occurs twice.
pub open spec fn no_duplicates<A>(s: Seq<A>) -> bool {
    forall|i: int, j: int| 0 <= i < j < s.len() ==> s[i] != s[j]
}

/// Adds names to an address.
pub open spec fn add_names(
    m: Map<Seq<u8>, Set<Seq<u8>>>,
    address: Seq<u8>,
    names: Set<Seq<u8>>,
) -> Map<Seq<u8>, Set<Seq<u8>>> {
    m.insert(address, if m.contains_key(address) { m[address].union(names) } else { names })
}

/// Adds the words of one line: the first is the address, the rest its names.
/// A line without words adds nothing.
pub open spec fn add_line(m: Map<Seq<u8>, Set<Seq<u8>>>, words: Seq<Seq<u8>>) -> Map<
    Seq<u8>,
    Set<Seq<u8>>,
> {
    if words.len() == 0 {
        m
    } else {
        add_names(m, words[0], words.drop_first().to_set())
    }
}

/// Adds lines, each an address and its names, in order.
pub open spec fn add_lines(
    m: Map<Seq<u8>, Set<Seq<u8>>>,
    lines: Seq<(Seq<u8>, Seq<Seq<u8>>)>,
) -> Map<Seq<u8>, Set<Seq<u8>>>
    decreases lines.len(),
{
    if lines.len() == 0 {
        m
    } else {
        add_names(add_lines(m, lines.drop_last()), lines.last().0, lines.last().1.to_set())
    }
}

/// The map that lines stand for.
pub open spec fn map_of(lines: Seq<(Seq<u8>, Seq<Seq<u8>>)>) -> Map<Seq<u8>, Set<Seq<u8>>> {
    add_lines(Map::empty(), lines)
}

/// Both maps together: each address has the names that either map gives it.
pub open spec fn merge(a: Map<Seq<u8>, Set<Seq<u8>>>, b: Map<Seq<u8>, Set<Seq<u8>>>) -> Map<
    Seq<u8>,
    Set<Seq<u8>>,
> {
    Map::new(
        |k: Seq<u8>| a.contains_key(k) || b.contains_key(k),
        |k: Seq<u8>|
            if a.contains_key(k) && b.contains_key(k) {
                a[k].union(b[k])
            } else if a.contains_key(k) {
                a[k]
            } else {
                b[k]
            },
    )
}

/// Lines fit for a hosts table: every word is a word, no address has two
/// lines, and no line names a host twice.
pub open spec fn lines_well_formed(lines: Seq<(Seq<u8>, Seq<Seq<u8>>)>) -> bool {
    &&& forall|i: int, j: int| 0 <= i < j < lines.len() ==> lines[i].0 != lines[j].0
    &&& forall|i: int|
        0 <= i < lines.len() ==> {
            &&& is_word(#[trigger] lines[i].0)
            &&& all_words(lines[i].1)
            &&& no_duplicates(lines[i].1)
        }
}

/// Adding lines onto a map is merging the map of the lines into it.
pub proof fn lemma_add_lines_is_merge(
    m: Map<Seq<u8>, Set<Seq<u8>>>,
    lines: Seq<(Seq<u8>, Seq<Seq<u8>>)>,
)
    ensures
        add_lines(m, lines) == merge(m, map_of(lines)),
    decreases lines.len(),
{
    if lines.len() == 0 {
        assert(add_lines(m, lines) =~~= merge(m, map_of(lines)));
    } else {
        lemma_add_lines_is_merge(m, lines.drop_last());
        assert(add_lines(m, lines) =~~= merge(m, map_of(lines)));
    }
}

/// Merging with a table without entries changes nothing.
pub proof fn lemma_merge_with_empty(m: Map<Seq<u8>, Set<Seq<u8>>>)
    ensures
        merge(Map::empty(), m) == m,
{
    assert(merge(Map::empty(), m) =~~= m);
}

/// Adding names to an address of lines equals giving that line's address
/// those names as well.
proof fn lemma_add_to_line(
    lines: Seq<(Seq<u8>, Seq<Seq<u8>>)>,
    i: int,
    names: Seq<Seq<u8>>,
    extra: Set<Seq<u8>>,
)
    requires
        0 <= i < lines.len(),
        names.to_set() == lines[i].1.to_set().union(extra),
    ensures
        map_of(lines.update(i, (lines[i].0, names))) == add_names(map_of(lines), lines[i].0, extra),
    decreases lines.len(),
{
    let updated = lines.update(i, (lines[i].0, names));
    if i == lines.len() - 1 {
        assert(updated.drop_last() =~= lines.drop_last());
        assert(map_of(updated) =~~= add_names(map_of(lines), lines[i].0, extra));
    } else {
        lemma_add_to_line(lines.drop_last(), i, names, extra);
        assert(updated.drop_last() =~= lines.drop_last().update(i, (lines[i].0, names)));
        assert(map_of(updated) =~~= add_names(map_of(lines), lines[i].0, extra));
    }
}

/// Where a reader of a hosts file stands after some bytes: the table read so
/// far, the finished words of the current line, the word being read, and
/// whether the rest of the line is a comment.
pub struct Scan {
    pub hosts: Map<Seq<u8>, Set<Seq<u8>>>,
    pub line: Seq<Seq<u8>>,
    pub word: Seq<u8>,
    pub comment: bool,
}

/// The reader at the start of a line, with a table read so far.
pub open spec fn line_start(hosts: Map<Seq<u8>, Set<Seq<u8>>>) -> Scan {
    Scan { hosts, line: Seq::empty(), word: Seq::empty(), comment: false }
}

/// Ends the word being read, if there is one.
pub open spec fn end_word(s: Scan) -> Scan {
    if s.word.len() > 0 {
        Scan { line: s.line.push(s.word), word: Seq::empty(), ..s }
    } else {
        s
    }
}

/// The reader after one more byte.
pub open spec fn scan_byte(s: Scan, b: u8) -> Scan {
    if b == NEWLINE {
        let e = end_word(s);
        line_start(add_line(e.hosts, e.line))
    } else if s.comment {
        s
    } else if b == COMMENT {
        Scan { comment: true, ..end_word(s) }
    } else if is_blank(b) {
        end_word(s)
    } else {
        Scan { word: s.word.push(b), ..s }
    }
}

/// The reader after some bytes.
pub open spec fn scan(s: Scan, text: Seq<u8>) -> Scan
    decreases text.len(),
{
    if text.len() == 0 {
        s
    } else {
        scan_byte(scan(s, text.drop_last()), text.last())
    }
}


/// The lines of a text: the pieces between line feeds. The piece after the
/// last line feed counts as a line too (it may be empty).
pub open spec fn text_lines(text: Seq<u8>) -> Seq<Seq<u8>>
    decreases text.len(),
{
    if text.len() == 0 {
        seq![Seq::empty()]
    } else {
        let before = text_lines(text.drop_last());
        if text.last() == NEWLINE {
            before.push(Seq::empty())
        } else {
            before.update(before.len() - 1, before.last().push(text.last()))
        }
    }
}

/// A line without its comment: what stands before its first `#`.
pub open spec fn uncommented(line: Seq<u8>) -> Seq<u8>
    decreases line.len(),
{
    if line.len() == 0 || line[0] == COMMENT {
        Seq::empty()
    } else {
        seq![line[0]] + uncommented(line.drop_first())
    }
}

/// The words of a text: its longest runs of bytes that are not blanks.
pub open spec fn words(text: Seq<u8>) -> Seq<Seq<u8>>
    decreases text.len(),
{
    if text.len() == 0 {
        Seq::empty()
    } else {
        let before = words(text.drop_last());
        let b = text.last();
        if is_blank(b) {
            before
        } else if text.len() > 1 && !is_blank(text[text.len() - 2]) {
            before.update(before.len() - 1, before.last().push(b))
        } else {
            before.push(seq![b])
        }
    }
}

/// Adds the words of each line, outside comments, in order.
pub open spec fn add_text_lines(m: Map<Seq<u8>, Set<Seq<u8>>>, lines: Seq<Seq<u8>>) -> Map<
    Seq<u8>,
    Set<Seq<u8>>,
>
    decreases lines.len(),
{
    if lines.len() == 0 {
        m
    } else {
        add_line(add_text_lines(m, lines.drop_last()), words(uncommented(lines.last())))
    }
}

/// The table that a hosts file holds: line by line, the words before any `#`,
/// the first of them an address and the rest its names.
pub open spec fn parse_hosts(text: Seq<u8>) -> Map<Seq<u8>, Set<Seq<u8>>> {
    add_text_lines(Map::empty(), text_lines(text))
}

/// The table that the byte-by-byte reader finds in a text.
pub open spec fn scanned_hosts(text: Seq<u8>) -> Map<Seq<u8>, Set<Seq<u8>>> {
    scan_byte(scan(line_start(Map::empty()), text), NEWLINE).hosts
}

proof fn lemma_uncommented_push(line: Seq<u8>, b: u8)
    ensures
        !line.contains(COMMENT) ==> uncommented(line) == line,
        uncommented(line.push(b)) == (if line.contains(COMMENT) {
            uncommented(line)
        } else if b == COMMENT {
            line
        } else {
            line.push(b)
        }),
    decreases line.len(),
{
    if line.len() == 0 {
        assert(line.push(b).drop_first() =~= Seq::<u8>::empty());
        assert(seq![b] + Seq::<u8>::empty() =~= seq![b]);
        assert(line.push(b) =~= seq![b]);
    } else {
        let rest = line.drop_first();
        lemma_uncommented_push(rest, b);
        assert(line.push(b).drop_first() =~= rest.push(b));
        assert(line.push(b)[0] == line[0]);
        if line[0] == COMMENT {
            assert(line.contains(COMMENT)) by {
                assert(line[0] == COMMENT);
            }
        } else {
            assert(line.contains(COMMENT) == rest.contains(COMMENT)) by {
                if line.contains(COMMENT) {
                    let i = choose|i: int| 0 <= i < line.len() && line[i] == COMMENT;
                    assert(rest[i - 1] == COMMENT);
                }
                if rest.contains(COMMENT) {
                    let i = choose|i: int| 0 <= i < rest.len() && rest[i] == COMMENT;
                    assert(line[i + 1] == COMMENT);
                }
            }
            assert(seq![line[0]] + rest =~= line);
            assert(seq![line[0]] + rest.push(b) =~= line.push(b));
        }
    }
}

/// How the reader stands after a text, in terms of its lines: the finished
/// lines are in the table; a `#` in the current line makes the rest of it a
/// comment; the words found so far are those of the current line outside its
/// comment; and a word is being read exactly when that line ends in a word
/// byte.
proof fn lemma_scan_reads_lines(text: Seq<u8>)
    ensures
        ({
            let s = scan(line_start(Map::empty()), text);
            let lines = text_lines(text);
            let current = lines.last();
            let open = uncommented(current);
            &&& lines.len() >= 1
            &&& s.hosts == add_text_lines(Map::empty(), lines.drop_last())
            &&& s.comment == current.contains(COMMENT)
            &&& end_word(s).line == words(open)
            &&& (s.word.len() > 0 <==> (!s.comment && open.len() > 0 && !is_blank(open.last())))
        }),
    decreases text.len(),
{
    if text.len() == 0 {
        assert(text_lines(text).last() =~= Seq::<u8>::empty());
        assert(uncommented(Seq::<u8>::empty()) =~= Seq::<u8>::empty());
        assert(end_word(line_start(Map::empty())).line =~= words(Seq::<u8>::empty()));
    } else {
        let t = text.drop_last();
        let b = text.last();
        lemma_scan_reads_lines(t);
        let s = scan(line_start(Map::empty()), t);
        let lines = text_lines(t);
        let current = lines.last();
        lemma_uncommented_push(current, b);
        let next = text_lines(text);
        if b == NEWLINE {
            assert(next.drop_last() =~= lines);
            assert(next.last() =~= Seq::<u8>::empty());
            assert(!Seq::<u8>::empty().contains(COMMENT));
            assert(uncommented(Seq::<u8>::empty()) =~= Seq::<u8>::empty());
        } else {
            assert(next.drop_last() =~= lines.drop_last());
            assert(next.last() == current.push(b));
            assert(current.push(b).contains(COMMENT) == (current.contains(COMMENT) || b == COMMENT)) by {
                if current.push(b).contains(COMMENT) {
                    let i = choose|i: int| 0 <= i < current.push(b).len() && current.push(b)[i] == COMMENT;
                    if i < current.len() {
                        assert(current[i] == COMMENT);
                    }
                }
                if current.contains(COMMENT) {
                    let i = choose|i: int| 0 <= i < current.len() && current[i] == COMMENT;
                    assert(current.push(b)[i] == COMMENT);
                }
                if b == COMMENT {
                    assert(current.push(b)[current.len() as int] == COMMENT);
                }
            }
            let open = uncommented(current);
            assert(scan(line_start(Map::empty()), text) == scan_byte(s, b));
            if !s.comment && b != COMMENT && !is_blank(b) {
                assert(open == current);
                assert(uncommented(next.last()) == open.push(b));
                assert(open.push(b).drop_last() =~= open);
                assert(open.push(b).last() == b);
                if s.word.len() > 0 {
                    assert(open.push(b)[open.push(b).len() - 2] == open.last());
                    assert(end_word(s).line =~= s.line.push(s.word));
                    assert(s.line.push(s.word.push(b)) =~= words(open).update(
                        words(open).len() - 1,
                        words(open).last().push(b),
                    ));
                    assert(words(open.push(b)) == words(open).update(
                        words(open).len() - 1,
                        words(open).last().push(b),
                    ));
                    assert(scan_byte(s, b).word == s.word.push(b));
                    assert(end_word(scan_byte(s, b)).line == s.line.push(s.word.push(b)));
                } else {
                    assert(end_word(s).line == s.line);
                    assert(s.word.push(b) =~= seq![b]);
                    assert(words(open.push(b)) == words(open).push(seq![b]));
                    assert(end_word(scan_byte(s, b)).line == s.line.push(seq![b]));
                }
            } else if !s.comment && b != COMMENT {
                assert(open.push(b).drop_last() =~= open);
            }
        }
    }
}

/// The byte-by-byte reader finds the table that the lines of the text hold.
pub proof fn lemma_scanned_hosts(text: Seq<u8>)
    ensures
        scanned_hosts(text) == parse_hosts(text),
{
    lemma_scan_reads_lines(text);
    let lines = text_lines(text);
    assert(lines.drop_last().push(lines.last()) =~= lines);
}

/// The names of a line, each after a space.
pub open spec fn render_names(names: Seq<Seq<u8>>) -> Seq<u8>
    decreases names.len(),
{
    if names.len() == 0 {
        Seq::empty()
    } else {
        render_names(names.drop_last()) + seq![SPACE] + names.last()
    }
}

/// One line of a hosts file: the address, its names, and a line feed.
pub open spec fn render_line(line: (Seq<u8>, Seq<Seq<u8>>)) -> Seq<u8> {
    line.0 + render_names(line.1) + seq![NEWLINE]
}

/// The lines of a hosts file, one after another.
pub open spec fn render_lines(lines: Seq<(Seq<u8>, Seq<Seq<u8>>)>) -> Seq<u8>
    decreases lines.len(),
{
    if lines.len() == 0 {
        Seq::empty()
    } else {
        render_lines(lines.drop_last()) + render_line(lines.last())
    }
}

/// A whole hosts file: a header, a line feed, then the lines.
pub open spec fn render_file(header: Seq<u8>, lines: Seq<(Seq<u8>, Seq<Seq<u8>>)>) -> Seq<u8> {
    header + seq![NEWLINE] + render_lines(lines)
}

/// Reading two texts one after the other is reading their concatenation.
pub proof fn lemma_scan_concat(s: Scan, a: Seq<u8>, b: Seq<u8>)
    ensures
        scan(s, a + b) == scan(scan(s, a), b),
    decreases b.len(),
{
    if b.len() == 0 {
        assert(a + b =~= a);
    } else {
        lemma_scan_concat(s, a, b.drop_last());
        assert((a + b).drop_last() =~= a + b.drop_last());
    }
}

proof fn lemma_scan_one(s: Scan, b: u8)
    ensures
        scan(s, seq![b]) == scan_byte(s, b),
{
    assert(seq![b].drop_last() =~= Seq::<u8>::empty());
    assert(scan(s, seq![b].drop_last()) == s);
}

proof fn lemma_scan_word(s: Scan, w: Seq<u8>)
    requires
        !s.comment,
        forall|i: int| 0 <= i < w.len() ==> is_word_byte(#[trigger] w[i]),
    ensures
        scan(s, w) == (Scan { word: s.word + w, ..s }),
    decreases w.len(),
{
    if w.len() == 0 {
        assert(s.word + w =~= s.word);
    } else {
        lemma_scan_word(s, w.drop_last());
        assert(is_word_byte(w[w.len() - 1]));
        assert(s.word + w =~= (s.word + w.drop_last()).push(w.last()));
    }
}

proof fn lemma_scan_words(m: Map<Seq<u8>, Set<Seq<u8>>>, address: Seq<u8>, names: Seq<Seq<u8>>)
    requires
        is_word(address),
        all_words(names),
    ensures
        scan(line_start(m), address + render_names(names)) == (Scan {
            hosts: m,
            line: (seq![address] + names).drop_last(),
            word: (seq![address] + names).last(),
            comment: false,
        }),
    decreases names.len(),
{
    let words = seq![address] + names;
    if names.len() == 0 {
        assert(address + render_names(names) =~= address);
        lemma_scan_word(line_start(m), address);
        assert(Seq::<u8>::empty() + address =~= address);
        assert(words.drop_last() =~= Seq::empty());
    } else {
        let rest = names.drop_last();
        let last = names.last();
        lemma_scan_words(m, address, rest);
        let before = address + render_names(rest);
        assert(address + render_names(names) =~= before + seq![SPACE] + last);
        lemma_scan_concat(line_start(m), before + seq![SPACE], last);
        lemma_scan_concat(line_start(m), before, seq![SPACE]);
        assert(seq![SPACE].drop_last() =~= Seq::<u8>::empty());
        let rest_words = seq![address] + rest;
        assert(rest_words.last().len() > 0) by {
            if rest.len() > 0 {
                assert(is_word(rest[rest.len() - 1]));
            }
        }
        let s1 = scan(line_start(m), before);
        lemma_scan_one(s1, SPACE);
        assert(end_word(s1).line =~= rest_words);
        let after_space = scan(line_start(m), before + seq![SPACE]);
        assert(after_space == (Scan { hosts: m, line: rest_words, word: Seq::empty(), comment: false }));
        assert(is_word(names[names.len() - 1]));
        lemma_scan_word(after_space, last);
        assert(Seq::<u8>::empty() + last =~= last);
        assert(words.drop_last() =~= rest_words);
    }
}

proof fn lemma_scan_line(m: Map<Seq<u8>, Set<Seq<u8>>>, line: (Seq<u8>, Seq<Seq<u8>>))
    requires
        is_word(line.0),
        all_words(line.1),
    ensures
        scan(line_start(m), render_line(line)) == line_start(add_names(m, line.0, line.1.to_set())),
{
    let words = seq![line.0] + line.1;
    lemma_scan_words(m, line.0, line.1);
    let s1 = scan(line_start(m), line.0 + render_names(line.1));
    lemma_scan_concat(line_start(m), line.0 + render_names(line.1), seq![NEWLINE]);
    lemma_scan_one(s1, NEWLINE);
    assert(words.last().len() > 0) by {
        if line.1.len() > 0 {
            assert(is_word(line.1[line.1.len() - 1]));
        }
    }
    assert(end_word(s1).line =~= words);
    assert(words.drop_first() =~= line.1);
    assert(render_line(line) == line.0 + render_names(line.1) + seq![NEWLINE]);
}

proof fn lemma_scan_lines(m: Map<Seq<u8>, Set<Seq<u8>>>, lines: Seq<(Seq<u8>, Seq<Seq<u8>>)>)
    requires
        lines_well_formed(lines),
    ensures
        scan(line_start(m), render_lines(lines)) == line_start(add_lines(m, lines)),
    decreases lines.len(),
{
    if lines.len() == 0 {
    } else {
        let rest = lines.drop_last();
        assert(lines_well_formed(rest)) by {
            assert forall|i: int| 0 <= i < rest.len() implies is_word(#[trigger] rest[i].0) && all_words(
                rest[i].1,
            ) && no_duplicates(rest[i].1) by {
                assert(rest[i] == lines[i]);
            }
        }
        lemma_scan_lines(m, rest);
        lemma_scan_concat(line_start(m), render_lines(rest), render_line(lines.last()));
        assert(is_word(lines[lines.len() - 1].0));
        lemma_scan_line(add_lines(m, rest), lines.last());
    }
}

/// Reading back what was written: the file text of well-formed lines holds
/// exactly the table of those lines.
pub proof fn lemma_parse_render(lines: Seq<(Seq<u8>, Seq<Seq<u8>>)>)
    requires
        lines_well_formed(lines),
    ensures
        parse_hosts(render_lines(lines)) == map_of(lines),
{
    lemma_scan_lines(Map::empty(), lines);
    assert(end_word(line_start(map_of(lines))).line =~= Seq::<Seq<u8>>::empty());
    assert(scanned_hosts(render_lines(lines)) == map_of(lines));
    lemma_scanned_hosts(render_lines(lines));
}

/// A file written with a header holds the entries of the header together with
/// the table that was written after it.
pub proof fn lemma_parse_render_file(header: Seq<u8>, lines: Seq<(Seq<u8>, Seq<Seq<u8>>)>)
    requires
        lines_well_formed(lines),
    ensures
        parse_hosts(render_file(header, lines)) == merge(parse_hosts(header), map_of(lines)),
{
    let start = line_start(Map::empty());
    lemma_scan_concat(start, header + seq![NEWLINE], render_lines(lines));
    lemma_scan_concat(start, header, seq![NEWLINE]);
    lemma_scan_one(scan(start, header), NEWLINE);
    assert(scan(start, header + seq![NEWLINE]) == line_start(scanned_hosts(header)));
    lemma_scan_lines(scanned_hosts(header), lines);
    lemma_add_lines_is_merge(scanned_hosts(header), lines);
    assert(end_word(line_start(add_lines(scanned_hosts(header), lines))).line =~= Seq::<Seq<u8>>::empty());
    assert(scanned_hosts(render_file(header, lines)) == merge(scanned_hosts(header), map_of(lines)));
    lemma_scanned_hosts(header);
    lemma_scanned_hosts(render_file(header, lines));
}

/// One address of a hosts table and the names that resolve to it.
#[derive(Debug)]
pub struct HostEntry {
    address: Vec<u8>,
    names: Vec<Vec<u8>>,
}

/// The bytes of each element.
pub open spec fn words_of(ws: Seq<Vec<u8>>) -> Seq<Seq<u8>> {
    ws.map_values(|w: Vec<u8>| w@)
}

impl HostEntry {
    /// The address and the names of this entry.
    pub closed spec fn line(self) -> (Seq<u8>, Seq<Seq<u8>>) {
        (self.address@, words_of(self.names@))
    }
}

/// A hosts table: each address once, with the names that resolve to it.
#[derive(Debug)]
pub struct Hosts {
    entries: Vec<HostEntry>,
}

/// The lines that entries stand for.
pub open spec fn lines_of(entries: Seq<HostEntry>) -> Seq<(Seq<u8>, Seq<Seq<u8>>)> {
    entries.map_values(|e: HostEntry| e.line())
}

/// A copy of a byte string.
fn copy_bytes(src: &Vec<u8>) -> (copy: Vec<u8>)
    ensures
        copy@ == src@,
{
    let mut copy: Vec<u8> = Vec::new();
    let mut i: usize = 0;
    while i < src.len()
        invariant
            i <= src.len(),
            copy@ == src@.subrange(0, i as int),
        decreases src.len() - i,
    {
        copy.push(src[i]);
        i = i + 1;
        assert(copy@ =~= src@.subrange(0, i as int));
    }
    assert(src@.subrange(0, i as int) =~= src@);
    copy
}

/// Whether two byte strings are equal.
fn same_bytes(a: &Vec<u8>, b: &Vec<u8>) -> (same: bool)
    ensures
        same == (a@ == b@),
{
    if a.len() != b.len() {
        return false;
    }
    let mut i: usize = 0;
    while i < a.len()
        invariant
            i <= a.len() == b.len(),
            a@.subrange(0, i as int) == b@.subrange(0, i as int),
        decreases a.len() - i,
    {
        if a[i] != b[i] {
            return false;
        }
        i = i + 1;
        assert(a@.subrange(0, i as int) =~= a@.subrange(0, i - 1).push(a@[i - 1]));
        assert(b@.subrange(0, i as int) =~= b@.subrange(0, i - 1).push(b@[i - 1]));
    }
    assert(a@ =~= a@.subrange(0, i as int));
    assert(b@ =~= b@.subrange(0, i as int));
    true
}

/// Whether a list of words holds a word.
fn holds_word(words: &Vec<Vec<u8>>, word: &Vec<u8>) -> (found: bool)
    ensures
        found == words_of(words@).contains(word@),
{
    let mut i: usize = 0;
    while i < words.len()
        invariant
            i <= words.len(),
            forall|j: int| 0 <= j < i ==> words@[j]@ != word@,
        decreases words.len() - i,
    {
        if same_bytes(&words[i], word) {
            assert(words_of(words@)[i as int] == word@);
            return true;
        }
        i = i + 1;
    }
    assert(!words_of(words@).contains(word@)) by {
        if words_of(words@).contains(word@) {
            let j = choose|j: int| 0 <= j < words_of(words@).len() && words_of(words@)[j] == word@;
            assert(words@[j]@ == word@);
        }
    }
    false
}

impl Hosts {
    /// The lines of this table, in order.
    pub closed spec fn lines(&self) -> Seq<(Seq<u8>, Seq<Seq<u8>>)> {
        lines_of(self.entries@)
    }

    #[verifier::type_invariant]
    closed spec fn well_formed(&self) -> bool {
        lines_well_formed(self.lines())
    }

    /// An empty table.
    pub fn new() -> (hosts: Hosts)
        ensures
            hosts@ == Map::<Seq<u8>, Set<Seq<u8>>>::empty(),
            hosts.lines().len() == 0,
    {
        let hosts = Hosts { entries: Vec::new() };
        assert(hosts.lines() =~= Seq::empty());
        hosts
    }

    /// The number of addresses in the table.
    pub fn len(&self) -> (n: usize)
        ensures
            n == self.lines().len(),
            n == self@.len(),
    {
        proof {
            use_type_invariant(self);
            lemma_distinct_lines_len(self.lines());
        }
        self.entries.len()
    }

    /// Whether the table gives the address the name.
    pub fn contains(&self, address: &Vec<u8>, name: &Vec<u8>) -> (found: bool)
        ensures
            found == (self@.contains_key(address@) && self@[address@].contains(name@)),
    {
        proof {
            use_type_invariant(self);
            lemma_distinct_lines_len(self.lines());
        }
        match self.position(address) {
            Some(i) => {
                proof {
                    lemma_names_of_line(self.lines(), i as int);
                    assert(self.lines()[i as int].1 == words_of(self.entries@[i as int].names@));
                }
                holds_word(&self.entries[i].names, name)
            },
            None => false,
        }
    }

    /// Where an address stands, if it does.
    fn position(&self, address: &Vec<u8>) -> (found: Option<usize>)
        ensures
            found matches Some(i) ==> i < self.lines().len() && self.lines()[i as int].0 == address@,
            found is None ==> forall|i: int| 0 <= i < self.lines().len() ==> self.lines()[i].0 != address@,
    {
        let mut i: usize = 0;
        while i < self.entries.len()
            invariant
                i <= self.entries.len(),
                forall|j: int| 0 <= j < i ==> self.lines()[j].0 != address@,
            decreases self.entries.len() - i,
        {
            if same_bytes(&self.entries[i].address, address) {
                return Some(i);
            }
            i = i + 1;
        }
        None
    }

    /// Gives an address the names `names[from..]` as well.
    fn add_names(&mut self, address: &Vec<u8>, names: &Vec<Vec<u8>>, from: usize)
        requires
            is_word(address@),
            from <= names.len(),
            all_words(words_of(names@)),
        ensures
            final(self)@ == add_names(
                old(self)@,
                address@,
                words_of(names@).subrange(from as int, names.len() as int).to_set(),
            ),
    {
        proof {
            use_type_invariant(&*self);
        }
        let ghost added = words_of(names@).subrange(from as int, names.len() as int).to_set();
        let ghost old_lines = self.lines();
        let found = self.position(address);
        let mut merged: Vec<Vec<u8>> = Vec::new();
        match found {
            Some(i) => {
                let mut k: usize = 0;
                while k < self.entries[i].names.len()
                    invariant
                        self.lines() == old_lines,
                        lines_well_formed(old_lines),
                        i < old_lines.len(),
                        k <= self.entries[i as int].names.len(),
                        words_of(merged@) == old_lines[i as int].1.subrange(0, k as int),
                    decreases self.entries[i as int].names.len() - k,
                {
                    assert(old_lines[i as int].1 == words_of(self.entries@[i as int].names@));
                    let ghost before = words_of(merged@);
                    let w = copy_bytes(&self.entries[i].names[k]);
                    merged.push(w);
                    assert(words_of(merged@) =~= before.push(w@));
                    assert(w@ == old_lines[i as int].1[k as int]);
                    k = k + 1;
                    assert(words_of(merged@) =~= old_lines[i as int].1.subrange(0, k as int));
                }
                assert(words_of(merged@) =~= old_lines[i as int].1);
            },
            None => {},
        }
        let ghost start = words_of(merged@);
        let mut j: usize = from;
        while j < names.len()
            invariant
                from <= j <= names.len(),
                all_words(words_of(names@)),
                all_words(start),
                no_duplicates(start),
                all_words(words_of(merged@)),
                no_duplicates(words_of(merged@)),
                words_of(merged@).to_set() == start.to_set().union(
                    words_of(names@).subrange(from as int, j as int).to_set(),
                ),
            decreases names.len() - j,
        {
            let ghost before = words_of(merged@);
            assert(words_of(names@)[j as int] == names@[j as int]@);
            if !holds_word(&merged, &names[j]) {
                merged.push(copy_bytes(&names[j]));
                assert(words_of(merged@) =~= before.push(names@[j as int]@));
                proof {
                    before.lemma_push_to_set_commute(names@[j as int]@);
                }
            } else {
                assert(before.to_set().contains(names@[j as int]@));
            }
            proof {
                words_of(names@).subrange(from as int, j as int).lemma_push_to_set_commute(
                    names@[j as int]@,
                );
            }
            j = j + 1;
            assert(words_of(names@).subrange(from as int, j as int) =~= words_of(names@).subrange(
                from as int,
                j - 1,
            ).push(words_of(names@)[j - 1]));
            assert(words_of(merged@).to_set() =~= start.to_set().union(
                words_of(names@).subrange(from as int, j as int).to_set(),
            ));
        }
        let entry = HostEntry { address: copy_bytes(address), names: merged };
        let mut entries: Vec<HostEntry> = Vec::new();
        std::mem::swap(&mut entries, &mut self.entries);
        assert(lines_of(entries@) == old_lines);
        match found {
            Some(i) => {
                proof {
                    lemma_add_to_line(old_lines, i as int, entry.line().1, added);
                    assert(lines_of(entries@.update(i as int, entry)) =~= old_lines.update(
                        i as int,
                        (old_lines[i as int].0, entry.line().1),
                    ));
                }
                entries.set(i, entry);
            },
            None => {
                proof {
                    assert(start =~= Seq::empty());
                    assert(entry.line().1.to_set() =~= added);
                    assert(lines_of(entries@.push(entry)) =~= old_lines.push(entry.line()));
                    assert(old_lines.push(entry.line()).drop_last() =~= old_lines);
                }
                entries.push(entry);
            },
        }
        self.entries = entries;
    }

    /// Adds one line of words: the first is the address, the rest are its names.
    pub fn add_line(&mut self, words: &Vec<Vec<u8>>)
        requires
            all_words(words_of(words@)),
        ensures
            final(self)@ == add_line(old(self)@, words_of(words@)),
    {
        if words.len() > 0 {
            let address = copy_bytes(&words[0]);
            assert(words_of(words@)[0] == words@[0]@);
            self.add_names(&address, words, 1);
            assert(words_of(words@).subrange(1, words.len() as int) =~= words_of(words@).drop_first());
        }
    }

    /// Adds the entries of another table to this one: each address gets the
    /// names that either table gives it.
    pub fn append(&mut self, other: Hosts)
        ensures
            final(self)@ == merge(old(self)@, other@),
    {
        proof {
            use_type_invariant(&other);
        }
        let ghost start = self@;
        let mut i: usize = 0;
        while i < other.entries.len()
            invariant
                i <= other.entries.len(),
                lines_well_formed(other.lines()),
                self@ == add_lines(start, other.lines().subrange(0, i as int)),
            decreases other.entries.len() - i,
        {
            let entry = &other.entries[i];
            assert(other.lines()[i as int] == entry.line());
            self.add_names(&entry.address, &entry.names, 0);
            i = i + 1;
            proof {
                let done = other.lines().subrange(0, i as int);
                assert(done.drop_last() =~= other.lines().subrange(0, i - 1));
                assert(words_of(entry.names@).subrange(0, entry.names.len() as int) =~= words_of(entry.names@));
            }
        }
        proof {
            assert(other.lines().subrange(0, i as int) =~= other.lines());
            lemma_add_lines_is_merge(start, other.lines());
        }
    }
}

/// With distinct addresses, the names of an address are those of its line.
proof fn lemma_names_of_line(lines: Seq<(Seq<u8>, Seq<Seq<u8>>)>, i: int)
    requires
        forall|a: int, b: int| 0 <= a < b < lines.len() ==> lines[a].0 != lines[b].0,
        0 <= i < lines.len(),
    ensures
        map_of(lines).contains_key(lines[i].0),
        map_of(lines)[lines[i].0] == lines[i].1.to_set(),
    decreases lines.len(),
{
    let rest = lines.drop_last();
    if i < lines.len() - 1 {
        lemma_names_of_line(rest, i);
        assert(rest[i] == lines[i]);
        assert(lines[i].0 != lines[lines.len() - 1].0);
    } else {
        lemma_distinct_lines_len(rest);
        assert(!map_of(rest).contains_key(lines[i].0)) by {
            if map_of(rest).contains_key(lines[i].0) {
                let j = choose|j: int| 0 <= j < rest.len() && rest[j].0 == lines[i].0;
                assert(lines[j].0 == lines[i].0);
            }
        }
    }
}

/// Lines with distinct addresses have as many addresses as lines.
proof fn lemma_distinct_lines_len(lines: Seq<(Seq<u8>, Seq<Seq<u8>>)>)
    requires
        forall|i: int, j: int| 0 <= i < j < lines.len() ==> lines[i].0 != lines[j].0,
    ensures
        map_of(lines).len() == lines.len(),
        map_of(lines).dom().finite(),
        forall|k: Seq<u8>| map_of(lines).contains_key(k) <==> exists|i: int| 0 <= i < lines.len() && lines[i].0 == k,
    decreases lines.len(),
{
    if lines.len() > 0 {
        let rest = lines.drop_last();
        lemma_distinct_lines_len(rest);
        assert(!map_of(rest).contains_key(lines.last().0)) by {
            if map_of(rest).contains_key(lines.last().0) {
                let i = choose|i: int| 0 <= i < rest.len() && rest[i].0 == lines.last().0;
                assert(lines[i].0 == lines[lines.len() - 1].0);
            }
        }
        assert forall|k: Seq<u8>| map_of(lines).contains_key(k) implies exists|i: int| 0 <= i < lines.len() && lines[i].0 == k by {
            if k != lines.last().0 {
                let i = choose|i: int| 0 <= i < rest.len() && rest[i].0 == k;
                assert(lines[i].0 == k);
            } else {
                assert(lines[lines.len() - 1].0 == k);
            }
        }
        assert forall|k: Seq<u8>| (exists|i: int| 0 <= i < lines.len() && lines[i].0 == k) implies map_of(lines).contains_key(k) by {
            let i = choose|i: int| 0 <= i < lines.len() && lines[i].0 == k;
            if i < lines.len() - 1 {
                assert(rest[i].0 == k);
            }
        }
    }
}

/// Ends the word being read, if there is one, moving it into the line.
fn end_word_exec(line: &mut Vec<Vec<u8>>, word: &mut Vec<u8>)
    requires
        all_words(words_of(old(line)@)),
        forall|i: int| 0 <= i < old(word)@.len() ==> is_word_byte(#[trigger] old(word)@[i]),
    ensures
        ({
            let e = end_word(
                Scan { hosts: Map::empty(), line: words_of(old(line)@), word: old(word)@, comment: false },
            );
            &&& words_of(final(line)@) == e.line
            &&& final(word)@ == e.word
        }),
        all_words(words_of(final(line)@)),
        final(word)@.len() == 0,
{
    if word.len() > 0 {
        let mut finished: Vec<u8> = Vec::new();
        std::mem::swap(&mut finished, word);
        let ghost before = words_of(line@);
        line.push(finished);
        assert(words_of(line@) =~= before.push(finished@));
    }
}

/// Reads one byte of a hosts file.
fn scan_byte_exec(
    hosts: &mut Hosts,
    line: &mut Vec<Vec<u8>>,
    word: &mut Vec<u8>,
    comment: &mut bool,
    b: u8,
)
    requires
        all_words(words_of(old(line)@)),
        forall|i: int| 0 <= i < old(word)@.len() ==> is_word_byte(#[trigger] old(word)@[i]),
    ensures
        scan_byte(
            Scan { hosts: old(hosts)@, line: words_of(old(line)@), word: old(word)@, comment: *old(comment) },
            b,
        ) == (Scan { hosts: final(hosts)@, line: words_of(final(line)@), word: final(word)@, comment: *final(comment) }),
        all_words(words_of(final(line)@)),
        forall|i: int| 0 <= i < final(word)@.len() ==> is_word_byte(#[trigger] final(word)@[i]),
{
    if b == NEWLINE {
        end_word_exec(line, word);
        hosts.add_line(line);
        *line = Vec::new();
        *comment = false;
        assert(words_of(line@) =~= Seq::<Seq<u8>>::empty());
        assert(word@ =~= Seq::<u8>::empty());
    } else if *comment {
    } else if b == COMMENT {
        end_word_exec(line, word);
        *comment = true;
    } else if b == SPACE || b == TAB || b == RETURN {
        end_word_exec(line, word);
    } else {
        word.push(b);
    }
}

/// Reads a hosts file.
pub fn parse(text: &[u8]) -> (hosts: Hosts)
    ensures
        hosts@ == parse_hosts(text@),
{
    let mut hosts = Hosts::new();
    let mut line: Vec<Vec<u8>> = Vec::new();
    let mut word: Vec<u8> = Vec::new();
    let mut comment = false;
    let mut i: usize = 0;
    assert(words_of(line@) =~= Seq::<Seq<u8>>::empty());
    assert(text@.subrange(0, 0) =~= Seq::<u8>::empty());
    while i < text.len()
        invariant
            i <= text.len(),
            scan(line_start(Map::empty()), text@.subrange(0, i as int)) == (Scan {
                hosts: hosts@,
                line: words_of(line@),
                word: word@,
                comment,
            }),
            all_words(words_of(line@)),
            forall|k: int| 0 <= k < word@.len() ==> is_word_byte(#[trigger] word@[k]),
        decreases text.len() - i,
    {
        scan_byte_exec(&mut hosts, &mut line, &mut word, &mut comment, text[i]);
        i = i + 1;
        assert(text@.subrange(0, i as int).drop_last() =~= text@.subrange(0, i - 1));
    }
    assert(text@.subrange(0, i as int) =~= text@);
    scan_byte_exec(&mut hosts, &mut line, &mut word, &mut comment, NEWLINE);
    proof {
        lemma_scanned_hosts(text@);
    }
    hosts
}

/// Appends bytes to a byte string.
fn push_bytes(out: &mut Vec<u8>, bytes: &Vec<u8>)
    ensures
        final(out)@ == old(out)@ + bytes@,
{
    let mut i: usize = 0;
    while i < bytes.len()
        invariant
            i <= bytes.len(),
            out@ == old(out)@ + bytes@.subrange(0, i as int),
        decreases bytes.len() - i,
    {
        out.push(bytes[i]);
        i = i + 1;
        assert(out@ =~= old(out)@ + bytes@.subrange(0, i as int));
    }
    assert(bytes@.subrange(0, i as int) =~= bytes@);
}

impl Hosts {
    /// The lines of a hosts file holding this table, one line per address;
    /// reading them back gives this table.
    pub fn render(&self) -> (text: Vec<u8>)
        ensures
            text@ == render_lines(self.lines()),
            parse_hosts(text@) == self@,
    {
        proof {
            use_type_invariant(self);
        }
        let mut text: Vec<u8> = Vec::new();
        let mut i: usize = 0;
        while i < self.entries.len()
            invariant
                i <= self.entries.len(),
                text@ == render_lines(self.lines().subrange(0, i as int)),
            decreases self.entries.len() - i,
        {
            let entry = &self.entries[i];
            let ghost start = text@;
            push_bytes(&mut text, &entry.address);
            let mut j: usize = 0;
            assert(words_of(entry.names@).subrange(0, 0) =~= Seq::<Seq<u8>>::empty());
            while j < entry.names.len()
                invariant
                    j <= entry.names.len(),
                    text@ == start + entry.address@ + render_names(
                        words_of(entry.names@).subrange(0, j as int),
                    ),
                decreases entry.names.len() - j,
            {
                text.push(SPACE);
                push_bytes(&mut text, &entry.names[j]);
                j = j + 1;
                assert(words_of(entry.names@).subrange(0, j as int).drop_last() =~= words_of(
                    entry.names@,
                ).subrange(0, j - 1));
                assert(text@ =~= start + entry.address@ + render_names(
                    words_of(entry.names@).subrange(0, j as int),
                ));
            }
            text.push(NEWLINE);
            i = i + 1;
            proof {
                assert(words_of(entry.names@).subrange(0, j as int) =~= words_of(entry.names@));
                assert(self.lines()[i - 1] == entry.line());
                assert(self.lines().subrange(0, i as int).drop_last() =~= self.lines().subrange(0, i - 1));
                assert(text@ =~= render_lines(self.lines().subrange(0, i as int)));
            }
        }
        proof {
            assert(self.lines().subrange(0, i as int) =~= self.lines());
            lemma_parse_render(self.lines());
        }
        text
    }

    /// A whole hosts file: the header, a line feed, then this table. Reading it
    /// back gives the entries of the header together with this table.
    pub fn render_file(&self, header: &[u8]) -> (text: Vec<u8>)
        ensures
            text@ == render_file(header@, self.lines()),
            parse_hosts(text@) == merge(parse_hosts(header@), self@),
    {
        proof {
            use_type_invariant(self);
            lemma_parse_render_file(header@, self.lines());
        }
        let mut text: Vec<u8> = Vec::new();
        let mut i: usize = 0;
        while i < header.len()
            invariant
                i <= header.len(),
                text@ == header@.subrange(0, i as int),
            decreases header.len() - i,
        {
            text.push(header[i]);
            i = i + 1;
            assert(text@ =~= header@.subrange(0, i as int));
        }
        assert(header@.subrange(0, i as int) =~= header@);
        text.push(NEWLINE);
        let body = self.render();
        push_bytes(&mut text, &body);
        assert(text@ =~= render_file(header@, self.lines()));
        text
    }
}

impl View for Hosts {
    type V = Map<Seq<u8>, Set<Seq<u8>>>;

    /// Each address mapped to the names that resolve to it.
    closed spec fn view(&self) -> Map<Seq<u8>, Set<Seq<u8>>> {
        map_of(self.lines())
    }
}

} // verus!

//! Reading hosts out of SSH client configuration files.
//!
//! Each `Host` line of a configuration opens one host per pattern on it that
//! names a single machine (no `*`, `?` or `!`); the lines that follow, up to
//! the next `Host` line, belong to the configuration of every host the last
//! `Host` line opened. Blank lines and comments are skipped.

use vstd::prelude::*;

use crate::host::{Entry, Host};
use crate::text::{lower_seq, to_ascii_lower};

verus! {

/// Whitespace as Rust's `char::is_whitespace` knows it: the characters with
/// the Unicode `White_Space` property.
pub open spec fn is_ws(c: char) -> bool {
    ||| '\t' <= c <= '\r'
    ||| c == ' '
    ||| c == '\u{85}'
    ||| c == '\u{A0}'
    ||| c == '\u{1680}'
    ||| '\u{2000}' <= c <= '\u{200A}'
    ||| c == '\u{2028}'
    ||| c == '\u{2029}'
    ||| c == '\u{202F}'
    ||| c == '\u{205F}'
    ||| c == '\u{3000}'
}

/// Whether `c` is whitespace.
pub fn is_whitespace(c: char) -> (r: bool)
    ensures
        r == is_ws(c),
{
    ('\t' <= c && c <= '\r') || c == ' ' || c == '\u{85}' || c == '\u{A0}' || c == '\u{1680}'
        || ('\u{2000}' <= c && c <= '\u{200A}') || c == '\u{2028}' || c == '\u{2029}'
        || c == '\u{202F}' || c == '\u{205F}' || c == '\u{3000}'
}

/// The pieces of `s` between its newlines: one more than it has newlines.
pub open spec fn split_newlines(s: Seq<char>) -> Seq<Seq<char>>
    decreases s.len(),
{
    if s.len() == 0 {
        seq![Seq::empty()]
    } else {
        let pieces = split_newlines(s.drop_last());
        if s.last() == '\n' {
            pieces.push(Seq::empty())
        } else {
            pieces.update(pieces.len() - 1, pieces.last().push(s.last()))
        }
    }
}

/// A line that a newline ended, without the carriage return before it.
pub open spec fn strip_cr(line: Seq<char>) -> Seq<char> {
    if line.len() > 0 && line.last() == '\r' {
        line.drop_last()
    } else {
        line
    }
}

/// The lines of `s` as `str::lines` gives them: the pieces between newlines,
/// a carriage return before a newline taken off, and no empty last line after
/// a final newline.
pub open spec fn lines_of(s: Seq<char>) -> Seq<Seq<char>> {
    let pieces = split_newlines(s);
    let ended = pieces.drop_last().map_values(|l: Seq<char>| strip_cr(l));
    if pieces.last().len() == 0 {
        ended
    } else {
        ended.push(pieces.last())
    }
}

/// `line` with each tab replaced by four spaces.
pub open spec fn expand_tabs(line: Seq<char>) -> Seq<char>
    decreases line.len(),
{
    if line.len() == 0 {
        line
    } else {
        expand_tabs(line.drop_last()) + if line.last() == '\t' {
            seq![' ', ' ', ' ', ' ']
        } else {
            seq![line.last()]
        }
    }
}

/// The words of `line` as `str::split_whitespace` gives them: the maximal
/// runs of characters that are not whitespace, in order.
pub open spec fn words(line: Seq<char>) -> Seq<Seq<char>>
    decreases line.len(),
{
    if line.len() == 0 {
        seq![]
    } else {
        let before = words(line.drop_last());
        let c = line.last();
        if is_ws(c) {
            before
        } else if line.len() >= 2 && !is_ws(line[line.len() - 2]) {
            before.update(before.len() - 1, before.last().push(c))
        } else {
            before.push(seq![c])
        }
    }
}

/// A host pattern that names one machine: no wildcard and no negation.
pub open spec fn connectable(pattern: Seq<char>) -> bool {
    !pattern.contains('*') && !pattern.contains('?') && !pattern.contains('!')
}

/// Whether `pattern` names one machine: it holds no `*`, `?` or `!`.
pub fn is_connectable_host_pattern(pattern: &str) -> (r: bool)
    ensures
        r == connectable(pattern@),
{
    broadcast use vstd::string::group_string_axioms;
    for c in it: pattern.chars()
        invariant
            it.seq() == pattern@,
            forall|j: int| 0 <= j < it.index() ==> pattern@[j] != '*' && pattern@[j] != '?'
                && pattern@[j] != '!',
    {
        if c == '*' || c == '?' || c == '!' {
            proof {
                assert(pattern@[it.index() as int] == c);
            }
            return false;
        }
    }
    true
}

/// The characters of `v` as a string.
pub fn string_of(v: &Vec<char>) -> (s: String)
    ensures
        s@ == v@,
{
    let mut s = String::new();
    let mut i: usize = 0;
    while i < v.len()
        invariant
            0 <= i <= v.len(),
            s@ == v@.take(i as int),
        decreases v.len() - i,
    {
        s.push(v[i]);
        proof {
            assert(v@.take(i + 1) == v@.take(i as int).push(v@[i as int]));
        }
        i = i + 1;
    }
    proof {
        assert(v@.take(v.len() as int) == v@);
    }
    s
}

/// `line` with each tab replaced by four spaces.
pub fn expand_line_tabs(line: &Vec<char>) -> (r: Vec<char>)
    ensures
        r@ == expand_tabs(line@),
{
    let mut r: Vec<char> = Vec::new();
    let mut i: usize = 0;
    while i < line.len()
        invariant
            0 <= i <= line.len(),
            r@ == expand_tabs(line@.take(i as int)),
        decreases line.len() - i,
    {
        proof {
            assert(line@.take(i + 1).drop_last() == line@.take(i as int));
        }
        if line[i] == '\t' {
            r.push(' ');
            r.push(' ');
            r.push(' ');
            r.push(' ');
        } else {
            r.push(line[i]);
        }
        i = i + 1;
    }
    proof {
        assert(line@.take(line.len() as int) == line@);
    }
    r
}

/// The words of `v`, each as a sequence.
pub open spec fn words_view(v: Seq<Vec<char>>) -> Seq<Seq<char>> {
    v.map_values(|w: Vec<char>| w@)
}

/// The words of `line`: its maximal runs of characters that are not
/// whitespace, in order.
pub fn split_words(line: &Vec<char>) -> (r: Vec<Vec<char>>)
    ensures
        words_view(r@) == words(line@),
{
    let mut r: Vec<Vec<char>> = Vec::new();
    let mut i: usize = 0;
    while i < line.len()
        invariant
            0 <= i <= line.len(),
            words_view(r@) == words(line@.take(i as int)),
            i > 0 && !is_ws(line@[i - 1]) ==> r@.len() > 0,
        decreases line.len() - i,
    {
        let ghost t = line@.take(i + 1);
        proof {
            assert(t.drop_last() == line@.take(i as int));
            assert(t.last() == line@[i as int]);
            if i >= 1 {
                assert(t[t.len() - 2] == line@[i - 1]);
            }
        }
        let c = line[i];
        if !is_whitespace(c) {
            if i > 0 && !is_whitespace(line[i - 1]) {
                let mut w = r.pop().unwrap();
                w.push(c);
                r.push(w);
                proof {
                    assert(words_view(r@) == words(t));
                }
            } else {
                let ghost before = r@;
                let mut w: Vec<char> = Vec::new();
                w.push(c);
                r.push(w);
                proof {
                    assert(w@ == seq![c]);
                    assert(words_view(r@) == words_view(before).push(seq![c]));
                    assert(words_view(r@) == words(t));
                }
            }
        }
        i = i + 1;
    }
    proof {
        assert(line@.take(line.len() as int) == line@);
    }
    r
}


/// A host in mathematical terms.
#[verifier::ext_equal]
pub struct HostView {
    pub name: Seq<char>,
    pub target: Seq<char>,
    pub config: Seq<Seq<char>>,
    pub description: Seq<char>,
}

/// `host` in mathematical terms.
pub open spec fn host_view(host: Host) -> HostView {
    HostView {
        name: host.name@,
        target: host.target@,
        config: host.config@.map_values(|l: String| l@),
        description: host.description@,
    }
}

/// The hosts of `hosts` in mathematical terms.
pub open spec fn hosts_view(hosts: Seq<Host>) -> Seq<HostView> {
    hosts.map_values(|h: Host| host_view(h))
}

/// Every entry of `entries` is a host.
pub open spec fn all_hosts(entries: Seq<Entry>) -> bool {
    forall|i: int| 0 <= i < entries.len() ==> entries[i] is Host
}

/// The hosts that `entries`, all hosts, hold.
pub open spec fn entries_view(entries: Seq<Entry>) -> Seq<HostView> {
    entries.map_values(
        |e: Entry|
            match e {
                Entry::Host(h) => host_view(h),
                Entry::Folder(_) => HostView {
                    name: Seq::empty(),
                    target: Seq::empty(),
                    config: Seq::empty(),
                    description: Seq::empty(),
                },
            },
    )
}

/// The host that a `Host` line opens for `pattern`: it connects through
/// `localhost` and its configuration starts with that line.
pub open spec fn opened_host(pattern: Seq<char>, line: Seq<char>) -> HostView {
    HostView { name: pattern, target: "localhost"@, config: seq![line], description: Seq::empty() }
}

/// The keyword `Host`, in any ASCII case.
pub open spec fn is_host_keyword(word: Seq<char>) -> bool {
    lower_seq(word) == seq!['h', 'o', 's', 't']
}

/// `host` with `line` added at the end of its configuration.
pub open spec fn with_config_line(host: HostView, line: Seq<char>) -> HostView {
    HostView { config: host.config.push(line), ..host }
}

/// What one line does to the hosts read so far (`done`) and to those the last
/// `Host` line opened (`current`). The line is read with its tabs as four
/// spaces. A blank line or a comment does nothing; a `Host` line closes the
/// current hosts and opens one per pattern after the keyword that names one
/// machine; any other line is added to the configuration of each current host.
pub open spec fn line_step(done: Seq<HostView>, current: Seq<HostView>, raw: Seq<char>) -> (
    Seq<HostView>,
    Seq<HostView>,
) {
    let line = expand_tabs(raw);
    let w = words(line);
    if w.len() == 0 || w[0][0] == '#' {
        (done, current)
    } else if is_host_keyword(w[0]) {
        (
            done + current,
            w.skip(1).filter(|p: Seq<char>| connectable(p)).map_values(
                |p: Seq<char>| opened_host(p, line),
            ),
        )
    } else {
        (done, current.map_values(|h: HostView| with_config_line(h, line)))
    }
}

/// The hosts read and the hosts still open after `lines`.
pub open spec fn parse_lines(lines: Seq<Seq<char>>) -> (Seq<HostView>, Seq<HostView>)
    decreases lines.len(),
{
    if lines.len() == 0 {
        (Seq::empty(), Seq::empty())
    } else {
        let (done, current) = parse_lines(lines.drop_last());
        line_step(done, current, lines.last())
    }
}

/// The hosts of the configuration `content`, in the order of their patterns.
pub open spec fn config_hosts(content: Seq<char>) -> Seq<HostView> {
    let (done, current) = parse_lines(lines_of(content));
    done + current
}

/// Moves the hosts of `current` to the end of `hosts`.
fn close_hosts(hosts: &mut Vec<Entry>, current: Vec<Host>)
    requires
        all_hosts(old(hosts)@),
    ensures
        all_hosts(final(hosts)@),
        entries_view(final(hosts)@) == entries_view(old(hosts)@) + hosts_view(current@),
{
    let ghost cur = current@;
    let ghost start = hosts@;
    for h in it: current
        invariant
            it.seq() == cur,
            all_hosts(hosts@),
            entries_view(hosts@) == entries_view(start) + hosts_view(cur.take(it.index() as int)),
    {
        let ghost before = hosts@;
        proof {
            assert(cur.take(it.index() + 1) == cur.take(it.index() as int).push(h));
        }
        hosts.push(Entry::Host(h));
        proof {
            assert(entries_view(hosts@) == entries_view(before).push(host_view(h)));
        }
    }
    proof {
        assert(cur.take(cur.len() as int) == cur);
    }
}

/// Adds `line` to the configuration of each host of `current`.
fn add_config_line(current: Vec<Host>, line: &String) -> (r: Vec<Host>)
    ensures
        hosts_view(r@) == hosts_view(current@).map_values(
            |h: HostView| with_config_line(h, line@),
        ),
{
    let ghost cur = current@;
    let mut r: Vec<Host> = Vec::new();
    for h in it: current
        invariant
            it.seq() == cur,
            hosts_view(r@) == hosts_view(cur.take(it.index() as int)).map_values(
                |h: HostView| with_config_line(h, line@),
            ),
    {
        let ghost before = r@;
        let mut h = h;
        let ghost old_h = h;
        h.config.push(line.clone());
        proof {
            assert(cur.take(it.index() + 1) == cur.take(it.index() as int).push(old_h));
            assert(h.config@ == old_h.config@.push(*line));
            assert(host_view(h).config =~= host_view(old_h).config.push(line@));
            assert(host_view(h) =~= with_config_line(host_view(old_h), line@));
        }
        r.push(h);
        proof {
            assert(hosts_view(r@) == hosts_view(before).push(host_view(h)));
            assert(hosts_view(cur.take(it.index() + 1)) == hosts_view(cur.take(it.index() as int)).push(host_view(old_h)));
        }
    }
    proof {
        assert(cur.take(cur.len() as int) == cur);
    }
    r
}


/// The hosts that a `Host` line opens: one per pattern after the keyword that
/// names one machine.
fn open_hosts(w: &Vec<Vec<char>>, line: &String) -> (r: Vec<Host>)
    requires
        w@.len() >= 1,
    ensures
        hosts_view(r@) == words_view(w@).skip(1).filter(|p: Seq<char>| connectable(p)).map_values(
            |p: Seq<char>| opened_host(p, line@),
        ),
{
    let ghost ws = words_view(w@);
    let ghost pred = |p: Seq<char>| connectable(p);
    let mut r: Vec<Host> = Vec::new();
    let mut j: usize = 1;
    while j < w.len()
        invariant
            1 <= j <= w@.len(),
            ws == words_view(w@),
            pred == (|p: Seq<char>| connectable(p)),
            hosts_view(r@) == ws.subrange(1, j as int).filter(pred).map_values(
                |p: Seq<char>| opened_host(p, line@),
            ),
        decreases w@.len() - j,
    {
        let ghost before = r@;
        proof {
            reveal_with_fuel(Seq::filter, 1);
            assert(ws.subrange(1, j + 1).drop_last() == ws.subrange(1, j as int));
            assert(ws.subrange(1, j + 1).last() == w@[j as int]@);
        }
        let pattern = string_of(&w[j]);
        if is_connectable_host_pattern(pattern.as_str()) {
            let mut config: Vec<String> = Vec::new();
            config.push(line.clone());
            let host = Host {
                name: pattern,
                target: "localhost".to_owned(),
                config,
                description: String::new(),
            };
            r.push(host);
            proof {
                assert(host_view(host).config =~= seq![line@]);
                assert(host_view(host) =~= opened_host(w@[j as int]@, line@));
                assert(hosts_view(r@) =~= hosts_view(before).push(host_view(host)));
            }
        }
        j = j + 1;
    }
    proof {
        assert(ws.subrange(1, w@.len() as int) == ws.skip(1));
    }
    r
}


/// Each word has at least one character.
proof fn lemma_words_nonempty(line: Seq<char>)
    ensures
        forall|i: int| 0 <= i < words(line).len() ==> #[trigger] words(line)[i].len() > 0,
        line.len() > 0 && !is_ws(line.last()) ==> words(line).len() > 0,
    decreases line.len(),
{
    if line.len() > 0 {
        let before = words(line.drop_last());
        lemma_words_nonempty(line.drop_last());
        let c = line.last();
        if !is_ws(c) && line.len() >= 2 && !is_ws(line[line.len() - 2]) {
            assert(line.drop_last().last() == line[line.len() - 2]);
            let w = before.update(before.len() - 1, before.last().push(c));
            assert forall|i: int| 0 <= i < w.len() implies #[trigger] w[i].len() > 0 by {
                if i < before.len() - 1 {
                    assert(w[i] == before[i]);
                }
            }
        } else if !is_ws(c) {
            let w = before.push(seq![c]);
            assert forall|i: int| 0 <= i < w.len() implies #[trigger] w[i].len() > 0 by {
                if i < before.len() {
                    assert(w[i] == before[i]);
                }
            }
        }
    }
}

/// A text splits into at least one piece.
proof fn lemma_split_newlines_nonempty(s: Seq<char>)
    ensures
        split_newlines(s).len() >= 1,
    decreases s.len(),
{
    if s.len() > 0 {
        lemma_split_newlines_nonempty(s.drop_last());
    }
}

/// Whether `word` is the keyword `Host`, in any ASCII case.
fn is_host_word(word: &Vec<char>) -> (r: bool)
    ensures
        r == is_host_keyword(word@),
{
    let r = word.len() == 4 && to_ascii_lower(word[0]) == 'h' && to_ascii_lower(word[1]) == 'o'
        && to_ascii_lower(word[2]) == 's' && to_ascii_lower(word[3]) == 't';
    proof {
        if r {
            assert(lower_seq(word@) =~= seq!['h', 'o', 's', 't']);
        }
        if is_host_keyword(word@) {
            assert(lower_seq(word@).len() == 4);
            assert(word@.len() == 4);
            assert(lower_seq(word@)[0] == 'h');
            assert(lower_seq(word@)[1] == 'o');
            assert(lower_seq(word@)[2] == 's');
            assert(lower_seq(word@)[3] == 't');
        }
    }
    r
}

/// Reads one line: `hosts` gains the hosts it closes, and the result holds
/// the hosts open after it.
fn read_line(raw: &Vec<char>, hosts: &mut Vec<Entry>, current: Vec<Host>) -> (r: Vec<Host>)
    requires
        all_hosts(old(hosts)@),
    ensures
        all_hosts(final(hosts)@),
        (entries_view(final(hosts)@), hosts_view(r@)) == line_step(
            entries_view(old(hosts)@),
            hosts_view(current@),
            raw@,
        ),
{
    let line = expand_line_tabs(raw);
    let w = split_words(&line);
    proof {
        lemma_words_nonempty(line@);
        if w@.len() > 0 {
            assert(words(line@)[0] == w@[0]@);
        }
    }
    if w.len() == 0 || w[0][0] == '#' {
        return current;
    }
    if is_host_word(&w[0]) {
        close_hosts(hosts, current);
        let line_text = string_of(&line);
        open_hosts(&w, &line_text)
    } else {
        let line_text = string_of(&line);
        add_config_line(current, &line_text)
    }
}

/// The hosts of the configuration `content`: one per pattern of each `Host`
/// line that names a single machine, in order, each connecting through
/// `localhost`, with no description, its configuration the `Host` line and
/// the lines after it up to the next `Host` line, tabs as four spaces.
/// Blank lines and lines whose first word starts with `#` are skipped.
pub fn find_hosts(content: &str) -> (r: Vec<Entry>)
    ensures
        all_hosts(r@),
        entries_view(r@) == config_hosts(content@),
{
    broadcast use vstd::string::group_string_axioms;
    let mut hosts: Vec<Entry> = Vec::new();
    let mut current: Vec<Host> = Vec::new();
    let mut buf: Vec<char> = Vec::new();
    proof {
        assert(content@.take(0) == Seq::<char>::empty());
        assert(split_newlines(content@.take(0)).drop_last() =~= Seq::<Seq<char>>::empty());
    }
    for c in it: content.chars()
        invariant
            it.seq() == content@,
            all_hosts(hosts@),
            buf@ == split_newlines(content@.take(it.index() as int)).last(),
            (entries_view(hosts@), hosts_view(current@)) == parse_lines(
                split_newlines(content@.take(it.index() as int)).drop_last().map_values(
                    |l: Seq<char>| strip_cr(l),
                ),
            ),
    {
        let ghost i = it.index() as int;
        let ghost t = content@.take(i + 1);
        let ghost p = split_newlines(content@.take(i));
        proof {
            assert(t.drop_last() == content@.take(i));
            assert(t.last() == c);
            lemma_split_newlines_nonempty(content@.take(i));
        }
        if c == '\n' {
            let mut line = buf;
            if line.len() > 0 && line[line.len() - 1] == '\r' {
                line.pop();
            }
            proof {
                assert(line@ == strip_cr(p.last()));
                let ended = p.drop_last().map_values(|l: Seq<char>| strip_cr(l));
                assert(split_newlines(t).drop_last() == p);
                assert(p.map_values(|l: Seq<char>| strip_cr(l)).drop_last() == ended);
                assert(p.map_values(|l: Seq<char>| strip_cr(l)).last() == strip_cr(p.last()));
            }
            current = read_line(&line, &mut hosts, current);
            buf = Vec::new();
            proof {
                assert(split_newlines(t).last() == Seq::<char>::empty());
                assert(buf@ == Seq::<char>::empty());
            }
        } else {
            buf.push(c);
            proof {
                assert(split_newlines(t).drop_last() == p.drop_last());
            }
        }
    }
    proof {
        assert(content@.take(content@.len() as int) == content@);
    }
    if buf.len() > 0 {
        proof {
            let p = split_newlines(content@);
            let ended = p.drop_last().map_values(|l: Seq<char>| strip_cr(l));
            assert(ended.push(p.last()).drop_last() == ended);
        }
        current = read_line(&buf, &mut hosts, current);
    }
    close_hosts(&mut hosts, current);
    hosts
}


/// `bytes` begin with the ASCII text `prefix`.
pub open spec fn starts_with_ascii(bytes: Seq<u8>, prefix: Seq<char>) -> bool {
    &&& prefix.len() <= bytes.len()
    &&& forall|i: int| 0 <= i < prefix.len() ==> #[trigger] bytes[i] as char == prefix[i]
}

/// What a file must look like to be read as an SSH configuration: no NUL
/// byte, and no first line of a key (PEM armour, or an `ssh-ed25519`,
/// `ssh-rsa` or `ecdsa-sha2-` public key).
pub open spec fn probably_ssh_config(content: Seq<u8>) -> bool {
    &&& !content.contains(0u8)
    &&& !starts_with_ascii(content, "-----BEGIN"@)
    &&& !starts_with_ascii(content, "ssh-ed25519 "@)
    &&& !starts_with_ascii(content, "ssh-rsa "@)
    &&& !starts_with_ascii(content, "ecdsa-sha2-"@)
}

/// Whether `bytes` begin with `prefix`, an ASCII text.
fn bytes_start_with(bytes: &[u8], prefix: &str) -> (r: bool)
    ensures
        r == starts_with_ascii(bytes@, prefix@),
{
    let n = prefix.unicode_len();
    if n > bytes.len() {
        return false;
    }
    let mut i: usize = 0;
    while i < n
        invariant
            n == prefix@.len(),
            n <= bytes@.len(),
            0 <= i <= n,
            forall|j: int| 0 <= j < i ==> #[trigger] bytes@[j] as char == prefix@[j],
        decreases n - i,
    {
        if bytes[i] as char != prefix.get_char(i) {
            return false;
        }
        i = i + 1;
    }
    true
}

/// Whether a file with `content` looks like an SSH configuration rather than
/// a key: it holds no NUL byte and does not begin like a PEM key or an
/// `ssh-ed25519`, `ssh-rsa` or `ecdsa-sha2-` public key. (As the markers are
/// ASCII, the file begins with one exactly when the first line of its text,
/// invalid UTF-8 replaced, does.)
pub fn is_probably_ssh_config(content: &[u8]) -> (r: bool)
    ensures
        r == probably_ssh_config(content@),
{
    let mut i: usize = 0;
    while i < content.len()
        invariant
            0 <= i <= content@.len(),
            forall|j: int| 0 <= j < i ==> content@[j] != 0u8,
        decreases content@.len() - i,
    {
        if content[i] == 0 {
            proof {
                assert(content@.contains(0u8));
            }
            return false;
        }
        i = i + 1;
    }
    if bytes_start_with(content, "-----BEGIN") || bytes_start_with(content, "ssh-ed25519 ")
        || bytes_start_with(content, "ssh-rsa ") || bytes_start_with(content, "ecdsa-sha2-") {
        return false;
    }
    true
}


/// `host` comes from a `Host` line: it names one machine, one of the
/// patterns of the line its configuration starts with, it connects through
/// `localhost`, and it has no description.
pub open spec fn from_host_line(host: HostView) -> bool {
    &&& connectable(host.name)
    &&& host.target == "localhost"@
    &&& host.description.len() == 0
    &&& host.config.len() >= 1
    &&& words(host.config[0]).len() >= 1
    &&& is_host_keyword(words(host.config[0])[0])
    &&& words(host.config[0]).skip(1).contains(host.name)
}

/// What a filter keeps comes from the filtered sequence.
proof fn lemma_filter_from(s: Seq<Seq<char>>, pred: spec_fn(Seq<char>) -> bool, j: int)
    requires
        0 <= j < s.filter(pred).len(),
    ensures
        s.contains(s.filter(pred)[j]),
    decreases s.len(),
{
    reveal_with_fuel(Seq::filter, 1);
    if s.len() > 0 {
        let f = s.drop_last().filter(pred);
        if j < f.len() {
            lemma_filter_from(s.drop_last(), pred, j);
            let k = choose|k: int| 0 <= k < s.drop_last().len() && s.drop_last()[k] == f[j];
            assert(s[k] == f[j]);
        } else {
            assert(s[s.len() - 1] == s.filter(pred)[j]);
        }
    }
}

/// Every host read so far, or still open, comes from a `Host` line.
proof fn lemma_parse_from_host_lines(lines: Seq<Seq<char>>)
    ensures
        forall|i: int| 0 <= i < parse_lines(lines).0.len() ==> from_host_line(
            #[trigger] parse_lines(lines).0[i],
        ),
        forall|i: int| 0 <= i < parse_lines(lines).1.len() ==> from_host_line(
            #[trigger] parse_lines(lines).1[i],
        ),
    decreases lines.len(),
{
    if lines.len() > 0 {
        lemma_parse_from_host_lines(lines.drop_last());
        let (done, current) = parse_lines(lines.drop_last());
        let line = expand_tabs(lines.last());
        let w = words(line);
        if w.len() == 0 || w[0][0] == '#' {
        } else if is_host_keyword(w[0]) {
            let d = done + current;
            assert forall|i: int| 0 <= i < d.len() implies from_host_line(#[trigger] d[i]) by {
                if i < done.len() {
                    assert(d[i] == done[i]);
                } else {
                    assert(d[i] == current[i - done.len()]);
                }
            }
            let pred = |p: Seq<char>| connectable(p);
            let f = w.skip(1).filter(pred);
            let c = f.map_values(|p: Seq<char>| opened_host(p, line));
            assert forall|i: int| 0 <= i < c.len() implies from_host_line(#[trigger] c[i]) by {
                w.skip(1).lemma_filter_pred(pred, i);
                lemma_filter_from(w.skip(1), pred, i);
                assert(c[i] == opened_host(f[i], line));
                assert(c[i].config[0] == line);
            }
        } else {
            let c = current.map_values(|h: HostView| with_config_line(h, line));
            assert forall|i: int| 0 <= i < c.len() implies from_host_line(#[trigger] c[i]) by {
                assert(c[i] == with_config_line(current[i], line));
                assert(c[i].config[0] == current[i].config[0]);
            }
        }
    }
}

/// Every host read from a configuration comes from a `Host` line: it names
/// one machine, one of the patterns of the line its configuration starts
/// with, it connects through `localhost`, and it has no description.
pub proof fn law_hosts_come_from_host_lines(content: Seq<char>)
    ensures
        forall|i: int| 0 <= i < config_hosts(content).len() ==> from_host_line(
            #[trigger] config_hosts(content)[i],
        ),
{
    let (done, current) = parse_lines(lines_of(content));
    lemma_parse_from_host_lines(lines_of(content));
    let d = done + current;
    assert forall|i: int| 0 <= i < d.len() implies from_host_line(#[trigger] d[i]) by {
        if i < done.len() {
            assert(d[i] == done[i]);
        } else {
            assert(d[i] == current[i - done.len()]);
        }
    }
}


/// Every configuration line of `host` is one of `lines`.
pub open spec fn config_from(host: HostView, lines: Seq<Seq<char>>) -> bool {
    forall|j: int| 0 <= j < host.config.len() ==> lines.contains(#[trigger] host.config[j])
}

/// The configuration lines of the hosts read so far, or still open, are
/// lines read, tabs expanded.
proof fn lemma_parse_config_from_lines(lines: Seq<Seq<char>>)
    ensures
        forall|i: int| 0 <= i < parse_lines(lines).0.len() ==> config_from(
            #[trigger] parse_lines(lines).0[i],
            lines.map_values(|l: Seq<char>| expand_tabs(l)),
        ),
        forall|i: int| 0 <= i < parse_lines(lines).1.len() ==> config_from(
            #[trigger] parse_lines(lines).1[i],
            lines.map_values(|l: Seq<char>| expand_tabs(l)),
        ),
    decreases lines.len(),
{
    if lines.len() > 0 {
        let before = lines.drop_last();
        lemma_parse_config_from_lines(before);
        let all = lines.map_values(|l: Seq<char>| expand_tabs(l));
        let prev = before.map_values(|l: Seq<char>| expand_tabs(l));
        assert(prev =~= all.drop_last());
        let (done, current) = parse_lines(before);
        let line = expand_tabs(lines.last());
        assert(all[all.len() - 1] == line);
        assert forall|h: HostView| config_from(h, prev) implies config_from(h, all) by {
            assert forall|j: int| 0 <= j < h.config.len() implies all.contains(#[trigger] h.config[j]) by {
                let k = choose|k: int| 0 <= k < prev.len() && prev[k] == h.config[j];
                assert(all[k] == prev[k]);
            }
        }
        let w = words(line);
        let (d2, c2) = parse_lines(lines);
        assert forall|i: int| 0 <= i < d2.len() implies config_from(#[trigger] d2[i], all) by {
            if i < done.len() {
                assert(d2[i] == done[i]);
            } else {
                assert(d2[i] == current[i - done.len()]);
            }
        }
        assert forall|i: int| 0 <= i < c2.len() implies config_from(#[trigger] c2[i], all) by {
            if w.len() == 0 || w[0][0] == '#' {
            } else if is_host_keyword(w[0]) {
                let f = w.skip(1).filter(|p: Seq<char>| connectable(p));
                assert(c2[i] == opened_host(f[i], line));
                assert forall|j: int| 0 <= j < c2[i].config.len() implies all.contains(
                    #[trigger] c2[i].config[j],
                ) by {
                    assert(c2[i].config[j] == all[all.len() - 1]);
                }
            } else {
                assert(c2[i] == with_config_line(current[i], line));
                assert forall|j: int| 0 <= j < c2[i].config.len() implies all.contains(
                    #[trigger] c2[i].config[j],
                ) by {
                    if j < current[i].config.len() {
                        assert(c2[i].config[j] == current[i].config[j]);
                    } else {
                        assert(c2[i].config[j] == all[all.len() - 1]);
                    }
                }
            }
        }
    }
}

/// Every configuration line of a host read from `content` is a line of
/// `content`, its tabs replaced by four spaces.
pub proof fn law_config_lines_come_from_content(content: Seq<char>)
    ensures
        forall|i: int| 0 <= i < config_hosts(content).len() ==> config_from(
            #[trigger] config_hosts(content)[i],
            lines_of(content).map_values(|l: Seq<char>| expand_tabs(l)),
        ),
{
    let (done, current) = parse_lines(lines_of(content));
    lemma_parse_config_from_lines(lines_of(content));
    let d = done + current;
    assert forall|i: int| 0 <= i < d.len() implies config_from(
        #[trigger] d[i],
        lines_of(content).map_values(|l: Seq<char>| expand_tabs(l)),
    ) by {
        if i < done.len() {
            assert(d[i] == done[i]);
        } else {
            assert(d[i] == current[i - done.len()]);
        }
    }
}


/// A line that the reading skips: blank once tabs are expanded, or a
/// comment, its first word starting with `#`.
pub open spec fn is_skipped_line(raw: Seq<char>) -> bool {
    let w = words(expand_tabs(raw));
    w.len() == 0 || w[0][0] == '#'
}

/// Only the lines that are not skipped count.
proof fn lemma_parse_ignores_skipped(lines: Seq<Seq<char>>)
    ensures
        parse_lines(lines) == parse_lines(lines.filter(|l: Seq<char>| !is_skipped_line(l))),
    decreases lines.len(),
{
    reveal_with_fuel(Seq::filter, 1);
    if lines.len() > 0 {
        lemma_parse_ignores_skipped(lines.drop_last());
        let kept = lines.filter(|l: Seq<char>| !is_skipped_line(l));
        let kept0 = lines.drop_last().filter(|l: Seq<char>| !is_skipped_line(l));
        if !is_skipped_line(lines.last()) {
            assert(kept.drop_last() == kept0);
            assert(kept.last() == lines.last());
        }
    }
}

/// Blank lines and comments change nothing: two configurations whose other
/// lines are the same, in the same order, give the same hosts, whatever
/// blank or comment lines stand between them.
pub proof fn law_skipped_lines_change_nothing(content1: Seq<char>, content2: Seq<char>)
    requires
        lines_of(content1).filter(|l: Seq<char>| !is_skipped_line(l)) == lines_of(content2).filter(
            |l: Seq<char>| !is_skipped_line(l),
        ),
    ensures
        config_hosts(content1) == config_hosts(content2),
{
    lemma_parse_ignores_skipped(lines_of(content1));
    lemma_parse_ignores_skipped(lines_of(content2));
}

/// Inserting one blank or comment line into a configuration changes none of
/// its hosts.
pub proof fn law_inserting_skipped_line_changes_nothing(
    content1: Seq<char>,
    content2: Seq<char>,
    before: Seq<Seq<char>>,
    line: Seq<char>,
    after: Seq<Seq<char>>,
)
    requires
        lines_of(content1) == before + after,
        lines_of(content2) == before + seq![line] + after,
        is_skipped_line(line),
    ensures
        config_hosts(content1) == config_hosts(content2),
{
    broadcast use Seq::filter_distributes_over_add;
    let pred = |l: Seq<char>| !is_skipped_line(l);
    assert(seq![line].filter(pred) =~= Seq::<Seq<char>>::empty()) by {
        reveal_with_fuel(Seq::filter, 2);
        assert(seq![line].drop_last() =~= Seq::<Seq<char>>::empty());
    }
    assert((before + seq![line] + after).filter(pred) == before.filter(pred) + seq![line].filter(pred)
        + after.filter(pred));
    assert((before + after).filter(pred) == (before + seq![line] + after).filter(pred));
    law_skipped_lines_change_nothing(content1, content2);
}

} // verus!

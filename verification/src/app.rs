//! The state of the host browser and what each key press does to it.

use vstd::prelude::*;

use crate::host::{
    checked_size, fits_depth, entry_macthes_query, entry_matches, law_empty_query_shows_all,
    law_query_filters_full_list, lemma_list_fits_index, list_fits, list_size, visible_entry,
    visible_list, Entry,
};
use crate::text::{highlight, highlight_spec};

verus! {

/// What the keys currently act on.
#[derive(Debug, Clone, Copy, PartialEq, Eq, Structural)]
pub enum Mode {
    /// Moving through the host list.
    Normal,
    /// Typing the fuzzy search query.
    Finder,
    /// Looking at the selected host, ready to connect to it.
    Details,
}

/// The state of the host browser.
#[derive(Debug)]
pub struct App {
    pub entries: Vec<Entry>,
    pub selected: usize,
    pub query: String,
    pub connect_target: Option<String>,
    pub mode: Mode,
    pub exit: bool,
}

/// An entry as the list shows it: the entry and how deep it is nested.
#[derive(Debug)]
pub struct VisibleEntry<'a> {
    pub depth: usize,
    pub entry: &'a Entry,
}

/// A key press, as far as the browser tells keys apart.
#[derive(Debug, Clone, Copy, PartialEq, Eq, Structural)]
pub enum Key {
    Char(char),
    Up,
    Down,
    Enter,
    Esc,
    Backspace,
    /// Any other key: it does nothing.
    Other,
}

/// The browser state in mathematical terms.
pub struct AppView {
    pub entries: Seq<Entry>,
    pub selected: int,
    pub query: Seq<char>,
    pub connect_target: Option<Seq<char>>,
    pub mode: Mode,
    pub exit: bool,
}

impl View for App {
    type V = AppView;

    open spec fn view(&self) -> AppView {
        AppView {
            entries: self.entries@,
            selected: self.selected as int,
            query: self.query@,
            connect_target: match self.connect_target {
                Some(t) => Some(t@),
                None => None,
            },
            mode: self.mode,
            exit: self.exit,
        }
    }
}

impl AppView {
    /// The states the browser can be in: the entries, counted with the
    /// content of folders, and the depth of each fit a `usize`, and so does
    /// the position after the selection.
    pub open spec fn wf(self) -> bool {
        &&& list_fits(self.entries, 0)
        &&& list_size(self.entries) <= usize::MAX
        &&& 0 <= self.selected < usize::MAX
    }

    /// The states in which `key` can be handled: the depth of each entry fits
    /// a `usize`, and so does the position after the selection when the key
    /// moves it down.
    pub open spec fn accepts(self, key: Key) -> bool {
        &&& list_fits(self.entries, 0)
        &&& self.mode == Mode::Normal && (key == Key::Down || key == Key::Char('j')) ==> self.selected
            < usize::MAX
    }

    /// The list as shown: depth and entry, in order.
    pub open spec fn visible(self) -> Seq<(int, Entry)> {
        visible_list(self.entries, 0, self.query)
    }

    /// The entry under the selection, if the selection lies in the list.
    pub open spec fn selected_entry(self) -> Option<Entry> {
        if 0 <= self.selected < self.visible().len() {
            Some(self.visible()[self.selected].1)
        } else {
            None
        }
    }

    /// The state after leaving the browser.
    pub open spec fn exited(self) -> AppView {
        AppView { exit: true, ..self }
    }

    /// The state after moving the selection down, from the last entry back
    /// to the first.
    pub open spec fn next(self) -> AppView {
        let n = self.visible().len();
        if n == 0 {
            self
        } else {
            AppView { selected: (self.selected + 1) % (n as int), ..self }
        }
    }

    /// The state after moving the selection up, from the first entry back to
    /// the last.
    pub open spec fn previous(self) -> AppView {
        let n = self.visible().len();
        if n == 0 {
            self
        } else {
            AppView { selected: if self.selected > 0 { self.selected - 1 } else { n - 1 }, ..self }
        }
    }

    /// The state after asking to connect: with a host selected, its name
    /// becomes the target and the browser exits; otherwise nothing changes.
    pub open spec fn connected(self) -> AppView {
        match self.selected_entry() {
            Some(Entry::Host(host)) => AppView {
                connect_target: Some(host.name@),
                exit: true,
                ..self
            },
            _ => self,
        }
    }

    /// The state in another mode.
    pub open spec fn with_mode(self, mode: Mode) -> AppView {
        AppView { mode, ..self }
    }

    /// The state with `c` typed into the query, in finder mode.
    pub open spec fn typed(self, c: char) -> AppView {
        AppView { mode: Mode::Finder, query: self.query.push(c), ..self }
    }

    /// The state with the query emptied, back in normal mode.
    pub open spec fn cleared(self) -> AppView {
        AppView { mode: Mode::Normal, query: Seq::empty(), ..self }
    }

    /// What a key does in normal mode.
    pub open spec fn normal_step(self, key: Key) -> AppView {
        match key {
            Key::Char('q') => self.exited(),
            Key::Up | Key::Char('k') => self.previous(),
            Key::Down | Key::Char('j') => self.next(),
            Key::Enter => self.with_mode(Mode::Details),
            Key::Char(' ') => self,
            Key::Char('f') => self.with_mode(Mode::Finder),
            Key::Char(c) => self.typed(c),
            _ => self,
        }
    }

    /// What a key does in details mode.
    pub open spec fn details_step(self, key: Key) -> AppView {
        match key {
            Key::Char('q') => self.exited(),
            Key::Enter => self.connected(),
            Key::Esc => self.cleared(),
            Key::Char(' ') => self,
            Key::Char('f') => self.with_mode(Mode::Finder),
            Key::Char(c) => self.typed(c),
            _ => self,
        }
    }

    /// What a key does in finder mode.
    pub open spec fn finder_step(self, key: Key) -> AppView {
        match key {
            Key::Backspace => AppView {
                query: if self.query.len() > 0 { self.query.drop_last() } else { self.query },
                ..self
            },
            Key::Enter => self.with_mode(Mode::Normal),
            Key::Esc => self.cleared(),
            Key::Char(' ') => self,
            Key::Char(c) => AppView { query: self.query.push(c), ..self },
            _ => self,
        }
    }

    /// What a key does in the current mode.
    pub open spec fn step(self, key: Key) -> AppView {
        match self.mode {
            Mode::Normal => self.normal_step(key),
            Mode::Finder => self.finder_step(key),
            Mode::Details => self.details_step(key),
        }
    }
}

/// The name an entry is listed under.
pub open spec fn entry_name(entry: Entry) -> Seq<char> {
    match entry {
        Entry::Host(host) => host.name@,
        Entry::Folder(folder) => folder.name@,
    }
}

/// The line of the list for an entry at `depth`: two spaces per level, a
/// space, then the name.
pub open spec fn label_spec(depth: int, name: Seq<char>) -> Seq<char> {
    Seq::new((2 * depth) as nat, |i: int| ' ') + seq![' '] + name
}

/// The shown entries as depth and entry.
pub open spec fn visible_view(v: Seq<VisibleEntry>) -> Seq<(int, Entry)> {
    v.map_values(|e: VisibleEntry| (e.depth as int, *e.entry))
}

/// Appends to `out` what the list shows of `entries` at `depth` for `query`.
fn walk<'a>(entries: &'a Vec<Entry>, depth: usize, query: &str, out: &mut Vec<VisibleEntry<'a>>)
    requires
        list_fits(entries@, depth as int),
    ensures
        visible_view(final(out)@) == visible_view(old(out)@) + visible_list(
            entries@,
            depth as int,
            query@,
        ),
    decreases entries@,
{
    let n = entries.len();
    let mut i: usize = 0;
    while i < n
        invariant
            n == entries@.len(),
            0 <= i <= n,
            list_fits(entries@, depth as int),
            visible_view(out@) == visible_view(old(out)@) + visible_list(
                entries@.take(i as int),
                depth as int,
                query@,
            ),
        decreases n - i,
    {
        let entry: &'a Entry = &entries[i];
        let ghost before = out@;
        proof {
            lemma_list_fits_index(entries@, depth as int, i as int);
            assert(entries@.take(i + 1).drop_last() == entries@.take(i as int));
        }
        if query.is_empty() || entry_macthes_query(entry, query) {
            out.push(VisibleEntry { depth, entry });
        }
        if let Entry::Folder(folder) = entry {
            proof {
                assert(decreases_to!(entries@ => entries@[i as int]));
            }
            walk(&folder.children, depth + 1, query, out);
        }
        proof {
            assert(visible_view(out@) == visible_view(before) + visible_entry(
                entries@[i as int],
                depth as int,
                query@,
            ));
        }
        i = i + 1;
    }
    proof {
        assert(entries@.take(n as int) == entries@);
    }
}


impl<'a> VisibleEntry<'a> {
    /// The line of the list for this entry: two spaces per level of depth, a
    /// space, then the name of the entry.
    pub fn label(&self) -> (r: String)
        ensures
            r@ == label_spec(self.depth as int, entry_name(*self.entry)),
    {
        let mut r = String::new();
        let mut level: usize = 0;
        while level < self.depth
            invariant
                0 <= level <= self.depth,
                r@ == Seq::new((2 * level) as nat, |i: int| ' '),
            decreases self.depth - level,
        {
            r.push(' ');
            r.push(' ');
            level = level + 1;
            proof {
                assert(r@ =~= Seq::new((2 * level) as nat, |i: int| ' '));
            }
        }
        r.push(' ');
        let name = match self.entry {
            Entry::Host(host) => host.name.as_str(),
            Entry::Folder(folder) => folder.name.as_str(),
        };
        r.append(name);
        proof {
            assert(r@ =~= label_spec(self.depth as int, entry_name(*self.entry)));
        }
        r
    }
}

impl App {
    /// Each character of `text` with whether the list highlights it for the
    /// query: scanning the text, a character is highlighted when it equals,
    /// up to ASCII case, the first query character not yet highlighted.
    pub fn highlight_matches(&self, text: &str) -> (r: Vec<(char, bool)>)
        ensures
            r@ == highlight_spec(self.query@, text@),
    {
        highlight(self.query.as_str(), text)
    }

    /// A browser over `entries`: nothing selected but the first entry, an
    /// empty query, normal mode, no connection target.
    pub fn new(entries: Vec<Entry>) -> (app: App)
        ensures
            app@ == (AppView {
                entries: entries@,
                selected: 0,
                query: Seq::empty(),
                connect_target: None,
                mode: Mode::Normal,
                exit: false,
            }),
    {
        App {
            entries,
            selected: 0,
            query: String::new(),
            connect_target: None,
            mode: Mode::Normal,
            exit: false,
        }
    }

    /// Whether the browser is in a state its key handling accepts: the
    /// entries, counted with folder contents, and their depths fit a `usize`,
    /// and so does the position after the selection.
    pub fn well_formed(&self) -> (r: bool)
        ensures
            r == self@.wf(),
    {
        checked_size(&self.entries, 0).is_some() && self.selected < usize::MAX
    }

    /// Whether the depth of every entry fits a `usize`, as listing the entries
    /// needs.
    pub fn depth_fits(&self) -> (r: bool)
        ensures
            r == list_fits(self.entries@, 0),
    {
        fits_depth(&self.entries, 0)
    }

    /// Whether `key` can be handled in the current state.
    pub fn accepts_key(&self, key: Key) -> (r: bool)
        ensures
            r == self@.accepts(key),
    {
        self.depth_fits() && (!(self.mode == Mode::Normal && (key == Key::Down || key == Key::Char(
            'j',
        ))) || self.selected < usize::MAX)
    }

    /// The entries the list shows, in order, each with its depth: all of them
    /// when the query is empty, else those that match it; the content of a
    /// folder follows it, one level deeper, whether the folder is shown or not.
    pub fn visible_entries(&self) -> (r: Vec<VisibleEntry<'_>>)
        requires
            list_fits(self.entries@, 0),
        ensures
            visible_view(r@) == self@.visible(),
    {
        let mut out: Vec<VisibleEntry<'_>> = Vec::new();
        walk(&self.entries, 0, self.query.as_str(), &mut out);
        out
    }

    /// The selected entry, if the selection lies in the list as shown.
    pub fn selected_entry(&self) -> (r: Option<&Entry>)
        requires
            list_fits(self.entries@, 0),
        ensures
            match r {
                Some(e) => self@.selected_entry() == Some(*e),
                None => self@.selected_entry() is None,
            },
    {
        let visible = self.visible_entries();
        if self.selected < visible.len() {
            Some(visible[self.selected].entry)
        } else {
            None
        }
    }

    /// Leaves the browser.
    pub fn exit(&mut self)
        ensures
            final(self)@ == old(self)@.exited(),
    {
        self.exit = true;
    }

    /// Moves the selection down, from the last entry back to the first; an
    /// empty list leaves it as it is.
    pub fn next_entry(&mut self)
        requires
            list_fits(old(self).entries@, 0),
            old(self).selected < usize::MAX,
        ensures
            final(self)@ == old(self)@.next(),
            old(self)@.wf() ==> final(self)@.wf(),
    {
        let visible_len = self.visible_entries().len();
        if visible_len == 0 {
            return;
        }
        self.selected = (self.selected + 1) % visible_len;
    }

    /// Moves the selection up, from the first entry back to the last; an empty
    /// list leaves it as it is.
    pub fn previous_entry(&mut self)
        requires
            list_fits(old(self).entries@, 0),
        ensures
            final(self)@ == old(self)@.previous(),
            old(self)@.wf() ==> final(self)@.wf(),
    {
        let visible_len = self.visible_entries().len();
        if visible_len == 0 {
            return;
        }
        self.selected = match self.selected.checked_sub(1) {
            Some(s) => s,
            None => visible_len - 1,
        };
    }

    /// With a host selected, makes its name the connection target and leaves
    /// the browser; otherwise does nothing.
    pub fn connect_selected(&mut self)
        requires
            list_fits(old(self).entries@, 0),
        ensures
            final(self)@ == old(self)@.connected(),
    {
        let target = match self.selected_entry() {
            Some(Entry::Host(host)) => host.name.clone(),
            _ => {
                return;
            },
        };
        self.connect_target = Some(target);
        self.exit = true;
    }

    /// Handles a key in normal mode: `q` leaves, up and `k` move up, down and
    /// `j` move down, enter shows the details, `f` opens the finder, a space
    /// does nothing, and any other character opens the finder with that
    /// character typed into the query.
    pub fn handle_normal_key_event(&mut self, key: Key)
        requires
            list_fits(old(self).entries@, 0),
            key == Key::Down || key == Key::Char('j') ==> old(self).selected < usize::MAX,
        ensures
            final(self)@ == old(self)@.normal_step(key),
            old(self)@.wf() ==> final(self)@.wf(),
    {
        match key {
            Key::Char('q') => self.exit(),
            Key::Up | Key::Char('k') => self.previous_entry(),
            Key::Down | Key::Char('j') => self.next_entry(),
            Key::Enter => self.mode = Mode::Details,
            Key::Char(' ') => {},
            Key::Char('f') => self.mode = Mode::Finder,
            Key::Char(c) => {
                self.mode = Mode::Finder;
                self.query.push(c);
            },
            _ => {},
        }
    }

    /// Handles a key in details mode: `q` leaves, enter connects to the
    /// selected host, escape empties the query and goes back to normal mode,
    /// `f` opens the finder, a space does nothing, and any other character
    /// opens the finder with that character typed into the query.
    pub fn handle_details_key_event(&mut self, key: Key)
        requires
            list_fits(old(self).entries@, 0),
        ensures
            final(self)@ == old(self)@.details_step(key),
            old(self)@.wf() ==> final(self)@.wf(),
    {
        match key {
            Key::Char('q') => self.exit(),
            Key::Enter => {
                self.connect_selected();
            },
            Key::Esc => {
                self.query = String::new();
                self.mode = Mode::Normal;
            },
            Key::Char(' ') => {},
            Key::Char('f') => self.mode = Mode::Finder,
            Key::Char(c) => {
                self.mode = Mode::Finder;
                self.query.push(c);
            },
            _ => {},
        }
    }

    /// Handles a key in finder mode: backspace removes the last character of
    /// the query, enter goes back to normal mode keeping the query, escape
    /// empties it and goes back to normal mode, a space does nothing, and any
    /// other character is typed into the query.
    pub fn handle_finder_key_event(&mut self, key: Key)
        ensures
            final(self)@ == old(self)@.finder_step(key),
            old(self)@.wf() ==> final(self)@.wf(),
    {
        match key {
            Key::Backspace => {
                self.query.pop();
            },
            Key::Enter => self.mode = Mode::Normal,
            Key::Esc => {
                self.query = String::new();
                self.mode = Mode::Normal;
            },
            Key::Char(' ') => {},
            Key::Char(c) => self.query.push(c),
            _ => {},
        }
    }

    /// Handles a key press in the current mode.
    pub fn handle_key_event(&mut self, key: Key)
        requires
            old(self)@.accepts(key),
        ensures
            final(self)@ == old(self)@.step(key),
            old(self)@.wf() ==> final(self)@.wf(),
    {
        match self.mode {
            Mode::Normal => self.handle_normal_key_event(key),
            Mode::Finder => self.handle_finder_key_event(key),
            Mode::Details => self.handle_details_key_event(key),
        }
    }
}

/// The list never shows more entries than there are.
pub proof fn lemma_visible_within_size(entries: Seq<Entry>, query: Seq<char>)
    ensures
        visible_list(entries, 0, query).len() <= list_size(entries),
{
    law_empty_query_shows_all(entries, 0);
    if query.len() > 0 {
        law_query_filters_full_list(entries, 0, query);
        visible_list(entries, 0, Seq::empty()).lemma_filter_len(
            |p: (int, Entry)| entry_matches(p.1, query),
        );
    } else {
        assert(query =~= Seq::<char>::empty());
    }
}

/// Moving down and then up, or up and then down, comes back to the same
/// entry; either move keeps the selection in the list.
pub proof fn law_next_previous_undo(v: AppView)
    requires
        0 <= v.selected < v.visible().len(),
    ensures
        v.next().previous() == v,
        v.previous().next() == v,
        0 <= v.next().selected < v.visible().len(),
        0 <= v.previous().selected < v.visible().len(),
{
    law_next_cycles(v);
    law_next_cycles(v.previous());
}

/// Moving down from a selection in the list goes one entry further, or back
/// to the first entry from the last, and leaves the list as it is.
pub proof fn law_next_cycles(v: AppView)
    requires
        0 <= v.selected < v.visible().len(),
    ensures
        v.next().selected == (if v.selected + 1 < v.visible().len() { v.selected + 1 } else { 0 }),
        v.next().visible() == v.visible(),
{
    let n = v.visible().len() as int;
    let s = v.selected;
    if s + 1 < n {
        assert((s + 1) % n == s + 1) by (nonlinear_arith)
            requires
                0 <= s + 1 < n,
        ;
    } else {
        assert((s + 1) % n == 0) by (nonlinear_arith)
            requires
                s + 1 == n,
                n > 0,
        ;
    }
}

/// Every key keeps the browser in a well-formed state and leaves the entries
/// as they are.
pub proof fn law_step_keeps_wf(v: AppView, key: Key)
    requires
        v.wf(),
    ensures
        v.step(key).wf(),
        v.step(key).entries == v.entries,
{
    lemma_visible_within_size(v.entries, v.query);
    let n = v.visible().len() as int;
    if n > 0 {
        let s = v.selected;
        assert(0 <= (s + 1) % n < n) by (nonlinear_arith)
            requires
                n > 0,
                s >= 0,
        ;
    }
}

/// In the finder, backspace takes back a character just typed.
pub proof fn law_backspace_undoes_typing(v: AppView, c: char)
    requires
        v.mode == Mode::Finder,
        c != ' ',
    ensures
        v.step(Key::Char(c)).step(Key::Backspace) == v,
{
    assert(v.query.push(c).drop_last() =~= v.query);
}

/// Escape, in the finder or on the details, empties the query and goes back
/// to normal mode, whatever else the state holds.
pub proof fn law_escape_resets_query(v: AppView)
    requires
        v.mode != Mode::Normal,
    ensures
        v.step(Key::Esc).query == Seq::<char>::empty(),
        v.step(Key::Esc).mode == Mode::Normal,
        v.step(Key::Esc).selected == v.selected,
{
}

/// The browser only ever leaves with a target that is the name of the
/// selected host: a key that sets a new target selects a host of that name
/// and leaves.
pub proof fn law_target_is_selected_host(v: AppView, key: Key)
    requires
        v.step(key).connect_target != v.connect_target,
    ensures
        v.step(key).exit,
        v.selected_entry() matches Some(Entry::Host(host)) && v.step(key).connect_target == Some(
            host.name@,
        ),
{
}


/// Keys never type a space into the query, never set a target without
/// leaving, never come back from leaving, and never change the entries.
pub proof fn law_keys_keep_state_sane(v: AppView, key: Key)
    requires
        !v.query.contains(' '),
        v.connect_target is Some ==> v.exit,
    ensures
        !v.step(key).query.contains(' '),
        v.step(key).connect_target is Some ==> v.step(key).exit,
        v.exit ==> v.step(key).exit,
        v.step(key).entries == v.entries,
{
    let q = v.step(key).query;
    if q.contains(' ') {
        let i = choose|i: int| 0 <= i < q.len() && q[i] == ' ';
        if q.len() > v.query.len() {
            if i < v.query.len() {
                assert(v.query[i] == ' ');
            }
        } else if q.len() < v.query.len() {
            assert(q[i] == v.query[i]);
        }
    }
}

/// Which keys do what: the finder never opens the details; only Enter on
/// the details sets a target; only `q` outside the finder, or Enter on the
/// details, leaves.
pub proof fn law_which_keys_leave(v: AppView, key: Key)
    ensures
        v.mode == Mode::Finder ==> v.step(key).mode != Mode::Details,
        v.step(key).connect_target != v.connect_target ==> v.mode == Mode::Details && key
            == Key::Enter,
        v.step(key).exit && !v.exit ==> (key == Key::Char('q') && v.mode != Mode::Finder) || (key
            == Key::Enter && v.mode == Mode::Details),
{
}

} // verus!

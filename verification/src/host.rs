//! The entries of the host list: hosts to connect to, and folders of entries.

use vstd::prelude::*;

use crate::text::{
    embeds_at, fuzzy_match, fuzzy_spec, is_subsequence, law_match_ignores_ascii_case, lower_seq,
};

verus! {

/// An item of the host list.
#[derive(Debug)]
pub enum Entry {
    Host(Host),
    Folder(Folder),
}

/// A named group of entries, shown above them, one level less indented.
#[derive(Debug)]
pub struct Folder {
    pub name: String,
    pub children: Vec<Entry>,
}

/// A host that can be connected to, with the configuration lines that
/// describe it.
#[derive(Debug)]
pub struct Host {
    pub name: String,
    pub target: String,
    pub config: Vec<String>,
    pub description: String,
}

/// `copy` holds the same host as `host`.
pub open spec fn host_copy(host: Host, copy: Host) -> bool {
    &&& copy.name == host.name
    &&& copy.target == host.target
    &&& copy.config@ == host.config@
    &&& copy.description == host.description
}

/// `copy` holds the same entry as `entry`, folder contents included.
pub open spec fn entry_copy(entry: Entry, copy: Entry) -> bool
    decreases entry,
{
    match (entry, copy) {
        (Entry::Host(h), Entry::Host(c)) => host_copy(h, c),
        (Entry::Folder(f), Entry::Folder(c)) => {
            &&& c.name == f.name
            &&& c.children@.len() == f.children@.len()
            &&& forall|i: int|
                0 <= i < f.children@.len() ==> entry_copy(
                    #[trigger] f.children@[i],
                    c.children@[i],
                )
        },
        _ => false,
    }
}

impl Clone for Host {
    /// A copy of the host.
    fn clone(&self) -> (r: Self)
        ensures
            host_copy(*self, r),
    {
        let mut config: Vec<String> = Vec::new();
        let mut i: usize = 0;
        while i < self.config.len()
            invariant
                0 <= i <= self.config@.len(),
                config@ == self.config@.take(i as int),
            decreases self.config@.len() - i,
        {
            config.push(self.config[i].clone());
            proof {
                assert(self.config@.take(i + 1) == self.config@.take(i as int).push(self.config@[i as int]));
            }
            i = i + 1;
        }
        proof {
            assert(self.config@.take(self.config@.len() as int) == self.config@);
        }
        Host {
            name: self.name.clone(),
            target: self.target.clone(),
            config,
            description: self.description.clone(),
        }
    }
}

impl Clone for Entry {
    /// A copy of the entry, with copies of the content of folders.
    fn clone(&self) -> (r: Self)
        ensures
            entry_copy(*self, r),
        decreases self,
    {
        match self {
            Entry::Host(host) => Entry::Host(host.clone()),
            Entry::Folder(folder) => Entry::Folder(folder.clone()),
        }
    }
}

impl Clone for Folder {
    /// A copy of the folder, with copies of its entries.
    fn clone(&self) -> (r: Self)
        ensures
            entry_copy(Entry::Folder(*self), Entry::Folder(r)),
        decreases self,
    {
        let mut children: Vec<Entry> = Vec::new();
        let mut i: usize = 0;
        while i < self.children.len()
            invariant
                0 <= i <= self.children@.len(),
                children@.len() == i,
                forall|j: int| 0 <= j < i ==> entry_copy(#[trigger] self.children@[j], children@[j]),
            decreases self.children@.len() - i,
        {
            proof {
                assert(decreases_to!(self => self.children@[i as int]));
            }
            let c = self.children[i].clone();
            children.push(c);
            i = i + 1;
        }
        Folder { name: self.name.clone(), children }
    }
}

/// Whether `entry` matches the fuzzy `query`: a host by its name, its target
/// or its description, a folder by its name.
pub open spec fn entry_matches(entry: Entry, query: Seq<char>) -> bool {
    match entry {
        Entry::Host(host) => fuzzy_spec(query, host.name@) || fuzzy_spec(query, host.target@)
            || fuzzy_spec(query, host.description@),
        Entry::Folder(folder) => fuzzy_spec(query, folder.name@),
    }
}

/// Whether `entry` matches the fuzzy `query`: a host by its name, its target
/// or its description, a folder by its name.
pub fn entry_macthes_query(entry: &Entry, query: &str) -> (r: bool)
    ensures
        r == entry_matches(*entry, query@),
{
    match entry {
        Entry::Host(host) => {
            fuzzy_match(query, host.name.as_str()) || fuzzy_match(query, host.target.as_str())
                || fuzzy_match(query, host.description.as_str())
        },
        Entry::Folder(folder) => fuzzy_match(query, folder.name.as_str()),
    }
}

/// The entries of `entries`, each at `depth`, the content of each folder right
/// below it one level deeper, that the list shows for `query`: every entry
/// when the query is empty, else those that match it.
pub open spec fn visible_list(entries: Seq<Entry>, depth: int, query: Seq<char>) -> Seq<(int, Entry)>
    decreases entries, 0int,
{
    if entries.len() == 0 {
        seq![]
    } else {
        visible_list(entries.drop_last(), depth, query) + visible_entry(entries.last(), depth, query)
    }
}

/// What `visible_list` shows of one entry at `depth`: the entry itself if it
/// is shown, then, for a folder, what is shown of its content one level deeper.
pub open spec fn visible_entry(entry: Entry, depth: int, query: Seq<char>) -> Seq<(int, Entry)>
    decreases entry, 1int,
{
    let own: Seq<(int, Entry)> = if query.len() == 0 || entry_matches(entry, query) {
        seq![(depth, entry)]
    } else {
        seq![]
    };
    match entry {
        Entry::Host(_) => own,
        Entry::Folder(folder) => own + visible_list(folder.children@, depth + 1, query),
    }
}


/// No folder of `entries`, placed at `depth`, lies so deep that the depth of
/// its content overflows a `usize`.
pub open spec fn list_fits(entries: Seq<Entry>, depth: int) -> bool
    decreases entries, 0int,
{
    entries.len() == 0 || (list_fits(entries.drop_last(), depth) && entry_fits(entries.last(), depth))
}

/// `entry`, placed at `depth`, is no folder whose content would lie deeper
/// than a `usize` can count.
pub open spec fn entry_fits(entry: Entry, depth: int) -> bool
    decreases entry, 1int,
{
    match entry {
        Entry::Host(_) => true,
        Entry::Folder(folder) => depth < usize::MAX && list_fits(folder.children@, depth + 1),
    }
}

/// A list fits when each of its entries fits.
pub proof fn lemma_list_fits_index(entries: Seq<Entry>, depth: int, i: int)
    requires
        list_fits(entries, depth),
        0 <= i < entries.len(),
    ensures
        entry_fits(entries[i], depth),
    decreases entries.len(),
{
    if i < entries.len() - 1 {
        lemma_list_fits_index(entries.drop_last(), depth, i);
    }
}


/// How many entries `entries` hold, the content of folders included.
pub open spec fn list_size(entries: Seq<Entry>) -> nat
    decreases entries, 0int,
{
    if entries.len() == 0 {
        0
    } else {
        list_size(entries.drop_last()) + entry_size(entries.last())
    }
}

/// How many entries `entry` stands for: itself, and for a folder its content.
pub open spec fn entry_size(entry: Entry) -> nat
    decreases entry, 1int,
{
    match entry {
        Entry::Host(_) => 1,
        Entry::Folder(folder) => 1 + list_size(folder.children@),
    }
}

/// With the empty query the list hides nothing: it shows every entry,
/// folder contents included.
pub proof fn law_empty_query_shows_all(entries: Seq<Entry>, depth: int)
    ensures
        visible_list(entries, depth, Seq::empty()).len() == list_size(entries),
    decreases entries, 0int,
{
    if entries.len() > 0 {
        law_empty_query_shows_all(entries.drop_last(), depth);
        lemma_entry_shows_all(entries.last(), depth);
    }
}

/// With the empty query an entry is shown with all its content.
proof fn lemma_entry_shows_all(entry: Entry, depth: int)
    ensures
        visible_entry(entry, depth, Seq::empty()).len() == entry_size(entry),
    decreases entry, 1int,
{
    if let Entry::Folder(folder) = entry {
        law_empty_query_shows_all(folder.children@, depth + 1);
    }
}

/// With a query, the list shows only entries that match it, each at least
/// as deep as the level it was listed from.
pub proof fn law_shown_entries_match(entries: Seq<Entry>, depth: int, query: Seq<char>)
    requires
        query.len() > 0,
    ensures
        forall|i: int|
            0 <= i < visible_list(entries, depth, query).len() ==> entry_matches(
                (#[trigger] visible_list(entries, depth, query)[i]).1,
                query,
            ) && visible_list(entries, depth, query)[i].0 >= depth,
    decreases entries, 0int,
{
    if entries.len() > 0 {
        let a = visible_list(entries.drop_last(), depth, query);
        let b = visible_entry(entries.last(), depth, query);
        law_shown_entries_match(entries.drop_last(), depth, query);
        lemma_entry_shows_matches(entries.last(), depth, query);
        assert forall|i: int| 0 <= i < (a + b).len() implies entry_matches((#[trigger] (a + b)[i]).1, query)
            && (a + b)[i].0 >= depth by {
            if i < a.len() {
                assert((a + b)[i] == a[i]);
            } else {
                assert((a + b)[i] == b[i - a.len()]);
            }
        }
    }
}

/// What is shown of one entry matches the query, at least as deep as it.
proof fn lemma_entry_shows_matches(entry: Entry, depth: int, query: Seq<char>)
    requires
        query.len() > 0,
    ensures
        forall|i: int|
            0 <= i < visible_entry(entry, depth, query).len() ==> entry_matches(
                (#[trigger] visible_entry(entry, depth, query)[i]).1,
                query,
            ) && visible_entry(entry, depth, query)[i].0 >= depth,
    decreases entry, 1int,
{
    let own: Seq<(int, Entry)> = if entry_matches(entry, query) {
        seq![(depth, entry)]
    } else {
        seq![]
    };
    if let Entry::Folder(folder) = entry {
        let sub = visible_list(folder.children@, depth + 1, query);
        law_shown_entries_match(folder.children@, depth + 1, query);
        assert forall|i: int| 0 <= i < (own + sub).len() implies entry_matches(
            (#[trigger] (own + sub)[i]).1,
            query,
        ) && (own + sub)[i].0 >= depth by {
            if i < own.len() {
                assert((own + sub)[i] == own[i]);
            } else {
                assert((own + sub)[i] == sub[i - own.len()]);
            }
        }
    }
}


/// What the list shows for a query: the entries that the empty query shows,
/// at their depths, that match the query, in the same order.
pub proof fn law_query_filters_full_list(entries: Seq<Entry>, depth: int, query: Seq<char>)
    requires
        query.len() > 0,
    ensures
        visible_list(entries, depth, query) == visible_list(entries, depth, Seq::empty()).filter(
            |p: (int, Entry)| entry_matches(p.1, query),
        ),
    decreases entries, 0int,
{
    broadcast use Seq::filter_distributes_over_add;
    reveal_with_fuel(Seq::filter, 1);
    if entries.len() > 0 {
        law_query_filters_full_list(entries.drop_last(), depth, query);
        lemma_entry_filters(entries.last(), depth, query);
    } else {
        assert(visible_list(entries, depth, Seq::empty()).filter(
            |p: (int, Entry)| entry_matches(p.1, query),
        ) =~= Seq::<(int, Entry)>::empty());
    }
}

/// One entry and its content, filtered as `law_query_filters_full_list` says.
proof fn lemma_entry_filters(entry: Entry, depth: int, query: Seq<char>)
    requires
        query.len() > 0,
    ensures
        visible_entry(entry, depth, query) == visible_entry(entry, depth, Seq::empty()).filter(
            |p: (int, Entry)| entry_matches(p.1, query),
        ),
    decreases entry, 1int,
{
    broadcast use Seq::filter_distributes_over_add;
    let pred = |p: (int, Entry)| entry_matches(p.1, query);
    let one: Seq<(int, Entry)> = seq![(depth, entry)];
    assert(one.filter(pred) == (if entry_matches(entry, query) {
        one
    } else {
        Seq::<(int, Entry)>::empty()
    })) by {
        reveal_with_fuel(Seq::filter, 2);
        assert(one.drop_last() =~= Seq::<(int, Entry)>::empty());
    }
    if let Entry::Folder(folder) = entry {
        law_query_filters_full_list(folder.children@, depth + 1, query);
    }
}


/// A prefix of a list holds no more entries than the list.
proof fn lemma_list_size_prefix(entries: Seq<Entry>, i: int)
    requires
        0 <= i <= entries.len(),
    ensures
        list_size(entries.take(i)) <= list_size(entries),
    decreases entries.len(),
{
    if i < entries.len() {
        assert(entries.drop_last().take(i) == entries.take(i));
        lemma_list_size_prefix(entries.drop_last(), i);
    } else {
        assert(entries.take(i) == entries);
    }
}

/// Whether no folder of `entries`, placed at `depth`, lies so deep that the
/// depth of its content overflows a `usize`.
pub fn fits_depth(entries: &Vec<Entry>, depth: usize) -> (r: bool)
    ensures
        r == list_fits(entries@, depth as int),
    decreases entries@,
{
    let n = entries.len();
    let mut i: usize = 0;
    while i < n
        invariant
            n == entries@.len(),
            0 <= i <= n,
            list_fits(entries@.take(i as int), depth as int),
        decreases n - i,
    {
        let ghost s = entries@;
        proof {
            assert(s.take(i + 1).drop_last() == s.take(i as int));
            assert(s.take(i + 1).last() == s[i as int]);
            if list_fits(s, depth as int) {
                lemma_list_fits_index(s, depth as int, i as int);
            }
        }
        if let Entry::Folder(folder) = &entries[i] {
            if depth == usize::MAX {
                return false;
            }
            proof {
                assert(decreases_to!(entries@ => entries@[i as int]));
            }
            if !fits_depth(&folder.children, depth + 1) {
                return false;
            }
        }
        proof {
            assert(entry_fits(s[i as int], depth as int));
            assert(list_fits(s.take(i + 1), depth as int));
        }
        i = i + 1;
    }
    proof {
        assert(entries@.take(n as int) == entries@);
    }
    true
}

/// How many entries `entries`, placed at `depth`, hold with the content of
/// folders, or `None` when that count or the depth of some content does not
/// fit a `usize`.
pub fn checked_size(entries: &Vec<Entry>, depth: usize) -> (r: Option<usize>)
    ensures
        match r {
            Some(n) => list_fits(entries@, depth as int) && n == list_size(entries@),
            None => !(list_fits(entries@, depth as int) && list_size(entries@) <= usize::MAX),
        },
    decreases entries@,
{
    let n = entries.len();
    let mut total: usize = 0;
    let mut i: usize = 0;
    while i < n
        invariant
            n == entries@.len(),
            0 <= i <= n,
            list_fits(entries@.take(i as int), depth as int),
            total == list_size(entries@.take(i as int)),
        decreases n - i,
    {
        let entry = &entries[i];
        let ghost s = entries@;
        proof {
            assert(s.take(i + 1).drop_last() == s.take(i as int));
            assert(s.take(i + 1).last() == s[i as int]);
            lemma_list_size_prefix(s, i + 1);
            if list_fits(s, depth as int) {
                lemma_list_fits_index(s, depth as int, i as int);
            }
        }
        let k: usize = match entry {
            Entry::Host(_) => {
                proof {
                    assert(entry_size(s[i as int]) == 1);
                    assert(entry_fits(s[i as int], depth as int));
                }
                1
            },
            Entry::Folder(folder) => {
                if depth == usize::MAX {
                    return None;
                }
                proof {
                    assert(decreases_to!(entries@ => entries@[i as int]));
                }
                match checked_size(&folder.children, depth + 1) {
                    Some(c) => {
                        if c == usize::MAX {
                            proof {
                                assert(entry_size(s[i as int]) == 1 + c);
                                assert(list_size(s.take(i + 1)) == total + entry_size(s[i as int]));
                            }
                            return None;
                        }
                        proof {
                            assert(entry_size(s[i as int]) == c + 1);
                            assert(entry_fits(s[i as int], depth as int));
                        }
                        c + 1
                    },
                    None => {
                        proof {
                            assert(entry_size(s[i as int]) == 1 + list_size(folder.children@));
                            assert(list_size(s.take(i + 1)) == total + entry_size(s[i as int]));
                        }
                        return None;
                    },
                }
            },
        };
        proof {
            assert(k == entry_size(s[i as int]));
            assert(list_size(s.take(i + 1)) == total + k);
            assert(list_fits(s.take(i + 1), depth as int));
        }
        if total > usize::MAX - k {
            return None;
        }
        total = total + k;
        i = i + 1;
    }
    proof {
        assert(entries@.take(n as int) == entries@);
    }
    Some(total)
}

/// The ASCII case of the query does not change the list.
pub proof fn law_list_ignores_query_case(entries: Seq<Entry>, depth: int, query: Seq<char>)
    ensures
        visible_list(entries, depth, query) == visible_list(entries, depth, lower_seq(query)),
{
    if query.len() > 0 {
        let p1 = |p: (int, Entry)| entry_matches(p.1, query);
        let p2 = |p: (int, Entry)| entry_matches(p.1, lower_seq(query));
        assert forall|p: (int, Entry)| #[trigger] p1(p) == p2(p) by {
            match p.1 {
                Entry::Host(h) => {
                    law_match_ignores_ascii_case(query, h.name@);
                    law_match_ignores_ascii_case(query, h.target@);
                    law_match_ignores_ascii_case(query, h.description@);
                },
                Entry::Folder(f) => {
                    law_match_ignores_ascii_case(query, f.name@);
                },
            }
        }
        assert(p1 =~= p2);
        law_query_filters_full_list(entries, depth, query);
        law_query_filters_full_list(entries, depth, lower_seq(query));
    } else {
        assert(lower_seq(query) =~= query);
    }
}

/// A subsequence stays one when its end is cut off.
proof fn lemma_subsequence_prefix(q: Seq<char>, more: Seq<char>, t: Seq<char>)
    requires
        is_subsequence(q + more, t),
    ensures
        is_subsequence(q, t),
{
    let pos = choose|pos: Seq<int>| #[trigger] embeds_at(q + more, t, pos);
    let p = pos.take(q.len() as int);
    assert forall|i: int| 0 <= i < q.len() implies 0 <= #[trigger] p[i] < t.len() && t[p[i]] == q[i] by {
        assert((q + more)[i] == q[i]);
    }
    assert(embeds_at(q, t, p));
}

/// An entry that matches a query matches every prefix of it.
proof fn lemma_match_prefix(entry: Entry, q: Seq<char>, more: Seq<char>)
    requires
        entry_matches(entry, q + more),
    ensures
        entry_matches(entry, q),
{
    assert(lower_seq(q + more) =~= lower_seq(q) + lower_seq(more));
    match entry {
        Entry::Host(h) => {
            if fuzzy_spec(q + more, h.name@) {
                lemma_subsequence_prefix(lower_seq(q), lower_seq(more), lower_seq(h.name@));
            } else if fuzzy_spec(q + more, h.target@) {
                lemma_subsequence_prefix(lower_seq(q), lower_seq(more), lower_seq(h.target@));
            } else {
                lemma_subsequence_prefix(lower_seq(q), lower_seq(more), lower_seq(h.description@));
            }
        },
        Entry::Folder(f) => {
            lemma_subsequence_prefix(lower_seq(q), lower_seq(more), lower_seq(f.name@));
        },
    }
}

/// Filtering twice, the second time by a stronger test, is filtering once
/// by the stronger test.
proof fn lemma_filter_twice(
    s: Seq<(int, Entry)>,
    weak: spec_fn((int, Entry)) -> bool,
    strong: spec_fn((int, Entry)) -> bool,
)
    requires
        forall|p: (int, Entry)| #[trigger] strong(p) ==> weak(p),
    ensures
        s.filter(strong) == s.filter(weak).filter(strong),
    decreases s.len(),
{
    reveal_with_fuel(Seq::filter, 1);
    if s.len() > 0 {
        lemma_filter_twice(s.drop_last(), weak, strong);
        let fw = s.filter(weak);
        if weak(s.last()) {
            assert(fw.drop_last() == s.drop_last().filter(weak));
            assert(fw.last() == s.last());
        }
    }
}

/// Typing more of a query narrows the list: it shows the entries shown
/// before that match the longer query, in the same order and at the same
/// depths.
pub proof fn law_longer_query_narrows(
    entries: Seq<Entry>,
    depth: int,
    query: Seq<char>,
    more: Seq<char>,
)
    requires
        more.len() > 0,
    ensures
        visible_list(entries, depth, query + more) == visible_list(entries, depth, query).filter(
            |p: (int, Entry)| entry_matches(p.1, query + more),
        ),
{
    let full = visible_list(entries, depth, Seq::empty());
    let strong = |p: (int, Entry)| entry_matches(p.1, query + more);
    law_query_filters_full_list(entries, depth, query + more);
    if query.len() > 0 {
        let weak = |p: (int, Entry)| entry_matches(p.1, query);
        law_query_filters_full_list(entries, depth, query);
        assert forall|p: (int, Entry)| #[trigger] strong(p) implies weak(p) by {
            lemma_match_prefix(p.1, query, more);
        }
        lemma_filter_twice(full, weak, strong);
    } else {
        assert(query =~= Seq::<char>::empty());
    }
}

} // verus!

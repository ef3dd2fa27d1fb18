//! Characters and strings: ASCII case folding, fuzzy subsequence matching.

use vstd::prelude::*;

verus! {

/// `String::push` appends the character to the end of the string.
pub assume_specification[ String::push ](s: &mut String, ch: char)
    ensures
        final(s)@ == old(s)@.push(ch),
;

/// `String::pop` removes the last character of the string and returns it,
/// or returns `None` and leaves an empty string as it is.
pub assume_specification[ String::pop ](s: &mut String) -> (r: Option<char>)
    ensures
        old(s)@.len() == 0 ==> r is None && final(s)@ == old(s)@,
        old(s)@.len() > 0 ==> r == Some(old(s)@.last()) && final(s)@ == old(s)@.drop_last(),
;

/// The ASCII lower-case form of `c`; every other character is left as it is.
pub open spec fn ascii_lower(c: char) -> char {
    if 'A' <= c && c <= 'Z' {
        ((c as u32) + 32) as char
    } else {
        c
    }
}

/// `s` with every ASCII upper-case letter folded to lower case.
pub open spec fn lower_seq(s: Seq<char>) -> Seq<char> {
    s.map_values(|c: char| ascii_lower(c))
}

/// `q` is a subsequence of `t`: the characters of `q` occur in `t`, in order,
/// at strictly increasing positions.
pub open spec fn is_subsequence(q: Seq<char>, t: Seq<char>) -> bool {
    exists|pos: Seq<int>| #[trigger] embeds_at(q, t, pos)
}

/// `pos` places each character of `q` at a position of `t` holding it, the
/// positions strictly increasing.
pub open spec fn embeds_at(q: Seq<char>, t: Seq<char>, pos: Seq<int>) -> bool {
    &&& pos.len() == q.len()
    &&& forall|i: int| 0 <= i < q.len() ==> 0 <= #[trigger] pos[i] < t.len() && t[pos[i]] == q[i]
    &&& forall|i: int, j: int| 0 <= i < j < q.len() ==> pos[i] < pos[j]
}

/// What the fuzzy finder accepts: `query` is, up to ASCII case, a
/// subsequence of `text`.
pub open spec fn fuzzy_spec(query: Seq<char>, text: Seq<char>) -> bool {
    is_subsequence(lower_seq(query), lower_seq(text))
}

/// How many characters of `q` a left-to-right greedy scan of `t` matches.
pub open spec fn greedy_matched(q: Seq<char>, t: Seq<char>) -> nat
    decreases t.len(),
{
    if t.len() == 0 {
        0
    } else {
        let k = greedy_matched(q, t.drop_last());
        if k < q.len() && q[k as int] == t.last() {
            k + 1
        } else {
            k
        }
    }
}

/// The ASCII lower-case form of `c`.
pub fn to_ascii_lower(c: char) -> (r: char)
    ensures
        r == ascii_lower(c),
{
    if 'A' <= c && c <= 'Z' {
        let b: u8 = (c as u8) + 32;
        b as char
    } else {
        c
    }
}


/// Every character of `s`, folded to ASCII lower case, in order.
pub fn lowercase_chars(s: &str) -> (r: Vec<char>)
    ensures
        r@ == lower_seq(s@),
{
    broadcast use vstd::string::group_string_axioms;
    let mut r: Vec<char> = Vec::new();
    for c in it: s.chars()
        invariant
            it.seq() == s@,
            r@ == lower_seq(s@.take(it.index() as int)),
    {
        proof {
            assert(s@.take(it.index() + 1) == s@.take(it.index() as int).push(c));
        }
        r.push(to_ascii_lower(c));
    }
    proof {
        assert(s@.take(s@.len() as int) == s@);
    }
    r
}


/// The greedy count never exceeds the length of `q`.
proof fn lemma_greedy_bounded(q: Seq<char>, t: Seq<char>)
    ensures
        greedy_matched(q, t) <= q.len(),
    decreases t.len(),
{
    if t.len() > 0 {
        lemma_greedy_bounded(q, t.drop_last());
    }
}

/// Scanning a longer prefix of `t` matches at least as much of `q`.
proof fn lemma_greedy_prefix_monotone(q: Seq<char>, t: Seq<char>, i: int)
    requires
        0 <= i <= t.len(),
    ensures
        greedy_matched(q, t.take(i)) <= greedy_matched(q, t),
    decreases t.len(),
{
    if i == t.len() {
        assert(t.take(i) == t);
    } else {
        assert(t.drop_last().take(i) == t.take(i));
        lemma_greedy_prefix_monotone(q, t.drop_last(), i);
    }
}

/// The greedy scan finds an embedding of what it matched.
proof fn lemma_greedy_witness(q: Seq<char>, t: Seq<char>) -> (pos: Seq<int>)
    ensures
        embeds_at(q.take(greedy_matched(q, t) as int), t, pos),
    decreases t.len(),
{
    if t.len() == 0 {
        let pos: Seq<int> = seq![];
        assert(embeds_at(q.take(0), t, pos));
        pos
    } else {
        let p = lemma_greedy_witness(q, t.drop_last());
        lemma_greedy_bounded(q, t.drop_last());
        let k = greedy_matched(q, t.drop_last());
        if k < q.len() && q[k as int] == t.last() {
            let pos = p.push(t.len() - 1);
            let qk = q.take(k + 1 as int);
            assert forall|i: int| 0 <= i < qk.len() implies 0 <= #[trigger] pos[i] < t.len()
                && t[pos[i]] == qk[i] by {
                if i < k {
                    assert(q.take(k as int)[i] == qk[i]);
                }
            }
            assert(embeds_at(qk, t, pos));
            pos
        } else {
            let qk = q.take(k as int);
            assert forall|i: int| 0 <= i < qk.len() implies 0 <= #[trigger] p[i] < t.len()
                && t[p[i]] == qk[i] by {
                assert(t.drop_last()[p[i]] == t[p[i]]);
            }
            p
        }
    }
}

/// No embedding of a prefix of `q` is longer than what the greedy scan matches.
proof fn lemma_greedy_complete(q: Seq<char>, t: Seq<char>, k: int, pos: Seq<int>)
    requires
        0 <= k <= q.len(),
        embeds_at(q.take(k), t, pos),
    ensures
        k <= greedy_matched(q, t),
    decreases t.len(),
{
    if k == 0 {
    } else if t.len() == 0 {
        assert(0 <= pos[0] < t.len());
    } else {
        let qk = q.take(k);
        let last = pos[k - 1];
        assert(0 <= last < t.len() && t[last] == qk[k - 1]);
        if last < t.len() - 1 {
            assert forall|i: int| 0 <= i < qk.len() implies 0 <= #[trigger] pos[i] < t.drop_last().len()
                && t.drop_last()[pos[i]] == qk[i] by {
                if i < k - 1 {
                    assert(pos[i] < pos[k - 1]);
                }
            }
            assert(embeds_at(qk, t.drop_last(), pos));
            lemma_greedy_complete(q, t.drop_last(), k, pos);
        } else {
            let pk = pos.take(k - 1);
            let qk1 = q.take(k - 1);
            assert forall|i: int| 0 <= i < qk1.len() implies 0 <= #[trigger] pk[i] < t.drop_last().len()
                && t.drop_last()[pk[i]] == qk1[i] by {
                assert(pos[i] < pos[k - 1]);
                assert(qk[i] == qk1[i]);
            }
            assert(embeds_at(qk1, t.drop_last(), pk));
            lemma_greedy_complete(q, t.drop_last(), k - 1, pk);
            assert(qk[k - 1] == q[k - 1]);
        }
    }
}

/// A subsequence is exactly what the greedy scan matches in full.
pub proof fn lemma_subsequence_iff_greedy(q: Seq<char>, t: Seq<char>)
    ensures
        is_subsequence(q, t) <==> greedy_matched(q, t) == q.len(),
{
    lemma_greedy_bounded(q, t);
    if greedy_matched(q, t) == q.len() {
        let pos = lemma_greedy_witness(q, t);
        assert(q.take(q.len() as int) == q);
        assert(embeds_at(q, t, pos));
    }
    if is_subsequence(q, t) {
        let pos = choose|pos: Seq<int>| #[trigger] embeds_at(q, t, pos);
        assert(q.take(q.len() as int) == q);
        lemma_greedy_complete(q, t, q.len() as int, pos);
    }
}

/// Whether `query` matches `text` up to ASCII case as a subsequence: each
/// character of the query occurs in the text, in order, not necessarily next
/// to each other. The empty query matches every text.
pub fn fuzzy_match(query: &str, text: &str) -> (r: bool)
    ensures
        r == fuzzy_spec(query@, text@),
{
    broadcast use vstd::string::group_string_axioms;
    let q = lowercase_chars(query);
    let ghost lt = lower_seq(text@);
    proof {
        lemma_subsequence_iff_greedy(q@, lt);
        lemma_greedy_bounded(q@, lt);
    }
    if q.len() == 0 {
        return true;
    }
    let mut k: usize = 0;
    for c in it: text.chars()
        invariant
            it.seq() == text@,
            lt == lower_seq(text@),
            q@ == lower_seq(query@),
            0 < q.len(),
            k < q.len(),
            k == greedy_matched(q@, lt.take(it.index() as int)),
            is_subsequence(q@, lt) <==> greedy_matched(q@, lt) == q@.len(),
    {
        let ghost i = it.index() as int;
        proof {
            assert(i < lt.len());
            assert(c == text@[i]);
            assert(lt[i] == ascii_lower(c));
            assert(lt.take(i + 1).drop_last() == lt.take(i));
            assert(lt.take(i + 1).last() == ascii_lower(c));
            assert(greedy_matched(q@, lt.take(i + 1)) == (if k < q@.len() && q@[k as int] == ascii_lower(c) { k + 1 } else { k as int }));
        }
        if to_ascii_lower(c) == q[k] {
            k = k + 1;
            if k == q.len() {
                proof {
                    lemma_greedy_prefix_monotone(q@, lt, i + 1);
                    lemma_greedy_bounded(q@, lt);
                }
                return true;
            }
        }
    }
    proof {
        assert(lt.take(lt.len() as int) == lt);
    }
    false
}


/// Each character of `text` with whether the finder shows it highlighted for
/// `query`: the characters that a left-to-right scan matches, up to ASCII
/// case, against the query characters in turn.
pub open spec fn highlight_spec(query: Seq<char>, text: Seq<char>) -> Seq<(char, bool)> {
    let lq = lower_seq(query);
    let lt = lower_seq(text);
    Seq::new(
        text.len(),
        |i: int|
            (text[i], {
                let k = greedy_matched(lq, lt.take(i));
                k < lq.len() && lq[k as int] == lt[i]
            }),
    )
}

/// Each character of `text` with whether it is highlighted for `query`:
/// scanning the text, a character is highlighted when it equals, up to ASCII
/// case, the first query character not yet highlighted.
pub fn highlight(query: &str, text: &str) -> (r: Vec<(char, bool)>)
    ensures
        r@ == highlight_spec(query@, text@),
{
    broadcast use vstd::string::group_string_axioms;
    let q = lowercase_chars(query);
    let ghost lt = lower_seq(text@);
    let mut r: Vec<(char, bool)> = Vec::new();
    let mut k: usize = 0;
    for c in it: text.chars()
        invariant
            it.seq() == text@,
            lt == lower_seq(text@),
            q@ == lower_seq(query@),
            k <= q.len(),
            k == greedy_matched(q@, lt.take(it.index() as int)),
            r@ == highlight_spec(query@, text@).take(it.index() as int),
    {
        let ghost i = it.index() as int;
        proof {
            assert(c == text@[i]);
            assert(lt[i] == ascii_lower(c));
            assert(lt.take(i + 1).drop_last() == lt.take(i));
            assert(lt.take(i + 1).last() == ascii_lower(c));
        }
        if k < q.len() && to_ascii_lower(c) == q[k] {
            r.push((c, true));
            k = k + 1;
        } else {
            r.push((c, false));
        }
        proof {
            assert(r@ == highlight_spec(query@, text@).take(i + 1));
        }
    }
    proof {
        assert(highlight_spec(query@, text@).take(text@.len() as int) == highlight_spec(query@, text@));
    }
    r
}


/// The empty query matches every text.
pub proof fn law_empty_query_matches(text: Seq<char>)
    ensures
        fuzzy_spec(Seq::empty(), text),
{
    let pos: Seq<int> = Seq::empty();
    assert(lower_seq(Seq::<char>::empty()) =~= Seq::<char>::empty());
    assert(embeds_at(lower_seq(Seq::empty()), lower_seq(text), pos));
}

/// Every text matches itself as a query.
pub proof fn law_text_matches_itself(text: Seq<char>)
    ensures
        fuzzy_spec(text, text),
{
    let lt = lower_seq(text);
    let pos = Seq::new(lt.len(), |i: int| i);
    assert(embeds_at(lt, lt, pos));
}

/// Folding to ASCII lower case twice folds no further.
proof fn lemma_lower_idempotent(s: Seq<char>)
    ensures
        lower_seq(lower_seq(s)) == lower_seq(s),
{
    assert forall|i: int| 0 <= i < s.len() implies #[trigger] ascii_lower(ascii_lower(s[i]))
        == ascii_lower(s[i]) by {
        let c = s[i];
        if 'A' <= c && c <= 'Z' {
            assert((ascii_lower(c) as u32) == (c as u32) + 32);
        }
    }
    assert(lower_seq(lower_seq(s)) =~= lower_seq(s));
}

/// Matching ignores ASCII case: folding the query or the text to lower case
/// changes nothing.
pub proof fn law_match_ignores_ascii_case(query: Seq<char>, text: Seq<char>)
    ensures
        fuzzy_spec(query, text) == fuzzy_spec(lower_seq(query), text),
        fuzzy_spec(query, text) == fuzzy_spec(query, lower_seq(text)),
{
    lemma_lower_idempotent(query);
    lemma_lower_idempotent(text);
}


/// How many characters of `marks` are highlighted.
pub open spec fn highlighted_count(marks: Seq<(char, bool)>) -> nat {
    marks.filter(|m: (char, bool)| m.1).len()
}

/// The highlight marks as many characters as the greedy scan matches.
proof fn lemma_highlight_count(query: Seq<char>, text: Seq<char>)
    ensures
        highlighted_count(highlight_spec(query, text)) == greedy_matched(
            lower_seq(query),
            lower_seq(text),
        ),
    decreases text.len(),
{
    reveal_with_fuel(Seq::filter, 1);
    let lq = lower_seq(query);
    let lt = lower_seq(text);
    let h = highlight_spec(query, text);
    if text.len() > 0 {
        let t0 = text.drop_last();
        lemma_highlight_count(query, t0);
        assert(lower_seq(t0) =~= lt.drop_last());
        assert forall|i: int| 0 <= i < t0.len() implies lt.drop_last().take(i) == lt.take(i) by {
            assert(lt.drop_last().take(i) =~= lt.take(i));
        }
        assert(h.drop_last() =~= highlight_spec(query, t0));
        assert(lt.take(lt.len() - 1) =~= lt.drop_last());
    } else {
        assert(h =~= Seq::<(char, bool)>::empty());
    }
}

/// The text matches the query exactly when the highlight marks one
/// character of the text for each character of the query.
pub proof fn law_highlight_agrees_with_match(query: Seq<char>, text: Seq<char>)
    ensures
        fuzzy_spec(query, text) <==> highlighted_count(highlight_spec(query, text)) == query.len(),
{
    lemma_highlight_count(query, text);
    lemma_subsequence_iff_greedy(lower_seq(query), lower_seq(text));
}


/// A text that matches a query still matches it with more text added on
/// either side.
pub proof fn law_match_survives_longer_text(
    query: Seq<char>,
    before: Seq<char>,
    text: Seq<char>,
    after: Seq<char>,
)
    requires
        fuzzy_spec(query, text),
    ensures
        fuzzy_spec(query, before + text + after),
{
    let lq = lower_seq(query);
    let lt = lower_seq(text);
    let big = lower_seq(before + text + after);
    assert(big =~= lower_seq(before) + lt + lower_seq(after));
    let pos = choose|pos: Seq<int>| #[trigger] embeds_at(lq, lt, pos);
    let shifted = pos.map_values(|p: int| p + before.len());
    assert forall|i: int| 0 <= i < lq.len() implies 0 <= #[trigger] shifted[i] < big.len()
        && big[shifted[i]] == lq[i] by {
        assert(big[pos[i] + before.len()] == lt[pos[i]]);
    }
    assert(embeds_at(lq, big, shifted));
}


/// The marks of a prefix of the text are the prefix of its marks.
proof fn lemma_highlight_prefix(query: Seq<char>, text: Seq<char>, i: int)
    requires
        0 <= i <= text.len(),
    ensures
        highlight_spec(query, text.take(i)) == highlight_spec(query, text).take(i),
{
    let lt = lower_seq(text);
    assert(lower_seq(text.take(i)) =~= lt.take(i));
    assert forall|j: int| 0 <= j < i implies lt.take(i).take(j) == lt.take(j) by {
        assert(lt.take(i).take(j) =~= lt.take(j));
    }
    assert(highlight_spec(query, text.take(i)) =~= highlight_spec(query, text).take(i));
}

/// The highlight marks the leftmost greedy match of the query: scanning the
/// text, a character is highlighted exactly when, folded to ASCII lower
/// case, it equals the next query character, the one after as many as have
/// been highlighted before it (while the query lasts). So the m-th
/// highlighted character is the first one after the (m-1)-th that equals the
/// m-th query character, and the highlighted characters spell a prefix of
/// the query.
pub proof fn law_highlight_is_leftmost_greedy(query: Seq<char>, text: Seq<char>)
    ensures
        highlight_spec(query, text).len() == text.len(),
        forall|i: int|
            #![trigger highlight_spec(query, text)[i]]
            0 <= i < text.len() ==> {
                let marks = highlight_spec(query, text);
                let k = highlighted_count(marks.take(i));
                &&& marks[i].0 == text[i]
                &&& marks[i].1 <==> (k < query.len() && ascii_lower(text[i]) == ascii_lower(
                    query[k as int],
                ))
            },
{
    let marks = highlight_spec(query, text);
    assert forall|i: int| #![trigger marks[i]] 0 <= i < text.len() implies {
        let k = highlighted_count(marks.take(i));
        &&& marks[i].0 == text[i]
        &&& marks[i].1 <==> (k < query.len() && ascii_lower(text[i]) == ascii_lower(
            query[k as int],
        ))
    } by {
        lemma_highlight_prefix(query, text, i);
        lemma_highlight_count(query, text.take(i));
        assert(lower_seq(text.take(i)) =~= lower_seq(text).take(i));
    }
}

} // verus!

//! The built-in command suggestions: commands with example invocations and
//! their descriptions, merged from suggestion files and looked up by the
//! first word typed.
use vstd::prelude::*;

use crate::sorted_map::{assoc, has_key, keys_sorted, keys_view, lemma_sorted_insert, lemma_sorted_unique_key, lemma_sorted_update, locate};
use crate::text::{chars_of, is_blank, push_str, seq_lt, starts_with, str_lt, str_starts_with, string_push, trim, trim_string};

verus! {

/// An example invocation of a command and what it does.
#[derive(Clone, Debug, PartialEq, Eq)]
pub struct SuggestionsExample {
    pub cmd: String,
    pub desc: String,
}

/// How many bytes a character takes in UTF-8.
pub open spec fn utf8_width(c: char) -> nat {
    if (c as int) < 0x80 {
        1
    } else if (c as int) < 0x800 {
        2
    } else if (c as int) < 0x10000 {
        3
    } else {
        4
    }
}

/// How many bytes a text takes in UTF-8 (`str::len`).
pub open spec fn utf8_len(s: Seq<char>) -> nat
    decreases s.len(),
{
    if s.len() == 0 {
        0
    } else {
        utf8_len(s.drop_last()) + utf8_width(s.last())
    }
}

/// The UTF-8 length of `s` (`str::len`).
fn utf8_length(s: &str) -> (n: u128)
    ensures
        n as nat == utf8_len(s@),
{
    let v = chars_of(s);
    let mut n: u128 = 0;
    let mut i: usize = 0;
    while i < v.len()
        invariant
            0 <= i <= v@.len(),
            v@ == s@,
            n as nat == utf8_len(v@.take(i as int)),
            n <= 4 * i,
        decreases v@.len() - i,
    {
        let c = v[i];
        assert(v@.take(i + 1).drop_last() =~= v@.take(i as int));
        assert(v@.take(i + 1).last() == c);
        let w: u128 = if '\u{80}' > c {
            1
        } else if '\u{800}' > c {
            2
        } else if '\u{10000}' > c {
            3
        } else {
            4
        };
        assert(w == utf8_width(c));
        n = n + w;
        i += 1;
    }
    assert(v@.take(v@.len() as int) =~= v@);
    n
}

/// The examples of one command: example → description.
pub open spec fn hints_view(h: Seq<(String, String)>) -> Seq<(Seq<char>, Seq<char>)> {
    h.map_values(|e: (String, String)| (e.0@, e.1@))
}

/// The commands and their examples, in command order.
pub open spec fn db_view(v: Seq<(String, Vec<(String, String)>)>) -> Seq<(Seq<char>, Seq<(Seq<char>, Seq<char>)>)> {
    v.map_values(|e: (String, Vec<(String, String)>)| (e.0@, hints_view(e.1@)))
}

/// The examples of the commands, both listed in order and each once.
pub open spec fn db_ok(d: Seq<(Seq<char>, Seq<(Seq<char>, Seq<char>)>)>) -> bool {
    &&& keys_sorted(d)
    &&& forall|i: int| 0 <= i < d.len() ==> keys_sorted(#[trigger] d[i].1)
}

/// The suggestions as a map: command → (example → description).
pub open spec fn db_map(d: Seq<(Seq<char>, Seq<(Seq<char>, Seq<char>)>)>) -> Map<Seq<char>, Map<Seq<char>, Seq<char>>> {
    assoc(d).map_values(|h: Seq<(Seq<char>, Seq<char>)>| assoc(h))
}

/// One example merged into the examples of command `c`: blank examples,
/// and those that do not start with the command, are dropped; an example
/// already there takes the new description only when it is longer.
pub open spec fn hint_step(inner: Map<Seq<char>, Seq<char>>, c: Seq<char>, h: SuggestionsExample) -> Map<Seq<char>, Seq<char>> {
    let cmd = trim(h.cmd@);
    let d = trim(h.desc@);
    if cmd.len() == 0 || !starts_with(cmd, c) {
        inner
    } else if inner.contains_key(cmd) {
        if utf8_len(d) > utf8_len(inner[cmd]) {
            inner.insert(cmd, d)
        } else {
            inner
        }
    } else {
        inner.insert(cmd, d)
    }
}

/// The examples `hs` merged one after another.
pub open spec fn hints_fold(inner: Map<Seq<char>, Seq<char>>, c: Seq<char>, hs: Seq<SuggestionsExample>) -> Map<Seq<char>, Seq<char>>
    decreases hs.len(),
{
    if hs.len() == 0 {
        inner
    } else {
        hint_step(hints_fold(inner, c, hs.drop_last()), c, hs.last())
    }
}

/// A command and its examples merged into the suggestions; a blank command
/// is dropped, a new one is added even with no example left.
pub open spec fn merge_one(m: Map<Seq<char>, Map<Seq<char>, Seq<char>>>, command: Seq<char>, hs: Seq<SuggestionsExample>) -> Map<Seq<char>, Map<Seq<char>, Seq<char>>> {
    let c = trim(command);
    if c.len() == 0 {
        m
    } else {
        let inner0 = if m.contains_key(c) {
            m[c]
        } else {
            Map::empty()
        };
        m.insert(c, hints_fold(inner0, c, hs))
    }
}

/// The commands of a suggestion file merged one after another.
pub open spec fn merge_all(m: Map<Seq<char>, Map<Seq<char>, Seq<char>>>, src: Seq<(String, Vec<SuggestionsExample>)>) -> Map<Seq<char>, Map<Seq<char>, Seq<char>>>
    decreases src.len(),
{
    if src.len() == 0 {
        m
    } else {
        merge_one(merge_all(m, src.drop_last()), src.last().0@, src.last().1@)
    }
}

/// The suggestion shown for an example: the example, and its description
/// when it is not blank.
pub open spec fn shown(e: (Seq<char>, Seq<char>)) -> (Seq<char>, Option<Seq<char>>) {
    (e.0, if trim(e.1).len() > 0 {
        Some(trim(e.1))
    } else {
        None
    })
}

/// The examples shown for one command, in order.
pub open spec fn shown_all(h: Seq<(Seq<char>, Seq<char>)>) -> Seq<(Seq<char>, Option<Seq<char>>)> {
    h.map_values(|e: (Seq<char>, Seq<char>)| shown(e))
}

/// Whether command `k` is offered for the first word `w`: it lies between
/// `w` and `w` followed by the greatest character.
pub open spec fn in_range(k: Seq<char>, w: Seq<char>) -> bool {
    !seq_lt(k, w) && !seq_lt(w.push('\u{10FFFF}'), k)
}

/// The examples of the commands offered for `w`, in command order.
pub open spec fn range_hints(d: Seq<(Seq<char>, Seq<(Seq<char>, Seq<char>)>)>, w: Seq<char>) -> Seq<(Seq<char>, Option<Seq<char>>)>
    decreases d.len(),
{
    if d.len() == 0 {
        seq![]
    } else {
        let r = range_hints(d.drop_last(), w);
        if in_range(d.last().0, w) {
            r + shown_all(d.last().1)
        } else {
            r
        }
    }
}

/// At most the first `MAX_CANDIDATES`.
pub open spec fn capped<T>(s: Seq<T>) -> Seq<T> {
    if s.len() <= MAX_CANDIDATES {
        s
    } else {
        s.take(MAX_CANDIDATES as int)
    }
}

/// The most suggestions offered for one first word of two or more characters.
pub const MAX_CANDIDATES: usize = 500;

/// The suggestions for the first word `first_word`: none for a blank word;
/// for a single character, the examples of that command alone; else the
/// examples of every command from the word up to the word followed by the
/// greatest character, in command order, at most `MAX_CANDIDATES`.
pub open spec fn candidates(d: Seq<(Seq<char>, Seq<(Seq<char>, Seq<char>)>)>, first_word: Seq<char>) -> Seq<(Seq<char>, Option<Seq<char>>)> {
    let w = trim(first_word);
    if w.len() == 0 {
        seq![]
    } else if w.len() <= 1 {
        if assoc(d).contains_key(w) {
            shown_all(assoc(d)[w])
        } else {
            seq![]
        }
    } else {
        capped(range_hints(d, w))
    }
}

/// The view of the suggestions shown.
pub open spec fn shown_view(v: Seq<(String, Option<String>)>) -> Seq<(Seq<char>, Option<Seq<char>>)> {
    v.map_values(|e: (String, Option<String>)| (e.0@, match e.1 {
        Some(s) => Some(s@),
        None => None,
    }))
}

impl Default for StaticSuggestionsDb {
    fn default() -> (db: Self)
        ensures
            db.suggestions() == Map::<Seq<char>, Map<Seq<char>, Seq<char>>>::empty(),
    {
        StaticSuggestionsDb::new()
    }
}

/// Two lists with the same keys in the same places are sorted alike and
/// hold the same keys.
proof fn lemma_same_keys<A, B>(s1: Seq<(Seq<char>, A)>, s2: Seq<(Seq<char>, B)>)
    requires
        s1.len() == s2.len(),
        forall|i: int| 0 <= i < s1.len() ==> #[trigger] s1[i].0 == s2[i].0,
    ensures
        keys_sorted(s1) == keys_sorted(s2),
        forall|k: Seq<char>| has_key(s1, k) == has_key(s2, k),
{
    if keys_sorted(s1) {
        assert forall|a: int, b: int| 0 <= a < b < s2.len() implies seq_lt(#[trigger] s2[a].0, #[trigger] s2[b].0) by {
            assert(s1[a].0 == s2[a].0 && s1[b].0 == s2[b].0);
        }
    }
    if keys_sorted(s2) {
        assert forall|a: int, b: int| 0 <= a < b < s1.len() implies seq_lt(#[trigger] s1[a].0, #[trigger] s1[b].0) by {
            assert(s1[a].0 == s2[a].0 && s1[b].0 == s2[b].0);
        }
    }
    assert forall|k: Seq<char>| has_key(s1, k) == has_key(s2, k) by {
        if has_key(s1, k) {
            let i = choose|i: int| 0 <= i < s1.len() && (#[trigger] s1[i]).0 == k;
            assert(s2[i].0 == k);
        }
        if has_key(s2, k) {
            let i = choose|i: int| 0 <= i < s2.len() && (#[trigger] s2[i]).0 == k;
            assert(s1[i].0 == k);
        }
    }
}

/// Merges `hints`, the examples of command `c`, into the examples `inner`.
fn merge_hints(inner: &mut Vec<(String, String)>, c: &str, hints: &Vec<SuggestionsExample>)
    requires
        keys_sorted(hints_view(old(inner)@)),
    ensures
        keys_sorted(hints_view(final(inner)@)),
        assoc(hints_view(final(inner)@)) == hints_fold(assoc(hints_view(old(inner)@)), c@, hints@),
{
    let ghost m0 = assoc(hints_view(inner@));
    let mut k: usize = 0;
    while k < hints.len()
        invariant
            0 <= k <= hints@.len(),
            keys_sorted(hints_view(inner@)),
            assoc(hints_view(inner@)) == hints_fold(m0, c@, hints@.take(k as int)),
        decreases hints@.len() - k,
    {
        assert(hints@.take(k + 1).drop_last() =~= hints@.take(k as int));
        assert(hints@.take(k + 1).last() == hints@[k as int]);
        let h = &hints[k];
        let cmd = trim_string(h.cmd.as_str());
        let d = trim_string(h.desc.as_str());
        let ghost before = hints_view(inner@);
        if cmd.as_str().is_empty() || !str_starts_with(cmd.as_str(), c) {
            k += 1;
            continue;
        }
        proof {
            lemma_same_keys(keys_view(inner@), before);
        }
        match locate(inner, cmd.as_str()) {
            Ok(j) => {
                proof {
                    lemma_sorted_unique_key(before, j as int);
                }
                if utf8_length(d.as_str()) > utf8_length(inner[j].1.as_str()) {
                    let _ = inner.remove(j);
                    inner.insert(j, (cmd, d));
                    proof {
                        assert(hints_view(inner@) =~= before.update(j as int, (before[j as int].0, d@)));
                        lemma_sorted_update(before, j as int, d@);
                    }
                }
            },
            Err(j) => {
                let ghost key = cmd@;
                let ghost kv = keys_view(inner@);
                inner.insert(j, (cmd, d));
                proof {
                    assert(hints_view(inner@) =~= before.insert(j as int, (key, d@)));
                    assert forall|p: int| 0 <= p < j implies seq_lt(#[trigger] before[p].0, key) by {
                        assert(kv[p].0 == before[p].0);
                    }
                    if j < before.len() {
                        assert(kv[j as int].0 == before[j as int].0);
                    }
                    lemma_sorted_insert(before, j as int, key, d@);
                }
            },
        }
        k += 1;
    }
    assert(hints@.take(hints@.len() as int) =~= hints@);
}

/// The suggestion shown for one example.
fn shown_entry(e: &(String, String)) -> (out: (String, Option<String>))
    ensures
        (out.0@, match out.1 {
            Some(s) => Some(s@),
            None => None,
        }) == shown((e.0@, e.1@)),
{
    let cmd = copy_string(&e.0);
    if is_blank(e.1.as_str()) {
        (cmd, None)
    } else {
        (cmd, Some(trim_string(e.1.as_str())))
    }
}

/// Commands and their examples, kept in command order.
struct SuggestionTable {
    by_command: Vec<(String, Vec<(String, String)>)>,
}

/// A copy of `s`.
fn copy_string(s: &String) -> (out: String)
    ensures
        out@ == s@,
{
    let mut out = String::new();
    push_str(&mut out, s.as_str());
    out
}

impl SuggestionTable {
    /// The commands and their examples, in command order.
    spec fn listing(&self) -> Seq<(Seq<char>, Seq<(Seq<char>, Seq<char>)>)> {
        db_view(self.by_command@)
    }

    /// The suggestions as a map.
    spec fn suggestions(&self) -> Map<Seq<char>, Map<Seq<char>, Seq<char>>> {
        db_map(self.listing())
    }

    /// Both levels are in order, each entry once.
    spec fn wf(&self) -> bool {
        db_ok(self.listing())
    }

    /// No suggestions.
    fn new() -> (db: Self)
        ensures
            db.wf(),
            db.suggestions() == Map::<Seq<char>, Map<Seq<char>, Seq<char>>>::empty(),
    {
        let db = SuggestionTable { by_command: Vec::new() };
        assert(db.listing() =~= Seq::<(Seq<char>, Seq<(Seq<char>, Seq<char>)>)>::empty());
        assert(db.suggestions() =~= Map::<Seq<char>, Map<Seq<char>, Seq<char>>>::empty());
        db
    }

    /// Merges the commands of one suggestion file, in order: a blank command
    /// is dropped, an example is kept under its command only when, trimmed,
    /// it is not blank and starts with the command, and an example already
    /// there takes the new description only when that one is longer.
    fn merge_suggestions(&mut self, src: &Vec<(String, Vec<SuggestionsExample>)>)
        requires
            old(self).wf(),
        ensures
            final(self).wf(),
            final(self).suggestions() == merge_all(old(self).suggestions(), src@),
    {
        let ghost m0 = self.suggestions();
        let mut k: usize = 0;
        while k < src.len()
            invariant
                0 <= k <= src@.len(),
                self.wf(),
                self.suggestions() == merge_all(m0, src@.take(k as int)),
            decreases src@.len() - k,
        {
            assert(src@.take(k + 1).drop_last() =~= src@.take(k as int));
            assert(src@.take(k + 1).last() == src@[k as int]);
            let c = trim_string(src[k].0.as_str());
            if c.as_str().is_empty() {
                k += 1;
                continue;
            }
            let ghost before = self.listing();
            let ghost kv = keys_view(self.by_command@);
            proof {
                lemma_same_keys(kv, before);
            }
            match locate(&self.by_command, c.as_str()) {
                Ok(i) => {
                    proof {
                        lemma_sorted_unique_key(before, i as int);
                    }
                    let (key, mut inner) = self.by_command.remove(i);
                    assert(hints_view(inner@) == before[i as int].1);
                    merge_hints(&mut inner, c.as_str(), &src[k].1);
                    let ghost hv = hints_view(inner@);
                    self.by_command.insert(i, (key, inner));
                    proof {
                        assert(self.listing() =~= before.update(i as int, (before[i as int].0, hv)));
                        lemma_sorted_update(before, i as int, hv);
                        assert(self.suggestions() =~= db_map(before).insert(c@, assoc(hv)));
                    }
                },
                Err(i) => {
                    let mut inner: Vec<(String, String)> = Vec::new();
                    assert(assoc(hints_view(inner@)) =~= Map::<Seq<char>, Seq<char>>::empty());
                    merge_hints(&mut inner, c.as_str(), &src[k].1);
                    let ghost hv = hints_view(inner@);
                    let ghost key = c@;
                    self.by_command.insert(i, (c, inner));
                    proof {
                        assert(self.listing() =~= before.insert(i as int, (key, hv)));
                        assert forall|p: int| 0 <= p < i implies seq_lt(#[trigger] before[p].0, key) by {
                            assert(kv[p].0 == before[p].0);
                        }
                        if i < before.len() {
                            assert(kv[i as int].0 == before[i as int].0);
                        }
                        lemma_sorted_insert(before, i as int, key, hv);
                        assert(self.suggestions() =~= db_map(before).insert(key, assoc(hv)));
                    }
                },
            }
            k += 1;
        }
        assert(src@.take(src@.len() as int) =~= src@);
    }


    /// The suggestions offered for `first_word`, in the order they are
    /// offered (see `candidates`).
    fn for_each_candidate(&self, first_word: &str) -> (out: Vec<(String, Option<String>)>)
        requires
            self.wf(),
        ensures
            shown_view(out@) == candidates(self.listing(), first_word@),
    {
        let ghost d = self.listing();
        let w = trim_string(first_word);
        let mut out: Vec<(String, Option<String>)> = Vec::new();
        if w.as_str().is_empty() {
            assert(shown_view(out@) =~= Seq::<(Seq<char>, Option<Seq<char>>)>::empty());
            return out;
        }
        proof {
            lemma_same_keys(keys_view(self.by_command@), d);
        }
        if chars_of(w.as_str()).len() <= 1 {
            match locate(&self.by_command, w.as_str()) {
                Ok(i) => {
                    proof {
                        lemma_sorted_unique_key(d, i as int);
                    }
                    let hints = &self.by_command[i].1;
                    let ghost hv = hints_view(hints@);
                    assert(hv == d[i as int].1);
                    let mut j: usize = 0;
                    while j < hints.len()
                        invariant
                            0 <= j <= hints@.len(),
                            hv == hints_view(hints@),
                            shown_view(out@) == shown_all(hv).take(j as int),
                        decreases hints@.len() - j,
                    {
                        let e = shown_entry(&hints[j]);
                        let ghost before = out@;
                        out.push(e);
                        assert(shown_view(out@) =~= shown_view(before).push(shown(hv[j as int])));
                        assert(shown_all(hv).take(j + 1) =~= shown_all(hv).take(j as int).push(shown(hv[j as int])));
                        j += 1;
                    }
                    assert(shown_all(hv).take(hints@.len() as int) =~= shown_all(hv));
                },
                Err(_) => {
                    assert(shown_view(out@) =~= Seq::<(Seq<char>, Option<Seq<char>>)>::empty());
                },
            }
            return out;
        }
        let mut end = copy_string(&w);
        string_push(&mut end, '\u{10FFFF}');
        let mut i: usize = 0;
        while i < self.by_command.len()
            invariant
                0 <= i <= self.by_command@.len(),
                d == self.listing(),
                w@ == trim(first_word@),
                end@ == w@.push('\u{10FFFF}'),
                out@.len() <= MAX_CANDIDATES,
                shown_view(out@) == capped(range_hints(d.take(i as int), w@)),
            decreases self.by_command@.len() - i,
        {
            let ghost r = range_hints(d.take(i as int), w@);
            assert(d.take(i + 1).drop_last() =~= d.take(i as int));
            assert(d.take(i + 1).last() == d[i as int]);
            let key = self.by_command[i].0.as_str();
            if !str_lt(key, w.as_str()) && !str_lt(end.as_str(), key) {
                let hints = &self.by_command[i].1;
                let ghost hv = hints_view(hints@);
                let ghost sh = shown_all(hv);
                assert(hv == d[i as int].1);
                let mut j: usize = 0;
                while j < hints.len() && out.len() < MAX_CANDIDATES
                    invariant
                        0 <= j <= hints@.len(),
                        hv == hints_view(hints@),
                        sh == shown_all(hv),
                        out@.len() <= MAX_CANDIDATES,
                        shown_view(out@) == capped(r + sh.take(j as int)),
                    decreases hints@.len() - j,
                {
                    assert(capped(r + sh.take(j as int)) == r + sh.take(j as int));
                    let e = shown_entry(&hints[j]);
                    let ghost before = out@;
                    out.push(e);
                    assert(shown_view(out@) =~= shown_view(before).push(sh[j as int]));
                    assert(r + sh.take(j + 1) =~= (r + sh.take(j as int)).push(sh[j as int]));
                    j += 1;
                }
                proof {
                    if j == hints.len() {
                        assert(sh.take(j as int) =~= sh);
                    } else {
                        let x = r + sh.take(j as int);
                        assert(x.len() >= MAX_CANDIDATES);
                        assert(x.take(MAX_CANDIDATES as int) =~= (r + sh).take(MAX_CANDIDATES as int));
                    }
                }
            }
            i += 1;
        }
        assert(d.take(d.len() as int) =~= d);
        out
    }

}

/// The built-in command suggestions: for each command, its examples and
/// their descriptions, both levels in order and each entry once.
pub struct StaticSuggestionsDb {
    table: SuggestionTable,
}

impl StaticSuggestionsDb {
    /// Both levels are in order, each entry once.
    #[verifier::type_invariant]
    spec fn inv(self) -> bool {
        self.table.wf()
    }

    /// The commands and their examples, in command order.
    pub closed spec fn listing(&self) -> Seq<(Seq<char>, Seq<(Seq<char>, Seq<char>)>)> {
        self.table.listing()
    }

    /// The suggestions as a map.
    pub open spec fn suggestions(&self) -> Map<Seq<char>, Map<Seq<char>, Seq<char>>> {
        db_map(self.listing())
    }

    /// No suggestions.
    pub fn new() -> (db: Self)
        ensures
            db.suggestions() == Map::<Seq<char>, Map<Seq<char>, Seq<char>>>::empty(),
    {
        StaticSuggestionsDb { table: SuggestionTable::new() }
    }

    /// Merges the commands of one suggestion file, in order: a blank command
    /// is dropped, an example is kept under its command only when, trimmed,
    /// it is not blank and starts with the command, and an example already
    /// there takes the new description only when that one is longer.
    pub fn merge_suggestions(&mut self, src: &Vec<(String, Vec<SuggestionsExample>)>)
        ensures
            final(self).suggestions() == merge_all(old(self).suggestions(), src@),
    {
        proof {
            use_type_invariant(&*self);
        }
        let mut table = SuggestionTable::new();
        std::mem::swap(&mut table, &mut self.table);
        table.merge_suggestions(src);
        self.table = table;
    }

    /// The suggestions offered for `first_word`, in the order they are
    /// offered (see `candidates`).
    pub fn for_each_candidate(&self, first_word: &str) -> (out: Vec<(String, Option<String>)>)
        ensures
            shown_view(out@) == candidates(self.listing(), first_word@),
    {
        proof {
            use_type_invariant(self);
        }
        self.table.for_each_candidate(first_word)
    }
}

/// Every command is non-empty, and each of its examples is non-empty and
/// starts with the command.
pub open spec fn examples_ok(m: Map<Seq<char>, Map<Seq<char>, Seq<char>>>) -> bool {
    &&& forall|c: Seq<char>| #[trigger] m.contains_key(c) ==> c.len() > 0
    &&& forall|c: Seq<char>, e: Seq<char>|
        #![trigger m[c].contains_key(e)]
        m.contains_key(c) && m[c].contains_key(e) ==> e.len() > 0 && starts_with(e, c)
}

proof fn lemma_hints_fold_ok(inner: Map<Seq<char>, Seq<char>>, c: Seq<char>, hs: Seq<SuggestionsExample>)
    requires
        forall|e: Seq<char>| #[trigger] inner.contains_key(e) ==> e.len() > 0 && starts_with(e, c),
    ensures
        forall|e: Seq<char>| #[trigger] hints_fold(inner, c, hs).contains_key(e) ==> e.len() > 0 && starts_with(e, c),
    decreases hs.len(),
{
    if hs.len() > 0 {
        lemma_hints_fold_ok(inner, c, hs.drop_last());
        let prev = hints_fold(inner, c, hs.drop_last());
        let cmd = trim(hs.last().cmd@);
        assert forall|e: Seq<char>| #[trigger] hints_fold(inner, c, hs).contains_key(e) implies e.len() > 0 && starts_with(e, c) by {
            if e != cmd {
                assert(prev.contains_key(e));
            }
        }
    }
}

/// Merging suggestion files keeps every command non-empty and every example
/// non-empty and starting with its command.
pub proof fn law_merge_keeps_examples_under_their_command(m: Map<Seq<char>, Map<Seq<char>, Seq<char>>>, src: Seq<(String, Vec<SuggestionsExample>)>)
    requires
        examples_ok(m),
    ensures
        examples_ok(merge_all(m, src)),
    decreases src.len(),
{
    if src.len() > 0 {
        let m1 = merge_all(m, src.drop_last());
        law_merge_keeps_examples_under_their_command(m, src.drop_last());
        let c = trim(src.last().0@);
        if c.len() > 0 {
            let inner0 = if m1.contains_key(c) {
                m1[c]
            } else {
                Map::empty()
            };
            assert forall|e: Seq<char>| #[trigger] inner0.contains_key(e) implies e.len() > 0 && starts_with(e, c) by {
                assert(m1[c].contains_key(e) ==> e.len() > 0 && starts_with(e, c));
            }
            lemma_hints_fold_ok(inner0, c, src.last().1@);
            let m2 = merge_all(m, src);
            assert(m2 == m1.insert(c, hints_fold(inner0, c, src.last().1@)));
            assert forall|c2: Seq<char>| #[trigger] m2.contains_key(c2) implies c2.len() > 0 by {
                if c2 != c {
                    assert(m1.contains_key(c2));
                }
            }
            assert forall|c2: Seq<char>, e: Seq<char>| #![trigger m2[c2].contains_key(e)] m2.contains_key(c2) && m2[c2].contains_key(e) implies e.len() > 0 && starts_with(e, c2) by {
                if c2 != c {
                    assert(m1[c2].contains_key(e));
                } else {
                    assert(m2[c2] == hints_fold(inner0, c, src.last().1@));
                }
            }
        } else {
            assert(merge_all(m, src) == m1);
        }
    }
}

} // verus!

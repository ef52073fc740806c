//! The history of commands typed in terminals: what is kept, what a new
//! command changes, and what is written back to the history file.
use std::collections::VecDeque;

use vstd::prelude::*;

use crate::notification::keep_last;
use crate::text::{
    chars_of, lines, lines_of, push_str, str_eq, string_from_chars, trim, trim_end, trim_start,
    trim_string, views,
};

verus! {

/// How many commands the history keeps by default.
pub const DEFAULT_MAX_ENTRIES: usize = 2000;

/// The limit in force: at least one entry is always kept.
pub open spec fn limit(max_entries: usize) -> nat {
    if max_entries == 0 {
        1
    } else {
        max_entries as nat
    }
}

/// A command as it is stored: trimmed, with line breaks turned into spaces.
pub open spec fn normalized(command: Seq<char>) -> Seq<char> {
    trim(command).map_values(|c: char| if c == '\n' || c == '\r' { ' ' } else { c })
}

/// Adds `entry` to `history` unless it is blank or repeats the newest
/// entry; the oldest entries go beyond the limit.
pub open spec fn add_entry(history: Seq<Seq<char>>, entry: Seq<char>, max_entries: usize) -> Seq<
    Seq<char>,
> {
    if entry.len() == 0 || (history.len() > 0 && history.last() == entry) {
        history
    } else {
        keep_last(history.push(entry), limit(max_entries))
    }
}

/// The history read back from the lines of a history file.
pub open spec fn loaded(ls: Seq<Seq<char>>, max_entries: usize) -> Seq<Seq<char>>
    decreases ls.len(),
{
    if ls.len() == 0 {
        seq![]
    } else {
        add_entry(loaded(ls.drop_last(), max_entries), trim(ls.last()), max_entries)
    }
}

/// A well-kept history: within the limit, every entry non-blank, and no
/// entry repeating the one before it.
pub open spec fn history_ok(h: Seq<Seq<char>>, max_entries: usize) -> bool {
    &&& h.len() <= limit(max_entries)
    &&& forall|i: int| 0 <= i < h.len() ==> (#[trigger] h[i]).len() > 0
    &&& forall|i: int| 0 < i < h.len() ==> #[trigger] h[i] != h[i - 1]
}

/// What the history file needs after a command was added.
#[derive(Clone, Debug, PartialEq, Eq)]
pub enum HistoryWrite {
    /// The command was not recorded; the file stays as it is.
    Nothing,
    /// The command goes at the end of the file, on a line of its own.
    AppendLine(String),
    /// Old entries were dropped; the file is rewritten with these lines.
    Rewrite(Vec<String>),
}

/// The text of a history file holding `lines`: each followed by a newline.
pub open spec fn file_text(ls: Seq<Seq<char>>) -> Seq<char>
    decreases ls.len(),
{
    if ls.len() == 0 {
        seq![]
    } else {
        file_text(ls.drop_last()) + ls.last() + seq!['\n']
    }
}

/// The history file after `w` was carried out on a file holding `file`.
pub open spec fn after_write(file: Seq<char>, w: HistoryWrite) -> Seq<char> {
    match w {
        HistoryWrite::Nothing => file,
        HistoryWrite::AppendLine(line) => file + line@ + seq!['\n'],
        HistoryWrite::Rewrite(all) => file_text(views(all@)),
    }
}

/// The commands kept, oldest first.
pub struct CommandHistory {
    entries: VecDeque<String>,
    max_entries: usize,
}

/// Trims `command` and turns its line breaks into spaces.
pub fn normalize_command(command: &str) -> (out: String)
    ensures
        out@ == normalized(command@),
{
    let t = trim_string(command);
    let v = chars_of(t.as_str());
    let mut w: Vec<char> = Vec::new();
    let mut i: usize = 0;
    while i < v.len()
        invariant
            0 <= i <= v@.len(),
            v@ == trim(command@),
            w@ == v@.take(i as int).map_values(
                |c: char|
                    if c == '\n' || c == '\r' {
                        ' '
                    } else {
                        c
                    },
            ),
        decreases v@.len() - i,
    {
        let c = v[i];
        if c == '\n' || c == '\r' {
            w.push(' ');
        } else {
            w.push(c);
        }
        assert(v@.take(i + 1) =~= v@.take(i as int).push(c));
        i += 1;
        assert(w@ =~= v@.take(i as int).map_values(
            |c: char|
                if c == '\n' || c == '\r' {
                    ' '
                } else {
                    c
                },
        ));
    }
    assert(v@.take(v@.len() as int) =~= v@);
    string_from_chars(&w)
}

/// A copy of `s`.
fn copy_string(s: &String) -> (out: String)
    ensures
        out@ == s@,
{
    let mut out = String::new();
    push_str(&mut out, s.as_str());
    out
}

/// Adds an already normalized entry to `q`, dropping the oldest entries
/// beyond the limit; returns whether any was dropped.
fn push_entry(q: &mut VecDeque<String>, entry: String, max_entries: usize) -> (dropped: bool)
    requires
        entry@.len() > 0,
        old(q)@.len() == 0 || old(q)@.last()@ != entry@,
    ensures
        views(final(q)@) == keep_last(views(old(q)@).push(entry@), limit(max_entries)),
        dropped == (views(old(q)@).len() + 1 > limit(max_entries)),
{
    let ghost before = views(q@);
    q.push_back(entry);
    let ghost full = before.push(entry@);
    assert(views(q@) =~= full);
    let lim: usize = if max_entries == 0 {
        1
    } else {
        max_entries
    };
    let mut dropped = false;
    while q.len() > lim
        invariant
            lim as nat == limit(max_entries),
            views(q@) == full.skip(full.len() - q@.len()),
            q@.len() <= full.len(),
            q@.len() == full.len() || q@.len() >= lim,
            dropped == (q@.len() < full.len()),
        decreases q@.len(),
    {
        let ghost prev = q@;
        q.pop_front();
        dropped = true;
        assert(q@ =~= prev.subrange(1, prev.len() as int));
        assert forall|k: int| 0 <= k < q@.len() implies views(q@)[k] == full.skip(full.len() - q@.len())[k] by {
            assert(views(q@)[k] == q@[k]@);
            assert(q@[k] == prev[k + 1]);
            assert(views(prev)[k + 1] == prev[k + 1]@);
        }
        assert(views(q@) =~= full.skip(full.len() - q@.len()));
    }
    assert(views(q@) =~= keep_last(full, lim as nat));
    dropped
}

impl CommandHistory {
    /// The entries, oldest first.
    pub closed spec fn entries(&self) -> Seq<Seq<char>> {
        views(self.entries@)
    }

    /// The limit the history was made with.
    pub closed spec fn max_entries(&self) -> usize {
        self.max_entries
    }

    /// The history stored in the text of a history file: each non-blank
    /// line, trimmed, except one that repeats the line kept before it, and
    /// only the newest lines within the limit.
    pub fn from_file_text(contents: &str, max_entries: usize) -> (h: Self)
        ensures
            h.entries() == loaded(lines(contents@), max_entries),
            h.max_entries() == max_entries,
    {
        let ls = lines_of(contents);
        let ghost all = lines(contents@);
        let mut q: VecDeque<String> = VecDeque::new();
        assert(views(q@) =~= Seq::<Seq<char>>::empty());
        assert(all.take(0) =~= Seq::<Seq<char>>::empty());
        let mut i: usize = 0;
        while i < ls.len()
            invariant
                0 <= i <= ls@.len(),
                views(ls@) == all,
                views(q@) == loaded(all.take(i as int), max_entries),
            decreases ls@.len() - i,
        {
            assert(all.take(i + 1).drop_last() =~= all.take(i as int));
            assert(all.take(i + 1).last() == ls@[i as int]@);
            let line = trim_string(ls[i].as_str());
            if !line.as_str().is_empty() {
                let n = q.len();
                let repeat = n > 0 && str_eq(q[n - 1].as_str(), line.as_str());
                if !repeat {
                    proof {
                        if q@.len() > 0 {
                            assert(views(q@).last() == q@.last()@);
                        }
                    }
                    push_entry(&mut q, line, max_entries);
                } else {
                    assert(views(q@).last() == q@.last()@);
                }
            }
            i += 1;
        }
        assert(all.take(ls@.len() as int) =~= all);
        CommandHistory { entries: q, max_entries }
    }

    /// Records a typed command and says what the history file needs: the
    /// command is normalized; a blank one, or one repeating the newest
    /// entry, is not recorded; when old entries had to go, the file is
    /// rewritten, else the command is appended to it.  A file that held
    /// the history before holds it after the write.
    pub fn append(&mut self, command: &str) -> (w: HistoryWrite)
        ensures
            after_write(file_text(old(self).entries()), w) == file_text(final(self).entries()),
            final(self).max_entries() == old(self).max_entries(),
            final(self).entries() == add_entry(
                old(self).entries(),
                normalized(command@),
                old(self).max_entries(),
            ),
            final(self).entries() == old(self).entries() ==> w == HistoryWrite::Nothing,
            final(self).entries() != old(self).entries() ==> match w {
                HistoryWrite::AppendLine(line) => line@ == normalized(command@)
                    && final(self).entries() == old(self).entries().push(line@),
                HistoryWrite::Rewrite(all) => views(all@) == final(self).entries(),
                HistoryWrite::Nothing => false,
            },
            final(self).entries() != old(self).entries() ==> ((w is AppendLine) <==> old(self).entries().len()
                + 1 <= limit(old(self).max_entries())),
    {
        let c = normalize_command(command);
        if c.as_str().is_empty() {
            return HistoryWrite::Nothing;
        }
        let n = self.entries.len();
        let repeat = n > 0 && str_eq(self.entries[n - 1].as_str(), c.as_str());
        if repeat {
            assert(views(self.entries@).last() == self.entries@.last()@);
            return HistoryWrite::Nothing;
        }
        proof {
            if self.entries@.len() > 0 {
                assert(views(self.entries@).last() == self.entries@.last()@);
            }
        }
        let line = copy_string(&c);
        let ghost before = views(self.entries@);
        let dropped = push_entry(&mut self.entries, c, self.max_entries);
        proof {
            let after = views(self.entries@);
            assert(after.len() == before.len() + 1 || dropped);
            if !dropped {
                assert(after =~= before.push(line@));
                assert(before.push(line@).drop_last() =~= before);
                assert(file_text(after) == file_text(before) + line@ + seq!['\n']);
            }
            assert(after.len() > before.len() || after.last() != before.last() || after != before) by {
                assert(after.last() == line@);
                if after == before && before.len() > 0 {
                    assert(before.last() == line@);
                }
            }
        }
        if dropped {
            let mut all: Vec<String> = Vec::new();
            let mut i: usize = 0;
            while i < self.entries.len()
                invariant
                    0 <= i <= self.entries@.len(),
                    views(all@) == views(self.entries@).take(i as int),
                    all@.len() == i,
                decreases self.entries@.len() - i,
            {
                let e = copy_string(&self.entries[i]);
                let ghost prev = all@;
                all.push(e);
                assert(all@ == prev.push(e));
                assert(views(all@)[i as int] == e@);
                assert(views(self.entries@)[i as int] == self.entries@[i as int]@);
                assert(views(all@) =~= views(self.entries@).take(i + 1));
                i += 1;
            }
            assert(views(self.entries@).take(self.entries@.len() as int) =~= views(self.entries@));
            HistoryWrite::Rewrite(all)
        } else {
            HistoryWrite::AppendLine(line)
        }
    }

    /// The entries, oldest first, to seed command suggestions.
    pub fn seed(&self) -> (out: Vec<String>)
        ensures
            views(out@) == self.entries(),
    {
        let mut out: Vec<String> = Vec::new();
        let mut i: usize = 0;
        while i < self.entries.len()
            invariant
                0 <= i <= self.entries@.len(),
                views(out@) == views(self.entries@).take(i as int),
                out@.len() == i,
            decreases self.entries@.len() - i,
        {
            let e = copy_string(&self.entries[i]);
            let ghost prev = out@;
            out.push(e);
            assert(out@ == prev.push(e));
            assert(views(out@)[i as int] == e@);
            assert(views(self.entries@)[i as int] == self.entries@[i as int]@);
            assert(views(out@) =~= views(self.entries@).take(i + 1));
            i += 1;
        }
        assert(views(self.entries@).take(self.entries@.len() as int) =~= views(self.entries@));
        out
    }
}

/// The text a rewritten history file holds.
pub fn compacted_file_text(ls: &Vec<String>) -> (out: String)
    ensures
        out@ == file_text(views(ls@)),
{
    let mut out = String::new();
    let mut i: usize = 0;
    while i < ls.len()
        invariant
            0 <= i <= ls@.len(),
            out@ == file_text(views(ls@).take(i as int)),
        decreases ls@.len() - i,
    {
        assert(views(ls@).take(i + 1).drop_last() =~= views(ls@).take(i as int));
        push_str(&mut out, ls[i].as_str());
        push_str(&mut out, "\n");
        proof {
            reveal_strlit("\n");
        }
        i += 1;
    }
    assert(views(ls@).take(ls@.len() as int) =~= views(ls@));
    out
}

/// Adding an entry keeps a well-kept history well kept.
pub proof fn law_add_entry_keeps_history_ok(h: Seq<Seq<char>>, entry: Seq<char>, max_entries: usize)
    requires
        history_ok(h, max_entries),
    ensures
        history_ok(add_entry(h, entry, max_entries), max_entries),
{
    if !(entry.len() == 0 || (h.len() > 0 && h.last() == entry)) {
        let full = h.push(entry);
        let r = keep_last(full, limit(max_entries));
        let d = full.len() - r.len();
        assert forall|i: int| 0 <= i < r.len() implies (#[trigger] r[i]).len() > 0 by {
            assert(r[i] == full[i + d]);
        }
        assert forall|i: int| 0 < i < r.len() implies #[trigger] r[i] != r[i - 1] by {
            assert(r[i] == full[i + d]);
            assert(r[i - 1] == full[i - 1 + d]);
        }
    }
}

/// A history read from a file is well kept, whatever the file holds.
pub proof fn law_loaded_history_is_ok(ls: Seq<Seq<char>>, max_entries: usize)
    ensures
        history_ok(loaded(ls, max_entries), max_entries),
    decreases ls.len(),
{
    if ls.len() > 0 {
        law_loaded_history_is_ok(ls.drop_last(), max_entries);
        law_add_entry_keeps_history_ok(loaded(ls.drop_last(), max_entries), trim(ls.last()), max_entries);
    }
}

/// An entry as the history stores it: trimmed and on one line.
pub open spec fn single_line(e: Seq<char>) -> bool {
    &&& trim(e) == e
    &&& forall|j: int| 0 <= j < e.len() ==> #[trigger] e[j] != '\n' && e[j] != '\r'
}

/// A normalized command is trimmed and on one line.
pub proof fn lemma_normalized_single_line(command: Seq<char>)
    ensures
        single_line(normalized(command)),
{
    let t = trim(command);
    let n = normalized(command);
    crate::text::lemma_trim_ends(command);
    if n.len() > 0 {
        assert(n[0] == t[0]);
        assert(n.last() == t.last());
        assert(trim_start(n) == n);
        assert(trim_end(n) == n);
    } else {
        assert(n =~= Seq::<char>::empty());
    }
}

proof fn lemma_file_text_append(a: Seq<Seq<char>>, b: Seq<Seq<char>>)
    ensures
        file_text(a + b) == file_text(a) + file_text(b),
    decreases b.len(),
{
    if b.len() == 0 {
        assert(a + b =~= a);
        assert(file_text(a) + file_text(b) =~= file_text(a));
    } else {
        lemma_file_text_append(a, b.drop_last());
        assert((a + b).drop_last() =~= a + b.drop_last());
        assert((a + b).last() == b.last());
        assert(file_text(a + b) =~= file_text(a) + file_text(b));
    }
}

proof fn lemma_find_newline_shift(p: Seq<char>, y: Seq<char>, i: int)
    requires
        0 <= i,
    ensures
        crate::text::find_char_from(p + y, '\n', p.len() + i) == match crate::text::find_char_from(y, '\n', i) {
            Some(j) => Some(j + p.len()),
            None => None::<int>,
        },
    decreases y.len() - i,
{
    if i < y.len() {
        assert((p + y)[p.len() + i] == y[i]);
        if y[i] != '\n' {
            lemma_find_newline_shift(p, y, i + 1);
        }
    }
}

proof fn lemma_lines_shift(p: Seq<char>, y: Seq<char>, i: int)
    requires
        0 <= i,
    ensures
        crate::text::lines_from(p + y, p.len() + i) == crate::text::lines_from(y, i),
    decreases y.len() - i,
{
    let s = p + y;
    if i < y.len() {
        lemma_find_newline_shift(p, y, i);
        crate::text::lemma_find_char_from_bounds(y, '\n', i);
        match crate::text::find_char_from(y, '\n', i) {
            Some(j) => {
                assert(s.subrange(p.len() + i, p.len() + j) =~= y.subrange(i, j));
                lemma_lines_shift(p, y, j + 1);
            },
            None => {
                assert(s.subrange(p.len() + i, s.len() as int) =~= y.subrange(i, y.len() as int));
            },
        }
    }
}

/// The lines of a history file are the entries written to it.
proof fn lemma_lines_of_file_text(h: Seq<Seq<char>>)
    requires
        forall|i: int| 0 <= i < h.len() ==> single_line(#[trigger] h[i]),
    ensures
        crate::text::lines(file_text(h)) == h,
    decreases h.len(),
{
    if h.len() > 0 {
        let h0 = h[0];
        let rest = h.skip(1);
        assert(h =~= seq![h0] + rest);
        lemma_file_text_append(seq![h0], rest);
        assert(seq![h0].drop_last() =~= Seq::<Seq<char>>::empty());
        let p = h0 + seq!['\n'];
        assert(file_text(Seq::<Seq<char>>::empty()) =~= Seq::<char>::empty());
        assert(seq![h0].last() == h0);
        assert(file_text(seq![h0]) == file_text(seq![h0].drop_last()) + h0 + seq!['\n']);
        assert(file_text(seq![h0]) =~= p);
        let s = file_text(h);
        assert(s == p + file_text(rest));
        assert(single_line(h0));
        assert forall|k: int| 0 <= k < h0.len() implies s[k] != '\n' by {
            assert(s[k] == h0[k]);
        }
        assert(s[h0.len() as int] == '\n');
        assert(crate::text::find_char_from(s, '\n', 0) == Some(h0.len() as int)) by {
            lemma_find_first_newline(s, h0.len() as int, 0);
        }
        assert(s.subrange(0, h0.len() as int) =~= h0);
        if h0.len() > 0 {
            assert(h0.last() != '\r');
        }
        lemma_lines_shift(p, file_text(rest), 0);
        assert forall|i: int| 0 <= i < rest.len() implies single_line(#[trigger] rest[i]) by {
            assert(rest[i] == h[i + 1]);
        }
        lemma_lines_of_file_text(rest);
        assert(crate::text::lines(s) =~= seq![h0] + rest);
    } else {
        assert(file_text(h) =~= Seq::<char>::empty());
    }
}

proof fn lemma_find_first_newline(s: Seq<char>, n: int, i: int)
    requires
        0 <= i <= n < s.len(),
        s[n] == '\n',
        forall|k: int| 0 <= k < n ==> s[k] != '\n',
    ensures
        crate::text::find_char_from(s, '\n', i) == Some(n),
    decreases n - i,
{
    if i < n {
        lemma_find_first_newline(s, n, i + 1);
    }
}

/// Reading back a well-kept history of trimmed one-line entries gives it
/// back unchanged.
proof fn lemma_loaded_identity(h: Seq<Seq<char>>, max_entries: usize)
    requires
        history_ok(h, max_entries),
        forall|i: int| 0 <= i < h.len() ==> single_line(#[trigger] h[i]),
    ensures
        loaded(h, max_entries) == h,
    decreases h.len(),
{
    if h.len() > 0 {
        let d = h.drop_last();
        assert forall|i: int| 0 < i < d.len() implies #[trigger] d[i] != d[i - 1] by {
            assert(d[i] == h[i] && d[i - 1] == h[i - 1]);
        }
        assert forall|i: int| 0 <= i < d.len() implies single_line(#[trigger] d[i]) && d[i].len() > 0 by {
            assert(d[i] == h[i]);
        }
        lemma_loaded_identity(d, max_entries);
        assert(single_line(h[h.len() - 1]));
        assert(trim(h.last()) == h.last());
        if d.len() > 0 {
            assert(d.last() == h[h.len() - 2]);
        }
        assert(d.push(h.last()) =~= h);
    }
}

/// A history written to its file reads back as the same history: the file
/// keeps every entry, in order, and reloading drops nothing.
pub proof fn law_history_file_round_trip(h: Seq<Seq<char>>, max_entries: usize)
    requires
        history_ok(h, max_entries),
        forall|i: int| 0 <= i < h.len() ==> single_line(#[trigger] h[i]),
    ensures
        loaded(crate::text::lines(file_text(h)), max_entries) == h,
{
    lemma_lines_of_file_text(h);
    lemma_loaded_identity(h, max_entries);
}

/// Recording a command keeps every entry trimmed and on one line, so the
/// history file always has one entry per line.
pub proof fn law_recorded_entries_are_single_line(h: Seq<Seq<char>>, command: Seq<char>, max_entries: usize)
    requires
        forall|i: int| 0 <= i < h.len() ==> single_line(#[trigger] h[i]),
    ensures
        ({
            let r = add_entry(h, normalized(command), max_entries);
            forall|i: int| 0 <= i < r.len() ==> single_line(#[trigger] r[i])
        }),
{
    lemma_normalized_single_line(command);
    let e = normalized(command);
    if !(e.len() == 0 || (h.len() > 0 && h.last() == e)) {
        let full = h.push(e);
        let r = keep_last(full, limit(max_entries));
        let d = full.len() - r.len();
        assert forall|i: int| 0 <= i < r.len() implies single_line(#[trigger] r[i]) by {
            assert(r[i] == full[i + d]);
            if i + d < h.len() {
                assert(full[i + d] == h[i + d]);
            }
        }
    }
}

} // verus!

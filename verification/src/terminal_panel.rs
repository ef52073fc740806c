//! Names, labels and drop rules of terminal tabs.
use vstd::prelude::*;

use crate::text::{dec_digits, push_str, str_eq, trim, trim_string, u64_to_dec};

verus! {

/// What a terminal tab runs.
#[derive(Clone, Copy, Debug, PartialEq, Eq, Structural)]
pub enum PanelKind {
    Local,
    Ssh,
    Serial,
    Recorder,
}

/// The word a tab of each kind is named with.
pub open spec fn kind_word(kind: PanelKind) -> Seq<char> {
    match kind {
        PanelKind::Local => "local"@,
        PanelKind::Ssh => "ssh"@,
        PanelKind::Serial => "serial"@,
        PanelKind::Recorder => "recorder"@,
    }
}

/// A string holding `t`.
fn owned(t: &str) -> (s: String)
    ensures
        s@ == t@,
{
    let mut s = String::new();
    push_str(&mut s, t);
    s
}

/// Files dropped on a tab upload over SFTP only on an SSH tab with SFTP
/// available, and only when at least one path was dropped and every dropped
/// path is a file (`path_is_file[i]` tells whether path `i` is one).
pub fn supports_sftp_file_drop(kind: PanelKind, has_sftp: bool, path_is_file: &[bool]) -> (ok: bool)
    ensures
        ok == (kind == PanelKind::Ssh && has_sftp && path_is_file@.len() > 0 && forall|i: int|
            0 <= i < path_is_file@.len() ==> path_is_file@[i]),
{
    if kind != PanelKind::Ssh || !has_sftp || path_is_file.len() == 0 {
        return false;
    }
    let mut i: usize = 0;
    while i < path_is_file.len()
        invariant
            0 <= i <= path_is_file@.len(),
            forall|k: int| 0 <= k < i ==> path_is_file@[k],
        decreases path_is_file@.len() - i,
    {
        if !path_is_file[i] {
            return false;
        }
        i += 1;
    }
    true
}

/// `1 file`, or `<n> files` for any other count.
pub fn sftp_upload_file_count_label(count: usize) -> (label: String)
    ensures
        label@ == if count == 1 {
            "1 file"@
        } else {
            dec_digits(count as nat) + " files"@
        },
{
    if count == 1 {
        owned("1 file")
    } else {
        let mut label = u64_to_dec(count as u64);
        push_str(&mut label, " files");
        label
    }
}

/// `Destination: <dir>` for a known, non-blank remote directory, else a
/// note that files go to the current remote directory.
pub fn sftp_upload_destination_label(current_dir: Option<&str>) -> (label: String)
    ensures
        label@ == match current_dir {
            Some(path) if trim(path@).len() > 0 => "Destination: "@ + path@,
            _ => "Destination: current remote directory"@,
        },
{
    match current_dir {
        Some(path) => {
            let t = trim_string(path);
            if t.as_str().is_empty() {
                owned("Destination: current remote directory")
            } else {
                let mut label = owned("Destination: ");
                push_str(&mut label, path);
                label
            }
        },
        None => owned("Destination: current remote directory"),
    }
}

/// The default name of tab `id`: its kind's word, a space and the id.
pub fn terminal_panel_tab_name(kind: PanelKind, id: usize) -> (name: String)
    ensures
        name@ == kind_word(kind) + " "@ + dec_digits(id as nat),
{
    let mut name = match kind {
        PanelKind::Local => owned("local"),
        PanelKind::Ssh => owned("ssh"),
        PanelKind::Serial => owned("serial"),
        PanelKind::Recorder => owned("recorder"),
    };
    push_str(&mut name, " ");
    let digits = u64_to_dec(id as u64);
    push_str(&mut name, digits.as_str());
    name
}

/// The index of the first entry at or after `i` named `name`.
pub open spec fn first_named(s: Seq<(Seq<char>, nat)>, name: Seq<char>, i: int) -> Option<int>
    decreases s.len() - i,
{
    if i < 0 || i >= s.len() {
        None
    } else if s[i].0 == name {
        Some(i)
    } else {
        first_named(s, name, i + 1)
    }
}

/// How many tabs named `name` were opened so far.
pub open spec fn count_in(s: Seq<(Seq<char>, nat)>, name: Seq<char>) -> nat {
    match first_named(s, name, 0) {
        Some(i) => s[i].1,
        None => 0,
    }
}

proof fn lemma_first_named(s: Seq<(Seq<char>, nat)>, name: Seq<char>, i: int)
    requires
        0 <= i,
    ensures
        match first_named(s, name, i) {
            Some(j) => i <= j < s.len() && s[j].0 == name && forall|k: int|
                i <= k < j ==> s[k].0 != name,
            None => forall|k: int| i <= k < s.len() ==> s[k].0 != name,
        },
    decreases s.len() - i,
{
    if 0 <= i < s.len() && s[i].0 != name {
        lemma_first_named(s, name, i + 1);
    }
}

proof fn lemma_first_named_is(s: Seq<(Seq<char>, nat)>, name: Seq<char>, i: int, j: int)
    requires
        0 <= i <= j,
        j < s.len() ==> s[j].0 == name,
        j <= s.len(),
        forall|k: int| i <= k < j ==> s[k].0 != name,
    ensures
        first_named(s, name, i) == if j < s.len() {
            Some(j)
        } else {
            None::<int>
        },
    decreases j - i,
{
    if i < j {
        lemma_first_named_is(s, name, i + 1, j);
    }
}

/// How many tabs were opened per base name, so that a second `bash` tab is
/// named `bash 2`.
pub struct TabNameCounts {
    entries: Vec<(String, usize)>,
}

impl TabNameCounts {
    /// The counts, as (shell name, count) pairs.
    pub closed spec fn model(&self) -> Seq<(Seq<char>, nat)> {
        self.entries@.map_values(|e: (String, usize)| (e.0@, e.1 as nat))
    }

    /// How many tabs named `name` were opened.
    pub open spec fn count(&self, name: Seq<char>) -> nat {
        count_in(self.model(), name)
    }

    /// No tab opened yet.
    pub fn new() -> (c: Self)
        ensures
            forall|name: Seq<char>| c.count(name) == 0,
    {
        let c = TabNameCounts { entries: Vec::new() };
        assert(c.model() =~= Seq::<(Seq<char>, nat)>::empty());
        c
    }

    /// Counts one more tab of shell `name` and returns the new count.
    fn bump(&mut self, name: &str) -> (n: usize)
        requires
            old(self).count(name@) < usize::MAX,
        ensures
            n == old(self).count(name@) + 1,
            final(self).count(name@) == n,
            forall|other: Seq<char>| other != name@ ==> final(self).count(other) == old(self).count(other),
    {
        let ghost m = self.model();
        proof {
            lemma_first_named(m, name@, 0);
        }
        let mut i: usize = 0;
        while i < self.entries.len()
            invariant
                0 <= i <= self.entries@.len(),
                m == self.model(),
                m.len() == self.entries@.len(),
                forall|k: int| 0 <= k < i ==> m[k].0 != name@,
                forall|k: int| 0 <= k < m.len() ==> (#[trigger] m[k]).0 == self.entries@[k].0@ && m[k].1 == self.entries@[k].1 as nat,
                m == old(self).model(),
                count_in(m, name@) < usize::MAX,
            decreases self.entries@.len() - i,
        {
            if str_eq(self.entries[i].0.as_str(), name) {
                proof {
                    lemma_first_named_is(m, name@, 0, i as int);
                }
                let n = self.entries[i].1 + 1;
                self.entries.set(i, (owned(name), n));
                let ghost u = self.model();
                assert(u =~= m.update(i as int, (name@, n as nat)));
                proof {
                    lemma_first_named_is(u, name@, 0, i as int);
                    assert forall|other: Seq<char>| other != name@ implies count_in(u, other) == count_in(m, other) by {
                        lemma_first_named(m, other, 0);
                        match first_named(m, other, 0) {
                            Some(j) => {
                                lemma_first_named_is(u, other, 0, j);
                            },
                            None => {
                                lemma_first_named_is(u, other, 0, u.len() as int);
                            },
                        }
                    }
                }
                return n;
            }
            i += 1;
        }
        proof {
            lemma_first_named_is(m, name@, 0, m.len() as int);
        }
        self.entries.push((owned(name), 1));
        let ghost u = self.model();
        assert(u =~= m.push((name@, 1nat)));
        proof {
            lemma_first_named_is(u, name@, 0, m.len() as int);
            assert forall|other: Seq<char>| other != name@ implies count_in(u, other) == count_in(m, other) by {
                lemma_first_named(m, other, 0);
                match first_named(m, other, 0) {
                    Some(j) => {
                        lemma_first_named_is(u, other, 0, j);
                    },
                    None => {
                        lemma_first_named_is(u, other, 0, u.len() as int);
                    },
                }
            }
        }
        1
    }
}

/// `base` for the first tab of that name, `base n` for the `n`-th.
pub open spec fn numbered(base: Seq<char>, n: nat) -> Seq<char> {
    if n == 1 {
        base
    } else {
        base + " "@ + dec_digits(n)
    }
}

/// Counts one more tab named `base` and returns its numbered label.
pub fn next_numbered_label(counts: &mut TabNameCounts, base: &str) -> (label: String)
    requires
        old(counts).count(base@) < usize::MAX,
    ensures
        final(counts).count(base@) == old(counts).count(base@) + 1,
        forall|other: Seq<char>| other != base@ ==> final(counts).count(other) == old(counts).count(other),
        label@ == numbered(base@, old(counts).count(base@) + 1),
{
    let n = counts.bump(base);
    if n == 1 {
        owned(base)
    } else {
        let mut name = owned(base);
        push_str(&mut name, " ");
        let digits = u64_to_dec(n as u64);
        push_str(&mut name, digits.as_str());
        name
    }
}

/// The name of a local tab: the shell's display name, with its sequence
/// number appended from the second tab of that shell on; without a
/// (non-blank) display name, the default name of tab `id`.
pub fn local_terminal_panel_tab_name(
    shell_display_name: Option<&str>,
    id: usize,
    counts: &mut TabNameCounts,
) -> (name: String)
    requires
        shell_display_name matches Some(b) ==> old(counts).count(b@) < usize::MAX,
    ensures
        match shell_display_name {
            Some(b) if trim(b@).len() > 0 => {
                let n = old(counts).count(b@) + 1;
                &&& final(counts).count(b@) == n
                &&& forall|other: Seq<char>|
                    other != b@ ==> final(counts).count(other) == old(counts).count(other)
                &&& name@ == numbered(b@, n)
            },
            _ => {
                &&& forall|other: Seq<char>| final(counts).count(other) == old(counts).count(other)
                &&& name@ == kind_word(PanelKind::Local) + " "@ + dec_digits(id as nat)
            },
        },
{
    match shell_display_name {
        Some(base) => {
            let t = trim_string(base);
            if t.as_str().is_empty() {
                return terminal_panel_tab_name(PanelKind::Local, id);
            }
            next_numbered_label(counts, base)
        },
        None => terminal_panel_tab_name(PanelKind::Local, id),
    }
}

} // verus!

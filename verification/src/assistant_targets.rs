//! What the assistant knows of the open terminals: the terminals it can
//! send commands to, and the latest screen text and command output of each.
use std::collections::HashMap;

use vstd::prelude::*;

use crate::assistant::{truncate_text, truncated};
use crate::text::{push_str, seq_lt, str_eq, str_lt, trim, trim_string};

verus! {

broadcast use vstd::std_specs::hash::group_hash_axioms;

/// The most characters of terminal text kept for the assistant.
pub const DEFAULT_TERMINAL_CONTEXT_MAX_CHARS: usize = 12000;

/// How many lines of a terminal the assistant reads.
pub const DEFAULT_TERMINAL_CONTEXT_MAX_LINES: usize = 200;

/// How often the terminal text is read, in milliseconds.
pub const DEFAULT_TERMINAL_CONTEXT_POLL_INTERVAL_MS: u64 = 500;

/// A copy of `s`.
fn copy_string(s: &String) -> (out: String)
    ensures
        out@ == s@,
{
    let mut out = String::new();
    push_str(&mut out, s.as_str());
    out
}

/// The text kept of a snapshot: trimmed and cut to the limit; none when
/// the text is blank.
pub open spec fn kept_text(text: Seq<char>) -> Option<Seq<char>> {
    if trim(text).len() == 0 {
        None
    } else {
        Some(truncated(trim(text), DEFAULT_TERMINAL_CONTEXT_MAX_CHARS as nat))
    }
}

/// The latest screen text of each terminal.
pub struct AssistantTerminalContextState {
    snapshots: HashMap<usize, String>,
}

impl AssistantTerminalContextState {
    /// The text kept for each terminal.
    pub closed spec fn texts(&self) -> Map<usize, Seq<char>> {
        self.snapshots@.map_values(|s: String| s@)
    }

    /// No text kept.
    pub fn new() -> (s: Self)
        ensures
            s.texts() == Map::<usize, Seq<char>>::empty(),
    {
        let s = AssistantTerminalContextState { snapshots: HashMap::new() };
        assert(s.texts() =~= Map::<usize, Seq<char>>::empty());
        s
    }

    /// Keeps `text` as the latest screen text of terminal `panel_id`,
    /// trimmed and cut to the limit; blank text forgets the terminal's text.
    pub fn upsert_snapshot(&mut self, panel_id: usize, text: &str)
        ensures
            final(self).texts() == match kept_text(text@) {
                Some(t) => old(self).texts().insert(panel_id, t),
                None => old(self).texts().remove(panel_id),
            },
    {
        let t = trim_string(text);
        if t.as_str().is_empty() {
            self.snapshots.remove(&panel_id);
            assert(self.texts() =~= old(self).texts().remove(panel_id));
            return;
        }
        let kept = truncate_text(t.as_str(), DEFAULT_TERMINAL_CONTEXT_MAX_CHARS);
        self.snapshots.insert(panel_id, kept);
        assert(self.texts() =~= old(self).texts().insert(panel_id, truncated(trim(text@), DEFAULT_TERMINAL_CONTEXT_MAX_CHARS as nat)));
    }

    /// The latest screen text of terminal `panel_id`.
    pub fn get_snapshot_text(&self, panel_id: usize) -> (r: Option<String>)
        ensures
            match r {
                Some(t) => self.texts().contains_key(panel_id) && self.texts()[panel_id] == t@,
                None => !self.texts().contains_key(panel_id),
            },
    {
        match self.snapshots.get(&panel_id) {
            Some(s) => Some(copy_string(s)),
            None => None,
        }
    }
}

/// The output of the latest finished command of a terminal.
pub struct CommandOutputSnapshot {
    pub block_id: u64,
    pub text: String,
}

/// The latest command output of each terminal.
pub struct AssistantCommandOutputState {
    snapshots: HashMap<usize, CommandOutputSnapshot>,
}

impl AssistantCommandOutputState {
    /// The command block and text kept for each terminal.
    pub closed spec fn outputs(&self) -> Map<usize, (u64, Seq<char>)> {
        self.snapshots@.map_values(|s: CommandOutputSnapshot| (s.block_id, s.text@))
    }

    /// No output kept.
    pub fn new() -> (s: Self)
        ensures
            s.outputs() == Map::<usize, (u64, Seq<char>)>::empty(),
    {
        let s = AssistantCommandOutputState { snapshots: HashMap::new() };
        assert(s.outputs() =~= Map::<usize, (u64, Seq<char>)>::empty());
        s
    }

    /// Keeps `text` as the output of command block `block_id` of terminal
    /// `panel_id`, trimmed and cut to the limit; blank output forgets the
    /// terminal's output.
    pub fn upsert_snapshot(&mut self, panel_id: usize, block_id: u64, text: &str)
        ensures
            final(self).outputs() == match kept_text(text@) {
                Some(t) => old(self).outputs().insert(panel_id, (block_id, t)),
                None => old(self).outputs().remove(panel_id),
            },
    {
        let t = trim_string(text);
        if t.as_str().is_empty() {
            self.snapshots.remove(&panel_id);
            assert(self.outputs() =~= old(self).outputs().remove(panel_id));
            return;
        }
        let kept = truncate_text(t.as_str(), DEFAULT_TERMINAL_CONTEXT_MAX_CHARS);
        self.snapshots.insert(panel_id, CommandOutputSnapshot { block_id, text: kept });
        assert(self.outputs() =~= old(self).outputs().insert(
            panel_id,
            (block_id, truncated(trim(text@), DEFAULT_TERMINAL_CONTEXT_MAX_CHARS as nat)),
        ));
    }

    /// The latest command output of terminal `panel_id`.
    pub fn get_snapshot_text(&self, panel_id: usize) -> (r: Option<String>)
        ensures
            match r {
                Some(t) => self.outputs().contains_key(panel_id) && self.outputs()[panel_id].1 == t@,
                None => !self.outputs().contains_key(panel_id),
            },
    {
        match self.snapshots.get(&panel_id) {
            Some(s) => Some(copy_string(&s.text)),
            None => None,
        }
    }

    /// The command block whose output is kept for terminal `panel_id`.
    pub fn get_snapshot_block_id(&self, panel_id: usize) -> (r: Option<u64>)
        ensures
            match r {
                Some(b) => self.outputs().contains_key(panel_id) && self.outputs()[panel_id].0 == b,
                None => !self.outputs().contains_key(panel_id),
            },
    {
        match self.snapshots.get(&panel_id) {
            Some(s) => Some(s.block_id),
            None => None,
        }
    }
}

/// Which terminal panel has the focus.
pub struct FocusedTerminalState {
    pub focused_panel_id: Option<usize>,
}

impl FocusedTerminalState {
    /// No panel focused.
    pub fn new() -> (s: Self)
        ensures
            s.focused_panel_id is None,
    {
        FocusedTerminalState { focused_panel_id: None }
    }

    /// Records the focused panel.
    pub fn set_focused(&mut self, panel_id: Option<usize>)
        ensures
            final(self).focused_panel_id == panel_id,
    {
        self.focused_panel_id = panel_id;
    }
}

/// A terminal the assistant can send input to.
#[derive(Clone, Debug, PartialEq, Eq)]
pub struct TerminalTargetInfo {
    pub panel_id: usize,
    pub label: String,
}

/// The order targets are listed in: by label, then by panel id.
pub open spec fn target_lt(a: (usize, Seq<char>), b: (usize, Seq<char>)) -> bool {
    seq_lt(a.1, b.1) || (a.1 == b.1 && a.0 < b.0)
}

/// Targets listed in strictly ascending order; so no panel is listed twice
/// under one label.
pub open spec fn targets_sorted(s: Seq<(usize, Seq<char>)>) -> bool {
    forall|i: int, j: int| 0 <= i < j < s.len() ==> target_lt(#[trigger] s[i], #[trigger] s[j])
}

/// No panel is listed twice.
pub open spec fn ids_unique(s: Seq<(usize, Seq<char>)>) -> bool {
    forall|i: int, j: int| 0 <= i < j < s.len() ==> (#[trigger] s[i]).0 != (#[trigger] s[j]).0
}

/// The label of each listed panel.
pub open spec fn labels_of(s: Seq<(usize, Seq<char>)>) -> Map<usize, Seq<char>> {
    Map::new(
        |id: usize| exists|i: int| 0 <= i < s.len() && (#[trigger] s[i]).0 == id,
        |id: usize| s[choose|i: int| 0 <= i < s.len() && (#[trigger] s[i]).0 == id].1,
    )
}

/// Terminal targets kept in listing order.
struct TargetList {
    targets: Vec<TerminalTargetInfo>,
}

impl TargetList {
    /// The targets in listing order.
    spec fn listing(&self) -> Seq<(usize, Seq<char>)> {
        self.targets@.map_values(|t: TerminalTargetInfo| (t.panel_id, t.label@))
    }

    /// The listing is sorted and lists each panel once.
    spec fn wf(&self) -> bool {
        targets_sorted(self.listing()) && ids_unique(self.listing())
    }

    /// No target registered.
    fn new() -> (s: Self)
        ensures
            s.wf(),
            s.listing().len() == 0,
    {
        let s = TargetList { targets: Vec::new() };
        assert(s.listing() =~= Seq::<(usize, Seq<char>)>::empty());
        s
    }

    /// Forgets terminal `panel_id`.
    fn remove_target(&mut self, panel_id: usize)
        requires
            old(self).wf(),
        ensures
            final(self).wf(),
            labels_of(final(self).listing()) == labels_of(old(self).listing()).remove(panel_id),
    {
        let ghost before = self.listing();
        let mut i: usize = 0;
        while i < self.targets.len()
            invariant
                0 <= i <= self.targets@.len(),
                self.targets@ == old(self).targets@,
                before == self.listing(),
                targets_sorted(before),
                ids_unique(before),
                forall|k: int| 0 <= k < i ==> before[k].0 != panel_id,
            decreases self.targets@.len() - i,
        {
            if self.targets[i].panel_id == panel_id {
                self.targets.remove(i);
                let ghost after = self.listing();
                assert(after =~= before.remove(i as int));
                proof {
                    assert(targets_sorted(after)) by {
                        assert forall|a: int, b: int| 0 <= a < b < after.len() implies target_lt(#[trigger] after[a], #[trigger] after[b]) by {
                            let a2 = if a < i { a } else { a + 1 };
                            let b2 = if b < i { b } else { b + 1 };
                            assert(after[a] == before[a2] && after[b] == before[b2]);
                        }
                    }
                    assert(ids_unique(after)) by {
                        assert forall|a: int, b: int| 0 <= a < b < after.len() implies (#[trigger] after[a]).0 != (#[trigger] after[b]).0 by {
                            let a2 = if a < i { a } else { a + 1 };
                            let b2 = if b < i { b } else { b + 1 };
                            assert(after[a] == before[a2] && after[b] == before[b2]);
                        }
                    }
                    assert(labels_of(after) =~= labels_of(before).remove(panel_id)) by {
                        assert forall|id: usize| #[trigger] labels_of(after).contains_key(id) <==> labels_of(before).remove(panel_id).contains_key(id) by {
                            if labels_of(after).contains_key(id) {
                                let k = choose|k: int| 0 <= k < after.len() && (#[trigger] after[k]).0 == id;
                                let k2 = if k < i { k } else { k + 1 };
                                assert(before[k2] == after[k]);
                                assert(before[i as int].0 == panel_id);
                                if k2 < i {
                                    assert(before[k2].0 != before[i as int].0);
                                } else {
                                    assert(before[i as int].0 != before[k2].0);
                                }
                            }
                            if labels_of(before).remove(panel_id).contains_key(id) {
                                let k = choose|k: int| 0 <= k < before.len() && (#[trigger] before[k]).0 == id;
                                assert(k != i);
                                let k2 = if k < i { k } else { k - 1 };
                                assert(after[k2] == before[k]);
                            }
                        }
                        assert forall|id: usize| #[trigger] labels_of(after).contains_key(id) implies labels_of(after)[id] == labels_of(before)[id] by {
                            let k = choose|k: int| 0 <= k < after.len() && (#[trigger] after[k]).0 == id;
                            let k2 = if k < i { k } else { k + 1 };
                            assert(before[k2] == after[k]);
                            let kb = choose|k: int| 0 <= k < before.len() && (#[trigger] before[k]).0 == id;
                            assert(kb == k2);
                        }
                    }
                }
                return;
            }
            i += 1;
        }
        assert(labels_of(before) =~= labels_of(before).remove(panel_id)) by {
            assert(!labels_of(before).contains_key(panel_id));
        }
    }

    /// Registers terminal `panel_id` under `label`, replacing its old label.
    fn upsert_target(&mut self, panel_id: usize, label: &str)
        requires
            old(self).wf(),
        ensures
            final(self).wf(),
            labels_of(final(self).listing()) == labels_of(old(self).listing()).insert(panel_id, label@),
    {
        self.remove_target(panel_id);
        let ghost before = self.listing();
        let ghost key = (panel_id, label@);
        let mut i: usize = 0;
        loop
            invariant
                0 <= i <= self.targets@.len(),
                before == self.listing(),
                key == (panel_id, label@),
                forall|k: int| 0 <= k < i ==> target_lt(before[k], key),
            ensures
                0 <= i <= self.targets@.len(),
                before == self.listing(),
                forall|k: int| 0 <= k < i ==> target_lt(before[k], key),
                i < self.targets@.len() ==> !target_lt(before[i as int], key),
            decreases self.targets@.len() - i,
        {
            if i >= self.targets.len() {
                break;
            }
            assert(before[i as int] == (self.targets@[i as int].panel_id, self.targets@[i as int].label@));
            let lt = str_lt(self.targets[i].label.as_str(), label);
            let eq = str_eq(self.targets[i].label.as_str(), label);
            let before_key = lt || (eq && self.targets[i].panel_id < panel_id);
            if !before_key {
                break;
            }
            i += 1;
        }
        let mut l = String::new();
        push_str(&mut l, label);
        self.targets.insert(i, TerminalTargetInfo { panel_id, label: l });
        let ghost after = self.listing();
        assert(after =~= before.insert(i as int, key));
        proof {
            assert(!labels_of(before).contains_key(panel_id));
            assert forall|k: int| 0 <= k < before.len() implies (#[trigger] before[k]).0 != panel_id by {
                if before[k].0 == panel_id {
                    assert(labels_of(before).contains_key(panel_id));
                }
            }
            if i < before.len() {
                lemma_target_lt_total(before[i as int], key);
            }
            assert forall|a: int, b: int| 0 <= a < b < after.len() implies target_lt(#[trigger] after[a], #[trigger] after[b]) by {
                if b < i {
                    assert(after[a] == before[a] && after[b] == before[b]);
                } else if b == i {
                    assert(after[b] == key && after[a] == before[a]);
                } else if a == i {
                    assert(after[a] == key && after[b] == before[b - 1]);
                    if b - 1 > i {
                        lemma_target_lt_transitive(key, before[i as int], before[b - 1]);
                    }
                } else if a < i {
                    assert(after[a] == before[a] && after[b] == before[b - 1]);
                    lemma_target_lt_transitive(before[a], key, before[i as int]);
                    if b - 1 > i {
                        lemma_target_lt_transitive(before[a], before[i as int], before[b - 1]);
                    }
                } else {
                    assert(after[a] == before[a - 1] && after[b] == before[b - 1]);
                }
            }
            assert forall|a: int, b: int| 0 <= a < b < after.len() implies (#[trigger] after[a]).0 != (#[trigger] after[b]).0 by {
                if b < i {
                    assert(after[a] == before[a] && after[b] == before[b]);
                } else if b == i {
                    assert(after[b] == key && after[a] == before[a]);
                } else if a == i {
                    assert(after[a] == key && after[b] == before[b - 1]);
                } else if a < i {
                    assert(after[a] == before[a] && after[b] == before[b - 1]);
                } else {
                    assert(after[a] == before[a - 1] && after[b] == before[b - 1]);
                }
            }
            assert(labels_of(after) =~= labels_of(before).insert(panel_id, label@)) by {
                assert forall|id: usize| #[trigger] labels_of(after).contains_key(id) <==> labels_of(before).insert(panel_id, label@).contains_key(id) by {
                    if labels_of(after).contains_key(id) && id != panel_id {
                        let k = choose|k: int| 0 <= k < after.len() && (#[trigger] after[k]).0 == id;
                        assert(k != i);
                        let k2 = if k < i { k } else { k - 1 };
                        assert(before[k2] == after[k]);
                    }
                    if id == panel_id {
                        assert(after[i as int].0 == panel_id);
                    }
                    if labels_of(before).contains_key(id) {
                        let k = choose|k: int| 0 <= k < before.len() && (#[trigger] before[k]).0 == id;
                        let k2 = if k < i { k } else { k + 1 };
                        assert(after[k2] == before[k]);
                    }
                }
                assert forall|id: usize| #[trigger] labels_of(after).contains_key(id) implies labels_of(after)[id] == labels_of(before).insert(panel_id, label@)[id] by {
                    let k = choose|k: int| 0 <= k < after.len() && (#[trigger] after[k]).0 == id;
                    if id == panel_id {
                        assert(after[i as int].0 == panel_id);
                        assert(k == i);
                    } else {
                        assert(k != i);
                        let k2 = if k < i { k } else { k - 1 };
                        assert(before[k2] == after[k]);
                        let kb = choose|k: int| 0 <= k < before.len() && (#[trigger] before[k]).0 == id;
                        assert(kb == k2);
                    }
                }
            }
        }
    }

    /// The registered terminals, by label and then panel id.
    fn list_targets(&self) -> (out: Vec<TerminalTargetInfo>)
        ensures
            out@.map_values(|t: TerminalTargetInfo| (t.panel_id, t.label@)) == self.listing(),
    {
        let mut out: Vec<TerminalTargetInfo> = Vec::new();
        let mut i: usize = 0;
        while i < self.targets.len()
            invariant
                0 <= i <= self.targets@.len(),
                out@.len() == i,
                out@.map_values(|t: TerminalTargetInfo| (t.panel_id, t.label@)) == self.listing().take(i as int),
            decreases self.targets@.len() - i,
        {
            let t = &self.targets[i];
            out.push(TerminalTargetInfo { panel_id: t.panel_id, label: copy_string(&t.label) });
            assert(out@.map_values(|t: TerminalTargetInfo| (t.panel_id, t.label@)) =~= self.listing().take(i + 1));
            i += 1;
        }
        assert(self.listing().take(self.targets@.len() as int) =~= self.listing());
        out
    }

    /// The label of terminal `panel_id`.
    fn get(&self, panel_id: usize) -> (r: Option<String>)
        requires
            self.wf(),
        ensures
            match r {
                Some(l) => labels_of(self.listing()).contains_key(panel_id) && labels_of(self.listing())[panel_id] == l@,
                None => !labels_of(self.listing()).contains_key(panel_id),
            },
    {
        let ghost s = self.listing();
        let mut i: usize = 0;
        while i < self.targets.len()
            invariant
                0 <= i <= self.targets@.len(),
                s == self.listing(),
                ids_unique(s),
                forall|k: int| 0 <= k < i ==> s[k].0 != panel_id,
            decreases self.targets@.len() - i,
        {
            if self.targets[i].panel_id == panel_id {
                proof {
                    assert(s[i as int].0 == panel_id);
                    let k = choose|k: int| 0 <= k < s.len() && (#[trigger] s[k]).0 == panel_id;
                    assert(k == i);
                }
                return Some(copy_string(&self.targets[i].label));
            }
            i += 1;
        }
        None
    }
}

/// The terminals the assistant can send input to, kept in listing order:
/// by label, then by panel id, each panel once.
pub struct TerminalRegistryState {
    list: TargetList,
}

impl TerminalRegistryState {
    /// The listing is sorted and lists each panel once.
    #[verifier::type_invariant]
    spec fn inv(self) -> bool {
        self.list.wf()
    }

    /// The targets in listing order: (panel id, label).
    pub closed spec fn listing(&self) -> Seq<(usize, Seq<char>)> {
        self.list.listing()
    }

    /// The label of each registered panel.
    pub open spec fn labels(&self) -> Map<usize, Seq<char>> {
        labels_of(self.listing())
    }

    /// No target registered.
    pub fn new() -> (s: Self)
        ensures
            s.listing().len() == 0,
    {
        TerminalRegistryState { list: TargetList::new() }
    }

    /// Forgets terminal `panel_id`.
    pub fn remove_target(&mut self, panel_id: usize)
        ensures
            final(self).labels() == old(self).labels().remove(panel_id),
    {
        proof {
            use_type_invariant(&*self);
        }
        let mut list = TargetList::new();
        std::mem::swap(&mut list, &mut self.list);
        list.remove_target(panel_id);
        self.list = list;
    }

    /// Registers terminal `panel_id` under `label`, replacing its old label.
    pub fn upsert_target(&mut self, panel_id: usize, label: &str)
        ensures
            final(self).labels() == old(self).labels().insert(panel_id, label@),
    {
        proof {
            use_type_invariant(&*self);
        }
        let mut list = TargetList::new();
        std::mem::swap(&mut list, &mut self.list);
        list.upsert_target(panel_id, label);
        self.list = list;
    }

    /// The registered terminals, by label and then panel id.
    pub fn list_targets(&self) -> (out: Vec<TerminalTargetInfo>)
        ensures
            out@.map_values(|t: TerminalTargetInfo| (t.panel_id, t.label@)) == self.listing(),
    {
        self.list.list_targets()
    }

    /// The label of terminal `panel_id`.
    pub fn get(&self, panel_id: usize) -> (r: Option<String>)
        ensures
            match r {
                Some(l) => self.labels().contains_key(panel_id) && self.labels()[panel_id] == l@,
                None => !self.labels().contains_key(panel_id),
            },
    {
        proof {
            use_type_invariant(self);
        }
        self.list.get(panel_id)
    }
}

proof fn lemma_target_lt_total(a: (usize, Seq<char>), b: (usize, Seq<char>))
    requires
        a.0 != b.0,
    ensures
        target_lt(a, b) || target_lt(b, a),
        !(target_lt(a, b) && target_lt(b, a)),
{
    crate::text::lemma_seq_lt_total(a.1, b.1);
    crate::text::lemma_seq_lt_irreflexive(a.1);
}

proof fn lemma_target_lt_transitive(a: (usize, Seq<char>), b: (usize, Seq<char>), c: (usize, Seq<char>))
    requires
        target_lt(a, b),
        target_lt(b, c),
    ensures
        target_lt(a, c),
{
    if seq_lt(a.1, b.1) && seq_lt(b.1, c.1) {
        crate::text::lemma_seq_lt_transitive(a.1, b.1, c.1);
    }
}

} // verus!

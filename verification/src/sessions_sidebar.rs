//! The sessions sidebar: the tree of saved sessions grouped by folder, its
//! search, and the ids its rows carry.
use vstd::prelude::*;

use crate::ssh::split_on;
use crate::store::{protocol_text, Session, SessionType};
use crate::text::{
    chars_of, contains, int_to_dec, i64_to_dec, parse_i64, push_str, str_contains, str_lt,
    seq_lt, string_from_range, to_lowercase, trim, trim_bounds, unicode_lowercase,
};

verus! {

/// What the sidebar asks its window to do.
#[derive(Clone, Debug, PartialEq, Eq)]
pub enum SessionsSidebarEvent {
    /// Open the saved session with this id.
    OpenSession(i64),
}

/// What went wrong in the sidebar.
#[derive(Clone, Debug, PartialEq, Eq)]
pub enum SessionsSidebarError {
    /// The saved sessions could not be read.
    LoadSessions,
    /// An operation on a session failed, with this message.
    Operation(String),
}

impl SessionsSidebarError {
    /// The selector the error banner carries, one per kind of error.
    pub fn debug_selector(&self) -> (s: &'static str)
        ensures
            s@ == match self {
                SessionsSidebarError::LoadSessions => "termua-sessions-sidebar-load-error"@,
                SessionsSidebarError::Operation(_) => "termua-sessions-sidebar-operation-error"@,
            },
    {
        match self {
            SessionsSidebarError::LoadSessions => "termua-sessions-sidebar-load-error",
            SessionsSidebarError::Operation(_) => "termua-sessions-sidebar-operation-error",
        }
    }
}

/// A string holding `t`.
fn owned(t: &str) -> (s: String)
    ensures
        s@ == t@,
{
    let mut s = String::new();
    push_str(&mut s, t);
    s
}

/// The session id in a row id `session:<protocol>:<id>`: the text after the
/// prefix and the next colon, read as an `i64`.
pub open spec fn session_id_of(item_id: Seq<char>) -> Option<i64> {
    let prefix = "session:"@;
    if item_id.len() >= prefix.len() && item_id.take(prefix.len() as int) == prefix {
        let rest = item_id.skip(prefix.len() as int);
        match crate::text::find_char_from(rest, ':', 0) {
            Some(k) => parse_i64(rest.skip(k + 1)),
            None => None,
        }
    } else {
        None
    }
}

/// Reads the session id out of a row id.
pub fn parse_session_id(item_id: &str) -> (r: Option<i64>)
    ensures
        r == session_id_of(item_id@),
{
    proof {
        reveal_strlit("session:");
    }
    let v = chars_of(item_id);
    let p = chars_of("session:");
    if !crate::text::occurs_at_exec(&v, &p, 0) {
        assert(!(v@.len() >= 8 && v@.take(8) == "session:"@)) by {
            if v@.len() >= 8 && v@.take(8) == "session:"@ {
                assert(v@.subrange(0, 8) =~= v@.take(8));
            }
        }
        return None;
    }
    assert(v@.subrange(0, 8) =~= v@.take(8));
    let ghost rest = v@.skip(8);
    match crate::text::find_char_from_exec(&v, ':', 8) {
        Some(k) => {
            proof {
                lemma_find_char_skip(v@, 8, 0);
                crate::text::lemma_find_char_from_bounds(v@, ':', 8);
            }
            let n = v.len();
            assert(8 <= k < n);
            assert(v@.subrange(k + 1, v@.len() as int) =~= rest.skip(k - 8 + 1));
            crate::text::parse_i64_range(&v, k + 1, n)
        },
        None => {
            proof {
                lemma_find_char_skip(v@, 8, 0);
            }
            None
        },
    }
}

/// Searching `s` from `n + i` finds what searching `s[n..]` from `i` finds,
/// shifted by `n`.
proof fn lemma_find_char_skip(s: Seq<char>, n: int, i: int)
    requires
        0 <= n <= s.len(),
        0 <= i,
    ensures
        crate::text::find_char_from(s, ':', n + i) == match crate::text::find_char_from(
            s.skip(n),
            ':',
            i,
        ) {
            Some(j) => Some(j + n),
            None => None::<int>,
        },
    decreases s.len() - n - i,
{
    if n + i < s.len() {
        assert(s.skip(n)[i] == s[n + i]);
        if s[n + i] != ':' {
            lemma_find_char_skip(s, n, i + 1);
        }
    }
}

/// Whether a character may stand in a selector as it is.
pub open spec fn selector_char(c: char) -> bool {
    ('a' <= c && c <= 'z') || ('A' <= c && c <= 'Z') || ('0' <= c && c <= '9') || c == '_' || c
        == '-'
}

/// The folder's path from its row id (`folder:` dropped when present),
/// with every character other than ASCII letters, digits, `_` and `-`
/// replaced by `_`.
pub open spec fn folder_debug_text(folder_id: Seq<char>) -> Seq<char> {
    let prefix = "folder:"@;
    let path = if folder_id.len() >= prefix.len() && folder_id.take(prefix.len() as int) == prefix {
        folder_id.skip(prefix.len() as int)
    } else {
        folder_id
    };
    path.map_values(|c: char| if selector_char(c) { c } else { '_' })
}

/// The name a folder row is known by in selectors.
pub fn folder_debug_name(folder_id: &str) -> (out: String)
    ensures
        out@ == folder_debug_text(folder_id@),
{
    proof {
        reveal_strlit("folder:");
    }
    let v = chars_of(folder_id);
    let p = chars_of("folder:");
    let start: usize = if crate::text::occurs_at_exec(&v, &p, 0) {
        7
    } else {
        0
    };
    let ghost path = v@.skip(start as int);
    proof {
        if start == 7 {
            assert(v@.subrange(0, 7) =~= v@.take(7));
        } else if v@.len() >= 7 && v@.take(7) == "folder:"@ {
            assert(v@.subrange(0, 7) =~= v@.take(7));
        }
        assert(path =~= (if v@.len() >= 7 && v@.take(7) == "folder:"@ {
            v@.skip(7)
        } else {
            v@
        }));
    }
    let mut out: Vec<char> = Vec::new();
    let mut i = start;
    while i < v.len()
        invariant
            start <= i <= v@.len(),
            path == v@.skip(start as int),
            out@ == path.take(i - start).map_values(|c: char| if selector_char(c) { c } else { '_' }),
        decreases v@.len() - i,
    {
        let c = v[i];
        let keep = ('a' <= c && c <= 'z') || ('A' <= c && c <= 'Z') || ('0' <= c && c <= '9')
            || c == '_' || c == '-';
        if keep {
            out.push(c);
        } else {
            out.push('_');
        }
        assert(path.take(i + 1 - start) =~= path.take(i - start).push(c));
        i += 1;
        assert(out@ =~= path.take(i - start).map_values(
            |c: char|
                if selector_char(c) {
                    c
                } else {
                    '_'
                },
        ));
    }
    assert(path.take(v@.len() - start) =~= path);
    crate::text::string_from_chars(&out)
}

/// The non-blank pieces, trimmed.
pub open spec fn kept_parts(ps: Seq<Seq<char>>) -> Seq<Seq<char>>
    decreases ps.len(),
{
    if ps.len() == 0 {
        seq![]
    } else {
        let r = kept_parts(ps.drop_last());
        if trim(ps.last()).len() > 0 {
            r.push(trim(ps.last()))
        } else {
            r
        }
    }
}

/// The folders of a group path: its `>`-separated parts, trimmed, blank
/// ones left out.
pub open spec fn group_parts(group_path: Seq<char>) -> Seq<Seq<char>> {
    kept_parts(split_on(group_path, '>', 0))
}

/// Splits a group path into its folders.
pub fn split_group_path(group_path: &str) -> (out: Vec<String>)
    ensures
        crate::text::views(out@) == group_parts(group_path@),
{
    let v = chars_of(group_path);
    let mut out: Vec<String> = Vec::new();
    let mut i: usize = 0;
    let ghost all = split_on(v@, '>', 0);
    let ghost done: Seq<Seq<char>> = seq![];
    assert(all =~= done + split_on(v@, '>', 0));
    assert(crate::text::views(out@) =~= kept_parts(done));
    loop
        invariant
            0 <= i <= v@.len(),
            v@ == group_path@,
            all == split_on(v@, '>', 0),
            all == done + split_on(v@, '>', i as int),
            crate::text::views(out@) == kept_parts(done),
        decreases v@.len() + 1 - i,
    {
        proof {
            crate::text::lemma_find_char_from_bounds(v@, '>', i as int);
        }
        let end = match crate::text::find_char_from_exec(&v, '>', i) {
            Some(j) => j,
            None => v.len(),
        };
        let (a, b) = trim_bounds(&v, i, end);
        let ghost piece = v@.subrange(i as int, end as int);
        let ghost prev_done = done;
        proof {
            done = done.push(piece);
            assert(done.drop_last() =~= prev_done);
        }
        if a < b {
            let part = string_from_range(&v, a, b);
            let ghost before = out@;
            out.push(part);
            assert(crate::text::views(out@) =~= crate::text::views(before).push(part@));
        }
        if end == v.len() {
            proof {
                assert(split_on(v@, '>', i as int) =~= seq![piece]);
                assert(all =~= done);
            }
            return out;
        }
        proof {
            assert(split_on(v@, '>', i as int) =~= seq![piece] + split_on(v@, '>', end + 1));
            assert(all =~= done + split_on(v@, '>', end + 1));
        }
        i = end + 1;
    }
}

/// A session as the sidebar lists it.
#[derive(Clone, Debug, PartialEq, Eq)]
pub struct SessionTreeSummary {
    pub id: i64,
    pub protocol: SessionType,
    pub group_path: String,
    pub label: String,
    pub ssh_host: Option<String>,
    pub search_text: String,
}

/// The text a session is searched by: its label, group path and SSH host,
/// in lower case, separated by spaces.
pub open spec fn search_text_of(label: Seq<char>, group_path: Seq<char>, host: Option<Seq<char>>) -> Seq<char> {
    let base = unicode_lowercase(label) + " "@ + unicode_lowercase(group_path);
    match host {
        Some(h) => base + " "@ + unicode_lowercase(h),
        None => base,
    }
}

/// A copy of an optional string.
fn copy_opt(o: &Option<String>) -> (r: Option<String>)
    ensures
        match (r, *o) {
            (Some(a), Some(b)) => a@ == b@,
            (None, None) => true,
            _ => false,
        },
{
    match o {
        Some(s) => Some(owned(s.as_str())),
        None => None,
    }
}

/// Whether `s` summarises `session`: the same id, protocol, group path,
/// label and SSH host, and the search text made of them.
pub open spec fn summary_of(s: SessionTreeSummary, session: Session) -> bool {
    &&& s.id == session.id
    &&& s.protocol == session.protocol
    &&& s.group_path@ == session.group_path@
    &&& s.label@ == session.label@
    &&& match (s.ssh_host, session.ssh_host) {
        (Some(a), Some(b)) => a@ == b@,
        (None, None) => true,
        _ => false,
    }
    &&& s.search_text@ == search_text_of(
        session.label@,
        session.group_path@,
        match session.ssh_host {
            Some(h) => Some(h@),
            None => None,
        },
    )
}

impl SessionTreeSummary {
    /// The summary of a saved session.
    pub fn from_session(session: &Session) -> (r: Self)
        ensures
            r.id == session.id,
            r.protocol == session.protocol,
            r.group_path@ == session.group_path@,
            r.label@ == session.label@,
            match (r.ssh_host, session.ssh_host) {
                (Some(a), Some(b)) => a@ == b@,
                (None, None) => true,
                _ => false,
            },
            r.search_text@ == search_text_of(
                session.label@,
                session.group_path@,
                match session.ssh_host {
                    Some(h) => Some(h@),
                    None => None,
                },
            ),
    {
        let mut search_text = to_lowercase(session.label.as_str());
        push_str(&mut search_text, " ");
        let g = to_lowercase(session.group_path.as_str());
        push_str(&mut search_text, g.as_str());
        match &session.ssh_host {
            Some(host) => {
                push_str(&mut search_text, " ");
                let h = to_lowercase(host.as_str());
                push_str(&mut search_text, h.as_str());
            },
            None => {},
        }
        SessionTreeSummary {
            id: session.id,
            protocol: session.protocol,
            group_path: owned(session.group_path.as_str()),
            label: owned(session.label.as_str()),
            ssh_host: copy_opt(&session.ssh_host),
            search_text,
        }
    }
}

/// Whether a session shows for a search: every session shows for an empty
/// search, else those whose search text contains the search in lower case.
pub open spec fn query_matches(s: SessionTreeSummary, query: Seq<char>) -> bool {
    query.len() == 0 || contains(s.search_text@, unicode_lowercase(query))
}

/// Whether `session` shows for the search `query`.
pub fn matches_query(session: &SessionTreeSummary, query: &str) -> (r: bool)
    ensures
        r == query_matches(*session, query@),
{
    if query.is_empty() {
        return true;
    }
    let q = to_lowercase(query);
    str_contains(session.search_text.as_str(), q.as_str())
}

/// A row of the sessions tree: a folder with its rows, or a session.
#[derive(Debug)]
pub struct SessionTreeItem {
    pub id: String,
    pub label: String,
    pub expanded: bool,
    pub children: Vec<SessionTreeItem>,
}

/// The sessions that show for a search, in order.
pub open spec fn matching(all: Seq<SessionTreeSummary>, query: Seq<char>) -> Seq<SessionTreeSummary>
    decreases all.len(),
{
    if all.len() == 0 {
        seq![]
    } else {
        let r = matching(all.drop_last(), query);
        if query_matches(all.last(), query) {
            r.push(all.last())
        } else {
            r
        }
    }
}

/// The folders of a session.
pub open spec fn parts_of(s: SessionTreeSummary) -> Seq<Seq<char>> {
    group_parts(s.group_path@)
}

/// `pre` starts `p`.
pub open spec fn path_prefix(pre: Seq<Seq<char>>, p: Seq<Seq<char>>) -> bool {
    pre.len() <= p.len() && p.take(pre.len() as int) == pre
}

/// Where `n` goes in the sorted names: before the first name not less than it.
pub open spec fn insert_pos(names: Seq<Seq<char>>, n: Seq<char>, i: int) -> int
    decreases names.len() - i,
{
    if i < 0 || i >= names.len() {
        names.len() as int
    } else if seq_lt(names[i], n) {
        insert_pos(names, n, i + 1)
    } else {
        i
    }
}

/// The sorted names with `n` added, unless it is there.
pub open spec fn insert_name(names: Seq<Seq<char>>, n: Seq<char>) -> Seq<Seq<char>> {
    let i = insert_pos(names, n, 0);
    if 0 <= i < names.len() && names[i] == n {
        names
    } else {
        names.insert(i, n)
    }
}

/// The names of the folders right under `pre`, in the order of the
/// sidebar: ascending, each once.
pub open spec fn child_names(ss: Seq<SessionTreeSummary>, pre: Seq<Seq<char>>) -> Seq<Seq<char>>
    decreases ss.len(),
{
    if ss.len() == 0 {
        seq![]
    } else {
        let r = child_names(ss.drop_last(), pre);
        let p = parts_of(ss.last());
        if p.len() > pre.len() && path_prefix(pre, p) {
            insert_name(r, p[pre.len() as int])
        } else {
            r
        }
    }
}

/// The sessions filed right in folder `pre`, in order.
pub open spec fn sessions_here(ss: Seq<SessionTreeSummary>, pre: Seq<Seq<char>>) -> Seq<SessionTreeSummary>
    decreases ss.len(),
{
    if ss.len() == 0 {
        seq![]
    } else {
        let r = sessions_here(ss.drop_last(), pre);
        if parts_of(ss.last()) == pre {
            r.push(ss.last())
        } else {
            r
        }
    }
}

/// A folder path joined with `>`.
pub open spec fn join_path(p: Seq<Seq<char>>) -> Seq<char>
    decreases p.len(),
{
    if p.len() == 0 {
        seq![]
    } else if p.len() == 1 {
        p[0]
    } else {
        join_path(p.drop_last()) + ">"@ + p.last()
    }
}

/// The row of a session: its id names its protocol and id, it shows the
/// session's label, and it has no rows under it.
pub open spec fn session_row_ok(item: SessionTreeItem, s: SessionTreeSummary) -> bool {
    &&& item.id@ == "session:"@ + protocol_text(s.protocol) + ":"@ + int_to_dec(s.id as int)
    &&& item.label@ == s.label@
    &&& !item.expanded
    &&& item.children@.len() == 0
}

/// The rows under folder `pre`: one expanded row per folder right under it,
/// in name order, each with the rows under it, then the sessions filed in
/// it, in order.
pub open spec fn rows_ok(items: Seq<SessionTreeItem>, ss: Seq<SessionTreeSummary>, pre: Seq<Seq<char>>, depth: nat) -> bool
    decreases depth,
{
    let names = child_names(ss, pre);
    let here = sessions_here(ss, pre);
    &&& items.len() == names.len() + here.len()
    &&& forall|k: int|
        0 <= k < names.len() ==> {
            &&& (#[trigger] items[k]).id@ == "folder:"@ + join_path(pre.push(names[k]))
            &&& items[k].label@ == names[k]
            &&& items[k].expanded
            &&& depth > 0
            &&& rows_ok(items[k].children@, ss, pre.push(names[k]), (depth - 1) as nat)
        }
    &&& forall|k: int| 0 <= k < here.len() ==> session_row_ok(#[trigger] items[names.len() + k], here[k])
}

/// The deepest folder path among the sessions.
pub open spec fn max_depth(ss: Seq<SessionTreeSummary>) -> nat
    decreases ss.len(),
{
    if ss.len() == 0 {
        0
    } else {
        let d = max_depth(ss.drop_last());
        let n = parts_of(ss.last()).len();
        if n > d {
            n
        } else {
            d
        }
    }
}

/// Adds `n` to sorted names, unless it is there.
pub fn insert_name_exec(names: &mut Vec<String>, n: &str)
    ensures
        crate::text::views(final(names)@) == insert_name(crate::text::views(old(names)@), n@),
{
    let ghost v = crate::text::views(names@);
    let mut i: usize = 0;
    while i < names.len() && str_lt(names[i].as_str(), n)
        invariant
            0 <= i <= names@.len(),
            v == crate::text::views(names@),
            names@ == old(names)@,
            insert_pos(v, n@, 0) == insert_pos(v, n@, i as int),
        decreases names@.len() - i,
    {
        assert(v[i as int] == names@[i as int]@);
        i += 1;
    }
    proof {
        if i < names@.len() {
            assert(v[i as int] == names@[i as int]@);
        }
        assert(insert_pos(v, n@, i as int) == i);
    }
    if i < names.len() && crate::text::str_eq(names[i].as_str(), n) {
        assert(v[i as int] == n@);
        return;
    }
    names.insert(i, owned(n));
    assert(crate::text::views(names@) =~= v.insert(i as int, n@));
}

/// Whether the path `pre` starts the path `p`.
fn path_prefix_exec(pre: &Vec<String>, p: &Vec<String>) -> (r: bool)
    ensures
        r == path_prefix(crate::text::views(pre@), crate::text::views(p@)),
{
    let ghost vp = crate::text::views(pre@);
    let ghost vq = crate::text::views(p@);
    if pre.len() > p.len() {
        return false;
    }
    let mut i: usize = 0;
    while i < pre.len()
        invariant
            0 <= i <= pre@.len() <= p@.len(),
            vp == crate::text::views(pre@),
            vq == crate::text::views(p@),
            forall|k: int| 0 <= k < i ==> vq[k] == vp[k],
        decreases pre@.len() - i,
    {
        if !crate::text::str_eq(pre[i].as_str(), p[i].as_str()) {
            assert(vq.take(vp.len() as int)[i as int] != vp[i as int]);
            return false;
        }
        i += 1;
    }
    assert(vq.take(vp.len() as int) =~= vp);
    true
}

/// Whether the paths `a` and `b` are the same.
fn path_eq(a: &Vec<String>, b: &Vec<String>) -> (r: bool)
    ensures
        r == (crate::text::views(a@) == crate::text::views(b@)),
{
    if a.len() != b.len() {
        return false;
    }
    let r = path_prefix_exec(a, b);
    proof {
        assert(crate::text::views(b@).take(a@.len() as int) =~= crate::text::views(b@));
    }
    r
}

/// Folders right under `pre` exist only above the deepest folder path.
proof fn lemma_child_names_depth(ss: Seq<SessionTreeSummary>, pre: Seq<Seq<char>>)
    ensures
        child_names(ss, pre).len() > 0 ==> max_depth(ss) > pre.len(),
        sessions_here(ss, pre).len() <= ss.len(),
    decreases ss.len(),
{
    if ss.len() > 0 {
        lemma_child_names_depth(ss.drop_last(), pre);
        let r = child_names(ss.drop_last(), pre);
        let p = parts_of(ss.last());
        if p.len() > pre.len() && path_prefix(pre, p) {
            let i = insert_pos(r, p[pre.len() as int], 0);
            lemma_insert_pos_bounds(r, p[pre.len() as int], 0);
        }
    }
}

proof fn lemma_insert_pos_bounds(names: Seq<Seq<char>>, n: Seq<char>, i: int)
    requires
        0 <= i,
    ensures
        i <= insert_pos(names, n, i) <= names.len() || (i > names.len() && insert_pos(names, n, i) == names.len()),
    decreases names.len() - i,
{
    if i < names.len() && seq_lt(names[i], n) {
        lemma_insert_pos_bounds(names, n, i + 1);
    }
}

/// The sessions of `ss` as positions into `all`, with their folders.
pub open spec fn listing(all: Seq<SessionTreeSummary>, idx: Seq<usize>, parts: Seq<Vec<String>>, ss: Seq<SessionTreeSummary>) -> bool {
    &&& idx.len() == ss.len()
    &&& parts.len() == ss.len()
    &&& forall|k: int| 0 <= k < ss.len() ==> (#[trigger] idx[k]) < all.len() && all[idx[k] as int] == ss[k]
    &&& forall|k: int| 0 <= k < ss.len() ==> crate::text::views((#[trigger] parts[k])@) == parts_of(ss[k])
}

/// A copy of a path with `name` added.
fn path_push(pre: &Vec<String>, name: &String) -> (out: Vec<String>)
    ensures
        crate::text::views(out@) == crate::text::views(pre@).push(name@),
{
    let mut out: Vec<String> = Vec::new();
    let mut i: usize = 0;
    while i < pre.len()
        invariant
            0 <= i <= pre@.len(),
            out@.len() == i,
            crate::text::views(out@) == crate::text::views(pre@).take(i as int),
        decreases pre@.len() - i,
    {
        let e = owned(pre[i].as_str());
        let ghost before = out@;
        out.push(e);
        assert(crate::text::views(out@) =~= crate::text::views(pre@).take(i + 1));
        i += 1;
    }
    let e = owned(name.as_str());
    let ghost before = out@;
    out.push(e);
    assert(crate::text::views(pre@).take(pre@.len() as int) =~= crate::text::views(pre@));
    assert(crate::text::views(out@) =~= crate::text::views(pre@).push(name@));
    out
}

/// The row of session `s`.
fn session_row(s: &SessionTreeSummary) -> (item: SessionTreeItem)
    ensures
        session_row_ok(item, *s),
{
    let mut id = owned("session:");
    push_str(&mut id, crate::store::protocol_to_str(&s.protocol));
    push_str(&mut id, ":");
    let digits = i64_to_dec(s.id);
    push_str(&mut id, digits.as_str());
    SessionTreeItem { id, label: owned(s.label.as_str()), expanded: false, children: Vec::new() }
}

/// The rows under folder `pre` (whose joined path is `pre_path`).
fn build_rows(
    all: &[SessionTreeSummary],
    idx: &Vec<usize>,
    parts: &Vec<Vec<String>>,
    pre: &Vec<String>,
    pre_path: &String,
    depth: usize,
    Ghost(ss): Ghost<Seq<SessionTreeSummary>>,
) -> (items: Vec<SessionTreeItem>)
    requires
        listing(all@, idx@, parts@, ss),
        pre_path@ == join_path(crate::text::views(pre@)),
        max_depth(ss) <= pre@.len() + depth,
    ensures
        rows_ok(items@, ss, crate::text::views(pre@), depth as nat),
    decreases depth,
{
    let ghost vpre = crate::text::views(pre@);
    let mut names: Vec<String> = Vec::new();
    let mut j: usize = 0;
    assert(ss.take(0) =~= Seq::<SessionTreeSummary>::empty());
    assert(crate::text::views(names@) =~= Seq::<Seq<char>>::empty());
    while j < idx.len()
        invariant
            0 <= j <= ss.len(),
            listing(all@, idx@, parts@, ss),
            vpre == crate::text::views(pre@),
            crate::text::views(names@) == child_names(ss.take(j as int), vpre),
        decreases ss.len() - j,
    {
        assert(ss.take(j + 1).drop_last() =~= ss.take(j as int));
        assert(ss.take(j + 1).last() == ss[j as int]);
        let p = &parts[j];
        assert(crate::text::views(p@) == parts_of(ss[j as int]));
        if p.len() > pre.len() && path_prefix_exec(pre, p) {
            let k = pre.len();
            assert(crate::text::views(p@)[k as int] == p@[k as int]@);
            insert_name_exec(&mut names, p[k].as_str());
        }
        j += 1;
    }
    assert(ss.take(ss.len() as int) =~= ss);
    let ghost nm = crate::text::views(names@);
    proof {
        lemma_child_names_depth(ss, vpre);
    }
    let mut items: Vec<SessionTreeItem> = Vec::new();
    let mut k: usize = 0;
    while k < names.len()
        invariant
            0 <= k <= names@.len(),
            nm == crate::text::views(names@),
            nm == child_names(ss, vpre),
            vpre == crate::text::views(pre@),
            listing(all@, idx@, parts@, ss),
            pre_path@ == join_path(vpre),
            max_depth(ss) <= pre@.len() + depth,
            nm.len() > 0 ==> max_depth(ss) > vpre.len(),
            items@.len() == k,
            forall|q: int|
                0 <= q < k ==> {
                    &&& (#[trigger] items@[q]).id@ == "folder:"@ + join_path(vpre.push(nm[q]))
                    &&& items@[q].label@ == nm[q]
                    &&& items@[q].expanded
                    &&& depth > 0
                    &&& rows_ok(items@[q].children@, ss, vpre.push(nm[q]), (depth - 1) as nat)
                },
        decreases names@.len() - k,
    {
        let name = &names[k];
        assert(nm[k as int] == name@);
        let child = path_push(pre, name);
        let mut child_path = String::new();
        if pre.len() > 0 {
            push_str(&mut child_path, pre_path.as_str());
            push_str(&mut child_path, ">");
        }
        push_str(&mut child_path, name.as_str());
        proof {
            reveal_strlit(">");
            let cp = vpre.push(name@);
            assert(cp.drop_last() =~= vpre);
            if vpre.len() == 0 {
                assert(cp =~= seq![name@]);
            }
            assert(child_path@ == join_path(cp));
        }
        let children = build_rows(all, idx, parts, &child, &child_path, depth - 1, Ghost(ss));
        let mut id = owned("folder:");
        push_str(&mut id, child_path.as_str());
        items.push(SessionTreeItem { id, label: owned(name.as_str()), expanded: true, children });
        k += 1;
    }
    let ghost here_all = sessions_here(ss, vpre);
    let mut j: usize = 0;
    assert(sessions_here(ss.take(0), vpre) =~= Seq::<SessionTreeSummary>::empty());
    while j < idx.len()
        invariant
            0 <= j <= ss.len(),
            listing(all@, idx@, parts@, ss),
            vpre == crate::text::views(pre@),
            nm == child_names(ss, vpre),
            items@.len() == nm.len() + sessions_here(ss.take(j as int), vpre).len(),
            forall|q: int|
                0 <= q < nm.len() ==> {
                    &&& (#[trigger] items@[q]).id@ == "folder:"@ + join_path(vpre.push(nm[q]))
                    &&& items@[q].label@ == nm[q]
                    &&& items@[q].expanded
                    &&& depth > 0
                    &&& rows_ok(items@[q].children@, ss, vpre.push(nm[q]), (depth - 1) as nat)
                },
            forall|q: int|
                0 <= q < sessions_here(ss.take(j as int), vpre).len() ==> session_row_ok(
                    #[trigger] items@[nm.len() + q],
                    sessions_here(ss.take(j as int), vpre)[q],
                ),
        decreases ss.len() - j,
    {
        assert(ss.take(j + 1).drop_last() =~= ss.take(j as int));
        assert(ss.take(j + 1).last() == ss[j as int]);
        if path_eq(&parts[j], pre) {
            let s = &all[idx[j]];
            let row = session_row(s);
            items.push(row);
        }
        j += 1;
    }
    assert(ss.take(ss.len() as int) =~= ss);
    items
}

/// The rows of the sessions tree for a search: the sessions that show,
/// filed under their folders, folders first and in name order, then the
/// sessions of each folder in their order.
pub fn build_tree_items_from_summaries(all: &[SessionTreeSummary], query: &str) -> (items: Vec<SessionTreeItem>)
    ensures
        rows_ok(items@, matching(all@, query@), seq![], max_depth(matching(all@, query@))),
{
    let ghost ms = matching(all@, query@);
    let mut idx: Vec<usize> = Vec::new();
    let mut parts: Vec<Vec<String>> = Vec::new();
    let mut depth: usize = 0;
    let mut i: usize = 0;
    assert(matching(all@.take(0), query@) =~= Seq::<SessionTreeSummary>::empty());
    while i < all.len()
        invariant
            0 <= i <= all@.len(),
            listing(all@, idx@, parts@, matching(all@.take(i as int), query@)),
            depth as nat == max_depth(matching(all@.take(i as int), query@)),
        decreases all@.len() - i,
    {
        assert(all@.take(i + 1).drop_last() =~= all@.take(i as int));
        assert(all@.take(i + 1).last() == all@[i as int]);
        let ghost prev = matching(all@.take(i as int), query@);
        if matches_query(&all[i], query) {
            let p = split_group_path(all[i].group_path.as_str());
            assert(crate::text::views(p@).len() == p@.len());
            if p.len() > depth {
                depth = p.len();
            }
            idx.push(i);
            parts.push(p);
            proof {
                let cur = matching(all@.take(i + 1), query@);
                assert(cur == prev.push(all@[i as int]));
                assert(cur.drop_last() =~= prev);
                assert(cur.last() == all@[i as int]);
                assert forall|k: int| 0 <= k < cur.len() implies (#[trigger] idx@[k]) < all@.len() && all@[idx@[k] as int] == cur[k] by {
                    if k < prev.len() {
                        assert(cur[k] == prev[k]);
                    }
                }
                assert forall|k: int| 0 <= k < cur.len() implies crate::text::views((#[trigger] parts@[k])@) == parts_of(cur[k]) by {
                    if k < prev.len() {
                        assert(cur[k] == prev[k]);
                    }
                }
            }
        }
        i += 1;
    }
    assert(all@.take(all@.len() as int) =~= all@);
    let pre: Vec<String> = Vec::new();
    let pre_path = String::new();
    assert(crate::text::views(pre@) =~= Seq::<Seq<char>>::empty());
    build_rows(all, &idx, &parts, &pre, &pre_path, depth, Ghost(ms))
}

/// The rows of the sessions tree for a search over saved sessions.
pub fn build_tree_items(all_sessions: &[Session], query: &str) -> (items: Vec<SessionTreeItem>)
    ensures
        exists|summaries: Seq<SessionTreeSummary>|
            {
                &&& summaries.len() == all_sessions@.len()
                &&& forall|k: int|
                    0 <= k < summaries.len() ==> summary_of(#[trigger] summaries[k], all_sessions@[k])
                &&& rows_ok(
                    items@,
                    matching(summaries, query@),
                    seq![],
                    max_depth(matching(summaries, query@)),
                )
            },
{
    let mut summaries: Vec<SessionTreeSummary> = Vec::new();
    let mut i: usize = 0;
    while i < all_sessions.len()
        invariant
            0 <= i <= all_sessions@.len(),
            summaries@.len() == i,
            forall|k: int| 0 <= k < i ==> summary_of(#[trigger] summaries@[k], all_sessions@[k]),
        decreases all_sessions@.len() - i,
    {
        summaries.push(SessionTreeSummary::from_session(&all_sessions[i]));
        i += 1;
    }
    build_tree_items_from_summaries(summaries.as_slice(), query)
}

/// The first row with id `id`, looking at each row before the rows under it.
pub open spec fn find_row(items: Seq<SessionTreeItem>, id: Seq<char>) -> Option<SessionTreeItem>
    decreases items,
{
    if items.len() == 0 {
        None
    } else {
        let first = items[0];
        if first.id@ == id {
            Some(first)
        } else {
            match find_row(first.children@, id) {
                Some(x) => Some(x),
                None => find_row(items.subrange(1, items.len() as int), id),
            }
        }
    }
}

proof fn lemma_find_row_skip(items: Seq<SessionTreeItem>, id: Seq<char>, i: int)
    requires
        0 <= i < items.len(),
    ensures
        find_row(items.subrange(i, items.len() as int), id) == if items[i].id@ == id {
            Some(items[i])
        } else {
            match find_row(items[i].children@, id) {
                Some(x) => Some(x),
                None => find_row(items.subrange(i + 1, items.len() as int), id),
            }
        },
{
    let t = items.subrange(i, items.len() as int);
    assert(t[0] == items[i]);
    assert(t.subrange(1, t.len() as int) =~= items.subrange(i + 1, items.len() as int));
}

/// Finds the row with id `id` in the rows `items` and the rows under them.
pub fn find_tree_item_by_id<'a>(items: &'a Vec<SessionTreeItem>, id: &str) -> (r: Option<&'a SessionTreeItem>)
    ensures
        match r {
            Some(x) => find_row(items@, id@) == Some(*x),
            None => find_row(items@, id@) is None,
        },
    decreases items@,
{
    let mut i: usize = 0;
    assert(items@.subrange(0, items@.len() as int) =~= items@);
    while i < items.len()
        invariant
            0 <= i <= items@.len(),
            find_row(items@, id@) == find_row(items@.subrange(i as int, items@.len() as int), id@),
        decreases items@.len() - i,
    {
        proof {
            lemma_find_row_skip(items@, id@, i as int);
        }
        let item = &items[i];
        if crate::text::str_eq(item.id.as_str(), id) {
            return Some(item);
        }
        assert(decreases_to!(items@ => items@[i as int].children@));
        match find_tree_item_by_id(&item.children, id) {
            Some(x) => {
                return Some(x);
            },
            None => {},
        }
        i += 1;
    }
    assert(items@.subrange(i as int, items@.len() as int) =~= Seq::<SessionTreeItem>::empty());
    None
}

/// Names sorted strictly ascending.
pub open spec fn strictly_sorted(names: Seq<Seq<char>>) -> bool {
    forall|i: int, j: int| 0 <= i < j < names.len() ==> seq_lt(#[trigger] names[i], #[trigger] names[j])
}

proof fn lemma_insert_pos_props(names: Seq<Seq<char>>, n: Seq<char>, i: int)
    requires
        0 <= i <= names.len(),
        forall|k: int| 0 <= k < i ==> seq_lt(#[trigger] names[k], n),
    ensures
        0 <= insert_pos(names, n, i) <= names.len(),
        forall|k: int| 0 <= k < insert_pos(names, n, i) ==> seq_lt(#[trigger] names[k], n),
        insert_pos(names, n, i) < names.len() ==> !seq_lt(names[insert_pos(names, n, i)], n),
    decreases names.len() - i,
{
    if i < names.len() && seq_lt(names[i], n) {
        lemma_insert_pos_props(names, n, i + 1);
    }
}

/// Adding a name keeps sorted names sorted.
pub proof fn lemma_insert_name_sorted(names: Seq<Seq<char>>, n: Seq<char>)
    requires
        strictly_sorted(names),
    ensures
        strictly_sorted(insert_name(names, n)),
{
    lemma_insert_pos_props(names, n, 0);
    let i = insert_pos(names, n, 0);
    if !(0 <= i < names.len() && names[i] == n) {
        let r = names.insert(i, n);
        if i < names.len() {
            crate::text::lemma_seq_lt_total(names[i], n);
        }
        assert forall|a: int, b: int| 0 <= a < b < r.len() implies seq_lt(#[trigger] r[a], #[trigger] r[b]) by {
            if b < i {
                assert(r[a] == names[a] && r[b] == names[b]);
            } else if b == i {
                assert(r[b] == n && r[a] == names[a]);
            } else if a == i {
                assert(r[a] == n && r[b] == names[b - 1]);
                if b - 1 > i {
                    crate::text::lemma_seq_lt_transitive(n, names[i], names[b - 1]);
                }
            } else if a < i {
                assert(r[a] == names[a] && r[b] == names[b - 1]);
                if a < b - 1 {
                } else {
                    assert(false);
                }
                crate::text::lemma_seq_lt_transitive(names[a], n, names[i]);
                if b - 1 > i {
                    crate::text::lemma_seq_lt_transitive(names[a], names[i], names[b - 1]);
                }
            } else {
                assert(r[a] == names[a - 1] && r[b] == names[b - 1]);
            }
        }
    }
}

/// The folders right under any folder are listed in strictly ascending
/// name order, so no folder shows twice.
pub proof fn law_folders_sorted_and_unique(ss: Seq<SessionTreeSummary>, pre: Seq<Seq<char>>)
    ensures
        strictly_sorted(child_names(ss, pre)),
    decreases ss.len(),
{
    if ss.len() > 0 {
        law_folders_sorted_and_unique(ss.drop_last(), pre);
        let p = parts_of(ss.last());
        if p.len() > pre.len() && path_prefix(pre, p) {
            lemma_insert_name_sorted(child_names(ss.drop_last(), pre), p[pre.len() as int]);
        }
    }
}

} // verus!

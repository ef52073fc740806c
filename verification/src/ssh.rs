//! SSH tab labels and messages, host-key mismatch reports, and the editing
//! of `known_hosts` files.
use vstd::prelude::*;

use crate::store::{Session, SshJumpHop, SshProxyEnvVar, SshProxyMode};
use crate::terminal_panel::{next_numbered_label, numbered, TabNameCounts};
use crate::text::{
    chars_of, contains, dec_digits, find_from, find_from_exec, lemma_find_from_bounds, lower_seq, lowercase_string,
    parse_u16, push_range, push_str, starts_with, str_contains, str_eq, str_starts_with, trim, trim_bounds,
    trim_string, u64_to_dec,
};

verus! {

/// How an SSH connection logs in.
#[derive(Clone, Debug, PartialEq, Eq)]
pub enum SshLogin {
    /// With a user name and a password.
    Password { user: String, password: String },
    /// As the user's SSH configuration says.
    Config,
}

/// Where an SSH connection goes and how it logs in.
#[derive(Clone, Debug, PartialEq, Eq)]
pub struct SshTarget {
    pub host: String,
    pub port: Option<u16>,
    pub login: SshLogin,
}

/// A string holding `t`.
fn owned(t: &str) -> (s: String)
    ensures
        s@ == t@,
{
    let mut s = String::new();
    push_str(&mut s, t);
    s
}

/// A trimmed user name, or `root` when it is blank.
pub open spec fn user_or_root(user: Seq<char>) -> Seq<char> {
    if trim(user).len() == 0 {
        "root"@
    } else {
        trim(user)
    }
}

/// The tooltip of an SSH tab: `user/host` for a password login, the host
/// alone otherwise.
pub open spec fn tooltip_text(t: SshTarget) -> Seq<char> {
    match t.login {
        SshLogin::Password { user, .. } => user_or_root(user@) + "/"@ + trim(t.host@),
        SshLogin::Config => trim(t.host@),
    }
}

/// The target of an SSH connection as messages name it: `user@host:port`
/// for a password login, `host:port` otherwise; the port defaults to 22.
pub open spec fn target_label_text(t: SshTarget) -> Seq<char> {
    let port: nat = match t.port {
        Some(p) => p as nat,
        None => 22,
    };
    match t.login {
        SshLogin::Password { user, .. } => user_or_root(user@) + "@"@ + trim(t.host@) + ":"@
            + dec_digits(port),
        SshLogin::Config => trim(t.host@) + ":"@ + dec_digits(port),
    }
}

/// `user` trimmed, or `root`.
fn user_or_root_string(user: &str) -> (out: String)
    ensures
        out@ == user_or_root(user@),
{
    let u = trim_string(user);
    if u.as_str().is_empty() {
        owned("root")
    } else {
        u
    }
}

/// The tooltip of the tab of an SSH connection.
pub fn ssh_tab_tooltip(target: &SshTarget) -> (out: String)
    ensures
        out@ == tooltip_text(*target),
{
    let host = trim_string(target.host.as_str());
    match &target.login {
        SshLogin::Password { user, .. } => {
            let mut out = user_or_root_string(user.as_str());
            push_str(&mut out, "/");
            push_str(&mut out, host.as_str());
            out
        },
        SshLogin::Config => host,
    }
}

/// The target of an SSH connection, as failure messages name it.
pub fn ssh_target_label(target: &SshTarget) -> (out: String)
    ensures
        out@ == target_label_text(*target),
{
    let host = trim_string(target.host.as_str());
    let port: u16 = match target.port {
        Some(p) => p,
        None => 22,
    };
    let mut out = match &target.login {
        SshLogin::Password { user, .. } => {
            let mut out = user_or_root_string(user.as_str());
            push_str(&mut out, "@");
            push_str(&mut out, host.as_str());
            out
        },
        SshLogin::Config => host,
    };
    push_str(&mut out, ":");
    let digits = u64_to_dec(port as u64);
    push_str(&mut out, digits.as_str());
    out
}

/// The message shown when a connection fails with an error whose root
/// cause reads `root_cause`: the target, a colon, and the cause, with a
/// refused password said plainly.
pub fn ssh_connect_failure_message(target: &SshTarget, root_cause: &str) -> (out: String)
    ensures
        out@ == target_label_text(*target) + ": "@ + if contains(
            root_cause@,
            "password auth status: Denied"@,
        ) {
            "Wrong password"@
        } else {
            root_cause@
        },
{
    let mut out = ssh_target_label(target);
    push_str(&mut out, ": ");
    if str_contains(root_cause, "password auth status: Denied") {
        push_str(&mut out, "Wrong password");
    } else {
        push_str(&mut out, root_cause);
    }
    out
}

/// The label of a new SSH tab: the trimmed base label (`ssh` when blank),
/// numbered from the second tab of that label on.
pub fn dedupe_tab_label(counts: &mut TabNameCounts, base: &str) -> (label: String)
    requires
        old(counts).count(if trim(base@).len() == 0 {
            "ssh"@
        } else {
            trim(base@)
        }) < usize::MAX,
    ensures
        ({
            let b = if trim(base@).len() == 0 {
                "ssh"@
            } else {
                trim(base@)
            };
            &&& final(counts).count(b) == old(counts).count(b) + 1
            &&& forall|other: Seq<char>|
                other != b ==> final(counts).count(other) == old(counts).count(other)
            &&& label@ == numbered(b, old(counts).count(b) + 1)
        }),
{
    let t = trim_string(base);
    let b = if t.as_str().is_empty() {
        owned("ssh")
    } else {
        t
    };
    next_numbered_label(counts, b.as_str())
}

/// The trimmed text between the first `start` and the first `end` after
/// it, as `split_once(start)` then `split_once(end)` find them.
pub open spec fn between(h: Seq<char>, start: Seq<char>, end: Seq<char>) -> Option<Seq<char>> {
    match find_from(h, start, 0) {
        Some(i) => {
            let after = h.skip(i + start.len());
            match find_from(after, end, 0) {
                Some(j) => Some(trim(after.take(j))),
                None => None,
            }
        },
        None => None,
    }
}

/// The index of the last `c` in `s[0..e]`.
pub open spec fn last_index_of(s: Seq<char>, c: char, e: int) -> Option<int>
    decreases e,
{
    if e <= 0 {
        None
    } else if s[e - 1] == c {
        Some(e - 1)
    } else {
        last_index_of(s, c, e - 1)
    }
}

/// A server named `host:port` split in two; a server without a port (or
/// with one that does not parse) is all host.
pub open spec fn server_host_port(server: Seq<char>) -> (Option<Seq<char>>, Option<u16>) {
    let s = trim(server);
    if s.len() == 0 {
        (None, None)
    } else {
        match last_index_of(s, ':', s.len() as int) {
            Some(k) if parse_u16(trim(s.skip(k + 1))) is Some => {
                let host = trim(s.take(k));
                (if host.len() > 0 {
                    Some(host)
                } else {
                    None
                }, parse_u16(trim(s.skip(k + 1))))
            },
            _ => (Some(s), None),
        }
    }
}

/// The first of `a` and `b` that is there.
pub open spec fn or_else<T>(a: Option<T>, b: Option<T>) -> Option<T> {
    if a is Some {
        a
    } else {
        b
    }
}

/// The server named in a host-key mismatch report.
pub open spec fn mismatch_server(r: Seq<char>) -> Option<Seq<char>> {
    or_else(
        between(r, "ssh server "@, " has changed"@),
        or_else(
            between(r, "ssh server "@, ". Got fingerprint"@),
            or_else(between(r, "server "@, " has changed"@), between(r, "server "@, ". Got fingerprint"@)),
        ),
    )
}

/// What a host-key mismatch report says.
#[derive(Clone, Debug, PartialEq, Eq)]
pub struct SshHostKeyMismatchDetails {
    pub got_fingerprint: Option<String>,
    pub known_hosts_path: Option<String>,
    pub server_host: Option<String>,
    pub server_port: Option<u16>,
}

/// The view of an optional string.
pub open spec fn opt_view(o: Option<String>) -> Option<Seq<char>> {
    match o {
        Some(s) => Some(s@),
        None => None,
    }
}

/// The text between `start` and `end` in `v`, trimmed.
fn between_exec(v: &Vec<char>, start: &str, end: &str) -> (r: Option<String>)
    ensures
        opt_view(r) == between(v@, start@, end@),
{
    let p = chars_of(start);
    match crate::text::find_from_exec(v, &p, 0) {
        Some(i) => {
            proof {
                lemma_find_from_bounds(v@, p@, 0);
            }
            let n = v.len();
            assert(i + p@.len() <= n);
            let a = i + p.len();
            let rest = crate::text::string_from_range(v, a, v.len());
            let after = chars_of(rest.as_str());
            assert(after@ =~= v@.skip(a as int));
            let q = chars_of(end);
            match crate::text::find_from_exec(&after, &q, 0) {
                Some(j) => {
                    proof {
                        lemma_find_from_bounds(after@, q@, 0);
                    }
                    let (x, y) = trim_bounds(&after, 0, j);
                    assert(after@.subrange(0, j as int) =~= after@.take(j as int));
                    Some(crate::text::string_from_range(&after, x, y))
                },
                None => None,
            }
        },
        None => None,
    }
}

/// The index of the last `c` in `v[0..e]`.
fn last_index_exec(v: &Vec<char>, c: char, e: usize) -> (r: Option<usize>)
    requires
        e <= v@.len(),
    ensures
        match last_index_of(v@, c, e as int) {
            Some(k) => r == Some(k as usize) && 0 <= k < e,
            None => r is None,
        },
    decreases e,
{
    if e == 0 {
        None
    } else if v[e - 1] == c {
        assert(last_index_of(v@, c, e as int) == Some(e - 1));
        Some(e - 1)
    } else {
        last_index_exec(v, c, e - 1)
    }
}

/// Splits a server name into host and port.
fn parse_server_host_port(server: &str) -> (r: (Option<String>, Option<u16>))
    ensures
        (opt_view(r.0), r.1) == server_host_port(server@),
{
    let s = trim_string(server);
    if s.as_str().is_empty() {
        return (None, None);
    }
    let v = chars_of(s.as_str());
    match last_index_exec(&v, ':', v.len()) {
        Some(k) => {
            let (pa, pb) = trim_bounds(&v, k + 1, v.len());
            let port = crate::text::parse_u16_range(&v, pa, pb);
            assert(v@.subrange(k + 1, v@.len() as int) =~= v@.skip(k + 1));
            match port {
                Some(p) => {
                    let (ha, hb) = trim_bounds(&v, 0, k);
                    assert(v@.subrange(0, k as int) =~= v@.take(k as int));
                    if ha == hb {
                        (None, Some(p))
                    } else {
                        (Some(crate::text::string_from_range(&v, ha, hb)), Some(p))
                    }
                },
                None => (Some(s), None),
            }
        },
        None => (Some(s), None),
    }
}

/// Reads the details of a host-key mismatch out of a connection error:
/// nothing unless the error (in any case) mentions a host key mismatch;
/// otherwise the fingerprint offered, the `known_hosts` file and the
/// server, as far as the error names them.
pub fn parse_ssh_host_key_mismatch(reason: &str) -> (r: Option<SshHostKeyMismatchDetails>)
    ensures
        !contains(lower_seq(reason@), "host key mismatch"@) ==> r is None,
        contains(lower_seq(reason@), "host key mismatch"@) ==> match r {
            Some(d) => {
                let sv = match mismatch_server(reason@) {
                    Some(x) => server_host_port(x),
                    None => (None, None),
                };
                &&& opt_view(d.got_fingerprint) == between(
                    reason@,
                    "Got fingerprint "@,
                    " instead of"@,
                )
                &&& opt_view(d.known_hosts_path) == between(reason@, "Some(\""@, "\")"@)
                &&& opt_view(d.server_host) == sv.0
                &&& d.server_port == sv.1
            },
            None => false,
        },
{
    let lower = lowercase_string(reason);
    if !str_contains(lower.as_str(), "host key mismatch") {
        return None;
    }
    let v = chars_of(reason);
    let mut server = between_exec(&v, "ssh server ", " has changed");
    if server.is_none() {
        server = between_exec(&v, "ssh server ", ". Got fingerprint");
    }
    if server.is_none() {
        server = between_exec(&v, "server ", " has changed");
    }
    if server.is_none() {
        server = between_exec(&v, "server ", ". Got fingerprint");
    }
    let (server_host, server_port) = match server {
        Some(s) => parse_server_host_port(s.as_str()),
        None => (None, None),
    };
    let got_fingerprint = between_exec(&v, "Got fingerprint ", " instead of");
    let known_hosts_path = between_exec(&v, "Some(\"", "\")");
    Some(SshHostKeyMismatchDetails { got_fingerprint, known_hosts_path, server_host, server_port })
}

/// The entries of `known_hosts` that name `host` on `port`: `[host]:port`,
/// and also the bare host on the default port.  A blank host names none.
pub open spec fn known_host_targets(host: Seq<char>, port: u16) -> Seq<Seq<char>> {
    let h = trim(host);
    if h.len() == 0 {
        seq![]
    } else {
        (if port == 22 {
            seq![h]
        } else {
            seq![]
        }) + seq!["["@ + h + "]:"@ + dec_digits(port as nat)]
    }
}

/// The pieces of `s[i..]` between the `c`s, as `str::split(c)` yields them.
pub open spec fn split_on(s: Seq<char>, c: char, i: int) -> Seq<Seq<char>>
    decreases s.len() + 1 - i,
{
    if i < 0 || i > s.len() {
        seq![]
    } else {
        proof {
            crate::text::lemma_find_char_from_bounds(s, c, i);
        }
        match crate::text::find_char_from(s, c, i) {
            Some(j) => seq![s.subrange(i, j)] + split_on(s, c, j + 1),
            None => seq![s.subrange(i, s.len() as int)],
        }
    }
}

/// The index of the first whitespace character of `t` at or after `i`,
/// or the length of `t`.
pub open spec fn first_ws(t: Seq<char>, i: int) -> int
    decreases t.len() - i,
{
    if i < 0 || i >= t.len() {
        t.len() as int
    } else if crate::text::is_ws(t[i]) {
        i
    } else {
        first_ws(t, i + 1)
    }
}

/// Some piece is one of the targets.
pub open spec fn any_piece_in(pieces: Seq<Seq<char>>, targets: Seq<Seq<char>>) -> bool {
    exists|k: int| 0 <= k < pieces.len() && targets.contains(#[trigger] pieces[k])
}

/// Whether a `known_hosts` line is dropped: a line that is neither blank
/// nor a comment goes when one of the comma-separated names of its first
/// field is a target.
pub open spec fn line_removed(line: Seq<char>, targets: Seq<Seq<char>>) -> bool {
    let t = trim(line);
    &&& t.len() > 0
    &&& t[0] != '#'
    &&& any_piece_in(split_on(t.take(first_ws(t, 0)), ',', 0), targets)
}

/// The lines kept, joined back, and how many were dropped.
pub open spec fn filter_lines(lines: Seq<Seq<char>>, targets: Seq<Seq<char>>) -> (Seq<char>, nat)
    decreases lines.len(),
{
    if lines.len() == 0 {
        (seq![], 0)
    } else {
        let rest = filter_lines(lines.skip(1), targets);
        if line_removed(lines[0], targets) {
            (rest.0, rest.1 + 1)
        } else {
            (lines[0] + rest.0, rest.1)
        }
    }
}

/// Whether `piece` is one of `targets`.
fn in_targets(piece: &str, targets: &Vec<String>) -> (b: bool)
    ensures
        b == crate::text::views(targets@).contains(piece@),
{
    let mut i: usize = 0;
    while i < targets.len()
        invariant
            0 <= i <= targets@.len(),
            forall|k: int| 0 <= k < i ==> targets@[k]@ != piece@,
        decreases targets@.len() - i,
    {
        if str_eq(targets[i].as_str(), piece) {
            assert(crate::text::views(targets@)[i as int] == piece@);
            return true;
        }
        i += 1;
    }
    assert forall|k: int| 0 <= k < crate::text::views(targets@).len() implies crate::text::views(
        targets@,
    )[k] != piece@ by {
        assert(crate::text::views(targets@)[k] == targets@[k]@);
    }
    false
}

/// Whether a piece of `field[j..]` between commas is one of `targets`.
fn any_piece_from(field: &Vec<char>, j: usize, targets: &Vec<String>) -> (b: bool)
    requires
        j <= field@.len(),
    ensures
        b == any_piece_in(split_on(field@, ',', j as int), crate::text::views(targets@)),
    decreases field@.len() + 1 - j,
{
    let ghost tv = crate::text::views(targets@);
    match crate::text::find_char_from_exec(field, ',', j) {
        Some(c) => {
            proof {
                crate::text::lemma_find_char_from_bounds(field@, ',', j as int);
            }
            let piece = crate::text::string_from_range(field, j, c);
            let ghost ps = split_on(field@, ',', j as int);
            let ghost rest = split_on(field@, ',', c + 1);
            assert(ps == seq![piece@] + rest);
            if in_targets(piece.as_str(), targets) {
                assert(ps[0] == piece@);
                return true;
            }
            let n = field.len();
            assert(c < n);
            let b = any_piece_from(field, c + 1, targets);
            proof {
                if b {
                    let k = choose|k: int| 0 <= k < rest.len() && tv.contains(#[trigger] rest[k]);
                    assert(ps[k + 1] == rest[k]);
                }
                if any_piece_in(ps, tv) {
                    let k = choose|k: int| 0 <= k < ps.len() && tv.contains(#[trigger] ps[k]);
                    if k > 0 {
                        assert(rest[k - 1] == ps[k]);
                    }
                }
            }
            b
        },
        None => {
            let piece = crate::text::string_from_range(field, j, field.len());
            let ghost ps = split_on(field@, ',', j as int);
            assert(ps == seq![piece@]);
            let b = in_targets(piece.as_str(), targets);
            proof {
                if b {
                    assert(ps[0] == piece@);
                }
            }
            b
        },
    }
}

/// Whether the line `v[lo..hi]` of a `known_hosts` file is dropped.
fn line_removed_exec(v: &Vec<char>, lo: usize, hi: usize, targets: &Vec<String>) -> (b: bool)
    requires
        lo <= hi <= v@.len(),
    ensures
        b == line_removed(v@.subrange(lo as int, hi as int), crate::text::views(targets@)),
{
    let (a, e) = trim_bounds(v, lo, hi);
    let ghost t = trim(v@.subrange(lo as int, hi as int));
    assert(t == v@.subrange(a as int, e as int));
    if a == e || v[a] == '#' {
        return false;
    }
    let mut f = a;
    while f < e && !crate::text::is_whitespace(v[f])
        invariant
            a <= f <= e <= v@.len(),
            t == v@.subrange(a as int, e as int),
            first_ws(t, 0) == first_ws(t, f - a),
        decreases e - f,
    {
        f += 1;
    }
    assert(first_ws(t, f - a) == f - a);
    let field = crate::text::string_from_range(v, a, f);
    let fv = chars_of(field.as_str());
    assert(fv@ =~= t.take(f - a));
    any_piece_from(&fv, 0, targets)
}

/// Drops from `known_hosts` contents the entries for `host` on `port`:
/// the kept lines are returned as they were, with the number of lines
/// dropped.  Blank lines and comments always stay.
pub fn filter_known_hosts_contents(contents: &str, host: &str, port: u16) -> (r: (String, usize))
    ensures
        r.0@ == filter_lines(
            crate::text::split_inclusive_from(contents@, 0),
            known_host_targets(host@, port),
        ).0,
        r.1 == filter_lines(
            crate::text::split_inclusive_from(contents@, 0),
            known_host_targets(host@, port),
        ).1,
{
    let h = trim_string(host);
    let mut targets: Vec<String> = Vec::new();
    if !h.as_str().is_empty() {
        if port == 22 {
            targets.push(owned(h.as_str()));
        }
        let mut t = owned("[");
        push_str(&mut t, h.as_str());
        push_str(&mut t, "]:");
        let digits = u64_to_dec(port as u64);
        push_str(&mut t, digits.as_str());
        targets.push(t);
    }
    let ghost tv = crate::text::views(targets@);
    assert(tv =~= known_host_targets(host@, port));
    let v = chars_of(contents);
    let ghost all = crate::text::split_inclusive_from(v@, 0);
    let mut out = String::new();
    let mut removed: usize = 0;
    let mut i: usize = 0;
    while i < v.len()
        invariant
            0 <= i <= v@.len(),
            tv == crate::text::views(targets@),
            all == crate::text::split_inclusive_from(v@, 0),
            out@ + filter_lines(crate::text::split_inclusive_from(v@, i as int), tv).0 == filter_lines(all, tv).0,
            removed + filter_lines(crate::text::split_inclusive_from(v@, i as int), tv).1 == filter_lines(all, tv).1,
            removed <= i,
        decreases v@.len() - i,
    {
        let ghost pieces = crate::text::split_inclusive_from(v@, i as int);
        proof {
            crate::text::lemma_find_char_from_bounds(v@, '\n', i as int);
        }
        let end = match crate::text::find_char_from_exec(&v, '\n', i) {
            Some(j) => j + 1,
            None => v.len(),
        };
        let ghost line = v@.subrange(i as int, end as int);
        assert(pieces[0] == line);
        assert(pieces.skip(1) =~= crate::text::split_inclusive_from(v@, end as int));
        if line_removed_exec(&v, i, end, &targets) {
            removed += 1;
        } else {
            crate::text::push_range(&mut out, &v, i, end);
            assert(out@ + filter_lines(crate::text::split_inclusive_from(v@, end as int), tv).0 =~= filter_lines(all, tv).0);
        }
        i = end;
    }
    (out, removed)
}

/// `s[i..]` with each occurrence of the non-empty `pat`, left to right and
/// not overlapping, replaced by `rep` (`str::replace`).
pub open spec fn replace_from(s: Seq<char>, pat: Seq<char>, rep: Seq<char>, i: int) -> Seq<char>
    decreases s.len() - i,
{
    if pat.len() == 0 || i < 0 || i > s.len() {
        s
    } else {
        match find_from(s, pat, i) {
            Some(j) => if i <= j && j + pat.len() <= s.len() {
                s.subrange(i, j) + rep + replace_from(s, pat, rep, j + pat.len())
            } else {
                s
            },
            None => s.subrange(i, s.len() as int),
        }
    }
}

/// Every occurrence of the non-empty `pat` in `s` replaced by `rep`.
pub open spec fn replace_all(s: Seq<char>, pat: Seq<char>, rep: Seq<char>) -> Seq<char> {
    replace_from(s, pat, rep, 0)
}

/// `s` with each occurrence of the non-empty `pat` replaced by `rep`.
pub fn replace_str(s: &str, pat: &str, rep: &str) -> (out: String)
    requires
        pat@.len() > 0,
    ensures
        out@ == replace_all(s@, pat@, rep@),
{
    let v = chars_of(s);
    let p = chars_of(pat);
    let n = v.len();
    let mut out = String::new();
    let mut i: usize = 0;
    loop
        invariant
            0 <= i <= v@.len(),
            n == v@.len(),
            v@ == s@,
            p@ == pat@,
            p@.len() > 0,
            out@ + replace_from(v@, p@, rep@, i as int) == replace_from(v@, p@, rep@, 0),
        decreases v@.len() - i,
    {
        proof {
            lemma_find_from_bounds(v@, p@, i as int);
        }
        match find_from_exec(&v, &p, i) {
            None => {
                push_range(&mut out, &v, i, v.len());
                return out;
            },
            Some(j) => {
                assert(i <= j && j + p@.len() <= n);
                let next = j + p.len();
                let ghost before = out@;
                push_range(&mut out, &v, i, j);
                push_str(&mut out, rep);
                assert(out@ + replace_from(v@, p@, rep@, j + p@.len()) =~= before + replace_from(v@, p@, rep@, i as int));
                i = next;
            },
        }
    }
}

/// The placeholder for the home directory.
pub open spec fn home_placeholder() -> Seq<char> {
    seq!['$', '{', 'H', 'o', 'm', 'e', 'D', 'i', 'r', '}']
}

/// `raw` with the home directory `home` put in: every `${HomeDir}` is
/// replaced by it, and then a leading `~` alone or before `/` too. With no
/// home directory known, `raw` is left as it is.
pub open spec fn expand_home(raw: Seq<char>, home: Option<Seq<char>>) -> Seq<char> {
    match home {
        None => raw,
        Some(h) => {
            let a = if contains(raw, home_placeholder()) {
                replace_all(raw, home_placeholder(), h)
            } else {
                raw
            };
            if a == seq!['~'] {
                h
            } else if starts_with(a, seq!['~', '/']) {
                h + a.skip(1)
            } else {
                a
            }
        },
    }
}

/// `raw` with the home directory `home` put in (see `expand_home`).
pub fn expand_home_with(raw: &str, home: Option<&str>) -> (out: String)
    ensures
        out@ == expand_home(raw@, match home {
            Some(h) => Some(h@),
            None => None,
        }),
{
    let placeholder = "${HomeDir}";
    let tilde = "~";
    let tilde_slash = "~/";
    proof {
        reveal_strlit("${HomeDir}");
        reveal_strlit("~");
        reveal_strlit("~/");
        assert(placeholder@ =~= home_placeholder());
        assert(tilde@ =~= seq!['~']);
        assert(tilde_slash@ =~= seq!['~', '/']);
    }
    let mut out = String::new();
    push_str(&mut out, raw);
    let h = match home {
        None => {
            return out;
        },
        Some(h) => h,
    };
    if str_contains(raw, placeholder) {
        out = replace_str(raw, placeholder, h);
    }
    if str_eq(out.as_str(), tilde) {
        let mut home_only = String::new();
        push_str(&mut home_only, h);
        return home_only;
    }
    if str_starts_with(out.as_str(), tilde_slash) {
        let v = chars_of(out.as_str());
        let mut expanded = String::new();
        push_str(&mut expanded, h);
        push_range(&mut expanded, &v, 1, v.len());
        assert(v@.subrange(1, v@.len() as int) =~= v@.skip(1));
        return expanded;
    }
    out
}

/// The current user's home directory as text (`home::home_dir`), when it is
/// known and is valid Unicode. It comes from the environment and the
/// system, so nothing is stated of it.
#[verifier::external_body]
fn home_dir_text() -> (r: Option<String>) {
    home::home_dir().and_then(|p| p.to_str().map(|t| t.to_string()))
}

/// `raw` with the current user's home directory put in (see
/// `expand_home`); left as it is when the home directory is not known.
pub fn expand_home_dir_placeholders(raw: &str) -> (out: String)
    ensures
        exists|home: Option<Seq<char>>| out@ == #[trigger] expand_home(raw@, home),
{
    let home = home_dir_text();
    let out = match &home {
        Some(h) => expand_home_with(raw, Some(h.as_str())),
        None => expand_home_with(raw, None),
    };
    assert(out@ == expand_home(raw@, opt_view(home)));
    out
}

/// How an SSH connection reaches its server, as the terminal is given it.
/// The environment is applied in order, a later variable of the same name
/// taking the place of an earlier one.
#[derive(Debug)]
pub enum SshProxyPlan {
    /// As the user's SSH configuration says.
    Inherit,
    /// Directly.
    Disabled,
    /// Through a proxy command.
    Command { command: String, working_dir: Option<String>, env: Vec<(String, String)> },
    /// Through a chain of jump hosts.
    JumpServer { hops: Vec<SshJumpHop>, working_dir: Option<String>, env: Vec<(String, String)> },
}

/// A jump hop as plain values.
pub open spec fn hop_view(h: SshJumpHop) -> (Seq<char>, Option<Seq<char>>, Option<u16>) {
    (h.host@, opt_view(h.user), h.port)
}

/// Jump hops as plain values.
pub open spec fn hops_view(hs: Seq<SshJumpHop>) -> Seq<(Seq<char>, Option<Seq<char>>, Option<u16>)> {
    hs.map_values(|h: SshJumpHop| hop_view(h))
}

/// Name/value pairs as plain values.
pub open spec fn pairs_view(v: Seq<(String, String)>) -> Seq<(Seq<char>, Seq<char>)> {
    v.map_values(|e: (String, String)| (e.0@, e.1@))
}

/// The proxy environment with the home directory put into each value.
pub open spec fn proxy_env(vars: Option<Vec<SshProxyEnvVar>>, home: Option<Seq<char>>) -> Seq<(Seq<char>, Seq<char>)> {
    match vars {
        Some(v) => v@.map_values(|e: SshProxyEnvVar| (e.name@, expand_home(e.value@, home))),
        None => seq![],
    }
}

/// The proxy working directory with the home directory put in.
pub open spec fn proxy_workdir(w: Option<String>, home: Option<Seq<char>>) -> Option<Seq<char>> {
    match w {
        Some(d) => Some(expand_home(d@, home)),
        None => None,
    }
}

/// Whether `plan` is how `session` reaches its server when the home
/// directory is `home`: a session with no proxy mode connects directly; a
/// proxy command with none stored is empty; no stored hops are no hops.
pub open spec fn proxy_plan_of(session: Session, home: Option<Seq<char>>, plan: SshProxyPlan) -> bool {
    let mode = match session.ssh_proxy_mode {
        Some(m) => m,
        None => SshProxyMode::Disabled,
    };
    match mode {
        SshProxyMode::Inherit => plan is Inherit,
        SshProxyMode::Disabled => plan is Disabled,
        SshProxyMode::Command => match plan {
            SshProxyPlan::Command { command, working_dir, env } => {
                &&& command@ == match session.ssh_proxy_command {
                    Some(c) => c@,
                    None => Seq::<char>::empty(),
                }
                &&& opt_view(working_dir) == proxy_workdir(session.ssh_proxy_workdir, home)
                &&& pairs_view(env@) == proxy_env(session.ssh_proxy_env, home)
            },
            _ => false,
        },
        SshProxyMode::JumpServer => match plan {
            SshProxyPlan::JumpServer { hops, working_dir, env } => {
                &&& hops_view(hops@) == match session.ssh_proxy_jump {
                    Some(h) => hops_view(h@),
                    None => Seq::empty(),
                }
                &&& opt_view(working_dir) == proxy_workdir(session.ssh_proxy_workdir, home)
                &&& pairs_view(env@) == proxy_env(session.ssh_proxy_env, home)
            },
            _ => false,
        },
    }
}

/// The proxy working directory with `home` put in.
fn expand_workdir(w: &Option<String>, home: Option<&str>) -> (out: Option<String>)
    ensures
        opt_view(out) == proxy_workdir(*w, match home {
            Some(h) => Some(h@),
            None => None,
        }),
{
    match w {
        Some(d) => Some(expand_home_with(d.as_str(), home)),
        None => None,
    }
}

/// The proxy environment with `home` put into each value.
fn expand_env(vars: &Option<Vec<SshProxyEnvVar>>, home: Option<&str>) -> (out: Vec<(String, String)>)
    ensures
        pairs_view(out@) == proxy_env(*vars, match home {
            Some(h) => Some(h@),
            None => None,
        }),
{
    let ghost hv = match home {
        Some(h) => Some(h@),
        None => None,
    };
    let mut out: Vec<(String, String)> = Vec::new();
    match vars {
        None => {
            assert(pairs_view(out@) =~= Seq::<(Seq<char>, Seq<char>)>::empty());
        },
        Some(v) => {
            let mut i: usize = 0;
            while i < v.len()
                invariant
                    0 <= i <= v@.len(),
                    pairs_view(out@) == v@.take(i as int).map_values(|e: SshProxyEnvVar| (e.name@, expand_home(e.value@, hv))),
                    hv == match home {
                        Some(h) => Some(h@),
                        None => None::<Seq<char>>,
                    },
                decreases v@.len() - i,
            {
                let ghost before = out@;
                let name = owned(v[i].name.as_str());
                let value = expand_home_with(v[i].value.as_str(), home);
                out.push((name, value));
                assert(pairs_view(out@) =~= pairs_view(before).push((v@[i as int].name@, expand_home(v@[i as int].value@, hv))));
                assert(v@.take(i + 1) =~= v@.take(i as int).push(v@[i as int]));
                i += 1;
            }
            assert(v@.take(v@.len() as int) =~= v@);
        },
    }
    out
}

/// A copy of the jump hops.
fn copy_hops(hops: &Option<Vec<SshJumpHop>>) -> (out: Vec<SshJumpHop>)
    ensures
        hops_view(out@) == match *hops {
            Some(h) => hops_view(h@),
            None => Seq::empty(),
        },
{
    let mut out: Vec<SshJumpHop> = Vec::new();
    match hops {
        None => {
            assert(hops_view(out@) =~= Seq::<(Seq<char>, Option<Seq<char>>, Option<u16>)>::empty());
        },
        Some(v) => {
            let mut i: usize = 0;
            while i < v.len()
                invariant
                    0 <= i <= v@.len(),
                    hops_view(out@) == hops_view(v@.take(i as int)),
                decreases v@.len() - i,
            {
                let ghost before = out@;
                let user = match &v[i].user {
                    Some(u) => Some(owned(u.as_str())),
                    None => None,
                };
                let hop = SshJumpHop { host: owned(v[i].host.as_str()), user, port: v[i].port };
                out.push(hop);
                assert(hops_view(out@) =~= hops_view(before).push(hop_view(v@[i as int])));
                assert(v@.take(i + 1) =~= v@.take(i as int).push(v@[i as int]));
                assert(hops_view(v@.take(i + 1)) =~= hops_view(v@.take(i as int)).push(hop_view(v@[i as int])));
                i += 1;
            }
            assert(v@.take(v@.len() as int) =~= v@);
        },
    }
    out
}

/// How `session` reaches its server when the home directory is `home`.
pub fn ssh_proxy_with_home(session: &Session, home: Option<&str>) -> (plan: SshProxyPlan)
    ensures
        proxy_plan_of(*session, match home {
            Some(h) => Some(h@),
            None => None,
        }, plan),
{
    let mode = match session.ssh_proxy_mode {
        Some(m) => m,
        None => SshProxyMode::Disabled,
    };
    match mode {
        SshProxyMode::Inherit => SshProxyPlan::Inherit,
        SshProxyMode::Disabled => SshProxyPlan::Disabled,
        SshProxyMode::Command => {
            let command = match &session.ssh_proxy_command {
                Some(c) => owned(c.as_str()),
                None => String::new(),
            };
            SshProxyPlan::Command {
                command,
                working_dir: expand_workdir(&session.ssh_proxy_workdir, home),
                env: expand_env(&session.ssh_proxy_env, home),
            }
        },
        SshProxyMode::JumpServer => SshProxyPlan::JumpServer {
            hops: copy_hops(&session.ssh_proxy_jump),
            working_dir: expand_workdir(&session.ssh_proxy_workdir, home),
            env: expand_env(&session.ssh_proxy_env, home),
        },
    }
}

/// How `session` reaches its server, with the current user's home directory
/// put into its proxy working directory and environment.
pub fn ssh_proxy_from_session(session: &Session) -> (plan: SshProxyPlan)
    ensures
        exists|home: Option<Seq<char>>| #[trigger] proxy_plan_of(*session, home, plan),
{
    let home = home_dir_text();
    let plan = match &home {
        Some(h) => ssh_proxy_with_home(session, Some(h.as_str())),
        None => ssh_proxy_with_home(session, None),
    };
    assert(proxy_plan_of(*session, opt_view(home), plan));
    plan
}

} // verus!

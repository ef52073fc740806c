//! Share keys of relay sharing: a room id and a join key drawn from an
//! unambiguous alphabet, written together as `ROOMIDXXX-JOINKY`.
use vstd::prelude::*;

use crate::text::{
    chars_of, find_char_from, find_char_from_exec, is_ws, lemma_find_char_from_bounds, push_str,
    string_from_chars, string_from_range, string_push, trim, trim_bounds, trim_end, trim_start, trim_string,
};

verus! {

/// Length of a room id.
pub const ROOM_ID_LEN: usize = 9;

/// Length of a join key.
pub const JOIN_KEY_LEN: usize = 6;

/// The relay a share connects to unless configured otherwise.
pub const DEFAULT_RELAY_URL: &'static str = "ws://127.0.0.1:7231/ws";

/// The alphabet of share codes: letters and digits without the look-alikes
/// `I`, `O`, `l`, `0` and `1`.
pub open spec fn share_alphabet() -> Seq<char> {
    "ABCDEFGHJKLMNPQRSTUVWXYZabcdefghijkmnopqrstuvwxyz23456789"@
}

/// `s` is a share code of length `len`.
pub open spec fn valid_code(s: Seq<char>, len: nat) -> bool {
    s.len() == len && forall|i: int| 0 <= i < s.len() ==> share_alphabet().contains(#[trigger] s[i])
}

/// A separator that may appear inside a typed share key.
pub open spec fn is_separator(c: char) -> bool {
    c == '-' || c == ':' || c == '_' || c == ' '
}

/// `s` without its separators.
pub open spec fn without_separators(s: Seq<char>) -> Seq<char>
    decreases s.len(),
{
    if s.len() == 0 {
        seq![]
    } else {
        without_separators(s.drop_last()) + if is_separator(s.last()) {
            seq![]
        } else {
            seq![s.last()]
        }
    }
}

/// Why a share key was refused.
#[derive(Clone, Copy, Debug, PartialEq, Eq, Structural)]
pub enum ShareKeyError {
    /// Without separators the key does not have the expected length.
    WrongLength,
    /// The room id or the join key holds a character outside the alphabet.
    Invalid,
}

/// The result of parsing a typed share key.
pub open spec fn parse_share_key_spec(value: Seq<char>) -> Result<(Seq<char>, Seq<char>), ShareKeyError> {
    let n = without_separators(trim(value));
    if n.len() != ROOM_ID_LEN + JOIN_KEY_LEN {
        Err(ShareKeyError::WrongLength)
    } else if !valid_code(n.take(ROOM_ID_LEN as int), ROOM_ID_LEN as nat) || !valid_code(
        n.skip(ROOM_ID_LEN as int),
        JOIN_KEY_LEN as nat,
    ) {
        Err(ShareKeyError::Invalid)
    } else {
        Ok((n.take(ROOM_ID_LEN as int), n.skip(ROOM_ID_LEN as int)))
    }
}

impl ShareKeyError {
    /// The message shown to the user.
    pub fn message(&self) -> (m: String)
        ensures
            *self == ShareKeyError::WrongLength ==> m@
                == "Share Key must be 15 chars total (excluding separators)."@,
            *self == ShareKeyError::Invalid ==> m@ == "Share Key is invalid."@,
    {
        let mut m = String::new();
        match self {
            ShareKeyError::WrongLength => push_str(
                &mut m,
                "Share Key must be 15 chars total (excluding separators).",
            ),
            ShareKeyError::Invalid => push_str(&mut m, "Share Key is invalid."),
        }
        m
    }
}

/// The alphabet as a vector of characters.
fn alphabet() -> (v: Vec<char>)
    ensures
        v@ == share_alphabet(),
        v@.len() == 57,
{
    let v = chars_of("ABCDEFGHJKLMNPQRSTUVWXYZabcdefghijkmnopqrstuvwxyz23456789");
    proof {
        reveal_strlit("ABCDEFGHJKLMNPQRSTUVWXYZabcdefghijkmnopqrstuvwxyz23456789");
    }
    v
}

/// Whether `c` belongs to the share-code alphabet.
fn is_share_char(alpha: &Vec<char>, c: char) -> (b: bool)
    requires
        alpha@ == share_alphabet(),
    ensures
        b == share_alphabet().contains(c),
{
    let mut i: usize = 0;
    while i < alpha.len()
        invariant
            alpha@ == share_alphabet(),
            0 <= i <= alpha@.len(),
            forall|j: int| 0 <= j < i ==> alpha@[j] != c,
        decreases alpha@.len() - i,
    {
        if alpha[i] == c {
            return true;
        }
        i += 1;
    }
    false
}

/// Whether `value` is a share code of length `len`.
pub fn valid_share_code(value: &str, len: usize) -> (b: bool)
    ensures
        b == valid_code(value@, len as nat),
{
    let v = chars_of(value);
    if v.len() != len {
        return false;
    }
    let alpha = alphabet();
    let mut i: usize = 0;
    while i < v.len()
        invariant
            alpha@ == share_alphabet(),
            v@ == value@,
            0 <= i <= v@.len(),
            forall|j: int| 0 <= j < i ==> share_alphabet().contains(#[trigger] v@[j]),
        decreases v@.len() - i,
    {
        if !is_share_char(&alpha, v[i]) {
            return false;
        }
        i += 1;
    }
    true
}

/// Writes a room id and a join key as one share key: `room-join`.
pub fn compose_share_key(room_id: &str, join_key: &str) -> (key: String)
    ensures
        key@ == room_id@ + seq!['-'] + join_key@,
{
    let mut key = String::new();
    push_str(&mut key, room_id);
    string_push(&mut key, '-');
    push_str(&mut key, join_key);
    key
}

/// Reads a share key as typed by a user: surrounding whitespace and the
/// separators `- : _` and space are ignored; what remains must be a room id
/// followed by a join key.
pub fn parse_share_key(value: &str) -> (r: Result<(String, String), ShareKeyError>)
    ensures
        match r {
            Ok((room, join)) => parse_share_key_spec(value@) == Ok::<
                (Seq<char>, Seq<char>),
                ShareKeyError,
            >((room@, join@)),
            Err(e) => parse_share_key_spec(value@) == Err::<(Seq<char>, Seq<char>), ShareKeyError>(
                e,
            ),
        },
{
    let v = chars_of(value);
    let (a, b) = trim_bounds(&v, 0, v.len());
    assert(v@.subrange(0, v@.len() as int) == v@);
    let mut n: Vec<char> = Vec::new();
    let mut i = a;
    while i < b
        invariant
            a <= i <= b <= v@.len(),
            n@ == without_separators(v@.subrange(a as int, i as int)),
        decreases b - i,
    {
        let c = v[i];
        assert(v@.subrange(a as int, i + 1).drop_last() =~= v@.subrange(a as int, i as int));
        if !(c == '-' || c == ':' || c == '_' || c == ' ') {
            n.push(c);
        }
        assert(n@ =~= without_separators(v@.subrange(a as int, i + 1)));
        i += 1;
    }
    if n.len() != ROOM_ID_LEN + JOIN_KEY_LEN {
        return Err(ShareKeyError::WrongLength);
    }
    let room = string_from_range(&n, 0, ROOM_ID_LEN);
    let join = string_from_range(&n, ROOM_ID_LEN, n.len());
    assert(n@.subrange(0, ROOM_ID_LEN as int) =~= n@.take(ROOM_ID_LEN as int));
    assert(n@.subrange(ROOM_ID_LEN as int, n@.len() as int) =~= n@.skip(ROOM_ID_LEN as int));
    if !valid_share_code(room.as_str(), ROOM_ID_LEN) {
        return Err(ShareKeyError::Invalid);
    }
    if !valid_share_code(join.as_str(), JOIN_KEY_LEN) {
        return Err(ShareKeyError::Invalid);
    }
    Ok((room, join))
}

/// A random number (rand's `random`, from the thread-local generator).
/// Nothing is claimed of it: it depends on chance.
#[verifier::external_body]
fn random_u32() -> u32 {
    rand::random::<u32>()
}

/// The share code that the random numbers `draws` pick: each number picks
/// the character of the alphabet at its remainder by the alphabet's size.
pub open spec fn code_of_draws(draws: Seq<u32>) -> Seq<char> {
    draws.map_values(|d: u32| share_alphabet()[(d % 57) as int])
}

/// The share code that the random numbers `draws` pick (see `code_of_draws`).
pub fn code_from_draws(draws: &[u32]) -> (c: String)
    ensures
        c@ == code_of_draws(draws@),
{
    let alpha = alphabet();
    let mut out: Vec<char> = Vec::new();
    let mut k: usize = 0;
    while k < draws.len()
        invariant
            alpha@ == share_alphabet(),
            alpha@.len() == 57,
            k <= draws@.len(),
            out@ == code_of_draws(draws@.take(k as int)),
        decreases draws@.len() - k,
    {
        let idx = (draws[k] % 57) as usize;
        let c = alpha[idx];
        let ghost before = out@;
        out.push(c);
        assert(code_of_draws(draws@.take(k + 1)) =~= before.push(c));
        k += 1;
    }
    assert(draws@.take(draws@.len() as int) =~= draws@);
    string_from_chars(&out)
}

/// A code picked by any draws is a share code of that length.
proof fn lemma_code_of_draws_valid(draws: Seq<u32>)
    ensures
        valid_code(code_of_draws(draws), draws.len()),
{
    reveal_strlit("ABCDEFGHJKLMNPQRSTUVWXYZabcdefghijkmnopqrstuvwxyz23456789");
    assert forall|i: int| 0 <= i < code_of_draws(draws).len() implies share_alphabet().contains(
        #[trigger] code_of_draws(draws)[i],
    ) by {
        let j = (draws[i] % 57) as int;
        assert(0 <= j < share_alphabet().len());
        assert(share_alphabet()[j] == code_of_draws(draws)[i]);
    }
}

/// A random share code of length `len`: `len` random numbers, each picking
/// a character of the alphabet (see `code_of_draws`).
pub fn gen_code(len: usize) -> (code: String)
    ensures
        valid_code(code@, len as nat),
        exists|draws: Seq<u32>| draws.len() == len && code@ == #[trigger] code_of_draws(draws),
{
    let mut draws: Vec<u32> = Vec::new();
    let mut k: usize = 0;
    while k < len
        invariant
            k <= len,
            draws@.len() == k,
        decreases len - k,
    {
        draws.push(random_u32());
        k += 1;
    }
    let code = code_from_draws(draws.as_slice());
    proof {
        lemma_code_of_draws_valid(draws@);
    }
    assert(code@ == code_of_draws(draws@));
    code
}

/// A random room id.
pub fn gen_room_id() -> (id: String)
    ensures
        valid_code(id@, ROOM_ID_LEN as nat),
        exists|draws: Seq<u32>| draws.len() == ROOM_ID_LEN && id@ == #[trigger] code_of_draws(draws),
{
    gen_code(ROOM_ID_LEN)
}

/// A random join key.
pub fn gen_join_key() -> (key: String)
    ensures
        valid_code(key@, JOIN_KEY_LEN as nat),
        exists|draws: Seq<u32>| draws.len() == JOIN_KEY_LEN && key@ == #[trigger] code_of_draws(draws),
{
    gen_code(JOIN_KEY_LEN)
}

// ---------------------------------------------------------------------------
// The share-key round trip
// ---------------------------------------------------------------------------

proof fn lemma_alphabet_chars()
    ensures
        forall|c: char| share_alphabet().contains(c) ==> !is_separator(c) && !is_ws(c),
{
    reveal_strlit("ABCDEFGHJKLMNPQRSTUVWXYZabcdefghijkmnopqrstuvwxyz23456789");
    assert forall|c: char| share_alphabet().contains(c) implies !is_separator(c) && !is_ws(c) by {
        let i = choose|i: int| 0 <= i < share_alphabet().len() && share_alphabet()[i] == c;
        assert(0 <= i < 57);
    }
}

proof fn lemma_without_separators_concat(a: Seq<char>, b: Seq<char>)
    ensures
        without_separators(a + b) == without_separators(a) + without_separators(b),
    decreases b.len(),
{
    if b.len() == 0 {
        assert(a + b =~= a);
        assert(without_separators(a) + without_separators(b) =~= without_separators(a));
    } else {
        lemma_without_separators_concat(a, b.drop_last());
        assert((a + b).drop_last() =~= a + b.drop_last());
        assert((a + b).last() == b.last());
        assert(without_separators(a + b) =~= without_separators(a) + without_separators(b));
    }
}

proof fn lemma_without_separators_code(s: Seq<char>)
    requires
        forall|i: int| 0 <= i < s.len() ==> share_alphabet().contains(#[trigger] s[i]),
    ensures
        without_separators(s) == s,
    decreases s.len(),
{
    lemma_alphabet_chars();
    if s.len() > 0 {
        assert(share_alphabet().contains(s[s.len() - 1]));
        lemma_without_separators_code(s.drop_last());
        assert(s.drop_last().push(s.last()) =~= s);
    }
}

proof fn lemma_trim_unchanged(s: Seq<char>)
    requires
        s.len() > 0,
        !is_ws(s[0]),
        !is_ws(s.last()),
    ensures
        trim(s) == s,
{
    assert(trim_start(s) == s);
    assert(trim_end(s) == s);
}

/// Every character of `m` is a separator.
pub open spec fn all_separators(m: Seq<char>) -> bool {
    forall|i: int| 0 <= i < m.len() ==> is_separator(#[trigger] m[i])
}

proof fn lemma_without_all_separators(m: Seq<char>)
    requires
        all_separators(m),
    ensures
        without_separators(m) == Seq::<char>::empty(),
    decreases m.len(),
{
    if m.len() > 0 {
        assert(is_separator(m[m.len() - 1]));
        lemma_without_all_separators(m.drop_last());
        assert(without_separators(m) =~= Seq::<char>::empty());
    }
}

/// A share key made of a valid room id and join key, with any run of
/// separators between them (`-` as `compose_share_key` writes it, `:`,
/// `_`, a space, or none), is read back by `parse_share_key` as that room
/// id and join key; so is the same key with a space before and after it.
pub proof fn law_share_key_round_trip(room: Seq<char>, join: Seq<char>, mid: Seq<char>)
    requires
        valid_code(room, ROOM_ID_LEN as nat),
        valid_code(join, JOIN_KEY_LEN as nat),
        all_separators(mid),
    ensures
        parse_share_key_spec(room + mid + join) == Ok::<(Seq<char>, Seq<char>), ShareKeyError>(
            (room, join),
        ),
        parse_share_key_spec(seq![' '] + room + mid + join + seq![' ']) == Ok::<
            (Seq<char>, Seq<char>),
            ShareKeyError,
        >((room, join)),
{
    lemma_alphabet_chars();
    let key = room + mid + join;
    assert(key[0] == room[0]);
    assert(share_alphabet().contains(room[0]));
    assert(key.last() == join.last());
    assert(share_alphabet().contains(join[join.len() - 1]));
    lemma_trim_unchanged(key);
    lemma_without_separators_concat(room + mid, join);
    lemma_without_separators_concat(room, mid);
    lemma_without_separators_code(room);
    lemma_without_separators_code(join);
    lemma_without_all_separators(mid);
    let n = without_separators(key);
    assert(n =~= room + join);
    assert(n.take(ROOM_ID_LEN as int) =~= room);
    assert(n.skip(ROOM_ID_LEN as int) =~= join);
    let p = seq![' '] + key + seq![' '];
    assert(is_ws(' '));
    assert(p.drop_first() =~= key + seq![' ']);
    assert(trim_start(p) == trim_start(key + seq![' ']));
    assert((key + seq![' '])[0] == key[0]);
    assert(trim_start(key + seq![' ']) == key + seq![' ']);
    assert((key + seq![' ']).drop_last() =~= key);
    assert(trim_end(key + seq![' ']) == trim_end(key));
    assert(trim_end(key) == key);
    assert(trim(p) == key);
    assert(seq![' '] + room + mid + join + seq![' '] =~= p);
}

// ---------------------------------------------------------------------------
// Local relay address
// ---------------------------------------------------------------------------

/// Why a relay URL cannot be served by a local relay.
#[derive(Clone, Copy, Debug, PartialEq, Eq, Structural)]
pub enum RelayUrlError {
    /// `wss://` is not supported for a local relay.
    SecureScheme,
    /// The URL does not start with `ws://`.
    NotWebSocket,
    /// There is no `host:port` after the scheme.
    MissingHostPort,
}

/// The `host:port` part of `ws://host:port/...`, trimmed, with a leading
/// `localhost:` mapped to `127.0.0.1:`.
pub open spec fn relay_host_port(url: Seq<char>) -> Seq<char> {
    let rest = url.skip(5);
    let first = match find_char_from(rest, '/', 0) {
        Some(j) => rest.take(j),
        None => rest,
    };
    let hp = trim(first);
    if hp.len() >= 10 && hp.take(10) == "localhost:"@ {
        "127.0.0.1:"@ + hp.skip(10)
    } else {
        hp
    }
}

/// The candidate listen address of a local relay for a `ws://` relay URL;
/// whether it is a socket address is for the caller to check.
pub open spec fn relay_listen_spec(url: Seq<char>) -> Result<Seq<char>, RelayUrlError> {
    let u = trim(url);
    if u.len() >= 6 && u.take(6) == "wss://"@ {
        Err(RelayUrlError::SecureScheme)
    } else if !(u.len() >= 5 && u.take(5) == "ws://"@) {
        Err(RelayUrlError::NotWebSocket)
    } else if relay_host_port(u).len() == 0 {
        Err(RelayUrlError::MissingHostPort)
    } else {
        Ok(relay_host_port(u))
    }
}

fn has_prefix(v: &Vec<char>, p: &str) -> (b: bool)
    ensures
        b == (v@.len() >= p@.len() && v@.take(p@.len() as int) == p@),
{
    let pv = chars_of(p);
    if pv.len() > v.len() {
        return false;
    }
    let r = crate::text::occurs_at_exec(v, &pv, 0);
    assert(v@.subrange(0, pv@.len() as int) =~= v@.take(pv@.len() as int));
    r
}

/// The `host:port` a local relay should listen on to serve `url`, before
/// it is checked to be a socket address.
pub fn relay_listen_candidate(url: &str) -> (r: Result<String, RelayUrlError>)
    ensures
        match r {
            Ok(a) => relay_listen_spec(url@) == Ok::<Seq<char>, RelayUrlError>(a@),
            Err(e) => relay_listen_spec(url@) == Err::<Seq<char>, RelayUrlError>(e),
        },
{
    let raw = chars_of(url);
    let (a0, b0) = trim_bounds(&raw, 0, raw.len());
    assert(raw@.subrange(0, raw@.len() as int) == raw@);
    let u = chars_of(string_from_range(&raw, a0, b0).as_str());
    proof {
        reveal_strlit("wss://");
        reveal_strlit("ws://");
        reveal_strlit("localhost:");
        reveal_strlit("127.0.0.1:");
    }
    if has_prefix(&u, "wss://") {
        return Err(RelayUrlError::SecureScheme);
    }
    if !has_prefix(&u, "ws://") {
        return Err(RelayUrlError::NotWebSocket);
    }
    let mut rest: Vec<char> = Vec::new();
    let mut i: usize = 5;
    while i < u.len()
        invariant
            5 <= i <= u@.len(),
            rest@ == u@.subrange(5, i as int),
        decreases u@.len() - i,
    {
        rest.push(u[i]);
        assert(rest@ =~= u@.subrange(5, i + 1));
        i += 1;
    }
    assert(rest@ =~= u@.skip(5));
    proof {
        lemma_find_char_from_bounds(rest@, '/', 0);
    }
    let end = match find_char_from_exec(&rest, '/', 0) {
        Some(j) => j,
        None => rest.len(),
    };
    assert(rest@.subrange(0, end as int) =~= match find_char_from(rest@, '/', 0) {
        Some(j) => rest@.take(j),
        None => rest@,
    });
    let (ha, hb) = trim_bounds(&rest, 0, end);
    let hp = chars_of(string_from_range(&rest, ha, hb).as_str());
    let out = if has_prefix(&hp, "localhost:") {
        let mut s = String::new();
        push_str(&mut s, "127.0.0.1:");
        crate::text::push_range(&mut s, &hp, 10, hp.len());
        assert(hp@.subrange(10, hp@.len() as int) =~= hp@.skip(10));
        s
    } else {
        string_from_chars(&hp)
    };
    if out.as_str().is_empty() {
        return Err(RelayUrlError::MissingHostPort);
    }
    Ok(out)
}

/// The control state of a terminal this app shares: the room, the viewer
/// in control (if any), whether a viewer asked for control, and the number
/// of the next frame sent.
#[derive(Clone, Debug, PartialEq, Eq)]
pub struct HostControl {
    pub room_id: String,
    pub controller_id: Option<String>,
    pub pending_request: bool,
    pub seq: u64,
}

/// Takes control back from any viewer and drops the pending request.
pub fn clear_host_control_state(host: &mut HostControl)
    ensures
        final(host).controller_id is None,
        !final(host).pending_request,
        final(host).room_id == old(host).room_id,
        final(host).seq == old(host).seq,
{
    host.controller_id = None;
    host.pending_request = false;
}

/// Whether copy and paste work in a terminal: always in a local one; in a
/// shared terminal watched from here, only while this viewer has control.
pub fn viewer_can_copy_paste(is_remote: bool, controlled: bool) -> (r: bool)
    ensures
        r == (!is_remote || controlled),
{
    !is_remote || controlled
}

/// The environment variable that names the relay to use.
pub const RELAY_URL_ENV: &'static str = "TERMUA_RELAY_URL";

/// The relay terminal sharing connects to: the configured one when it is
/// set and not blank (trimmed), else the one the environment names, else
/// the default local relay.
pub open spec fn effective_relay(configured: Option<Seq<char>>, from_env: Option<Seq<char>>) -> Seq<char> {
    match configured {
        Some(c) if trim(c).len() > 0 => trim(c),
        _ => match from_env {
            Some(e) => e,
            None => DEFAULT_RELAY_URL@,
        },
    }
}

/// The relay terminal sharing connects to, from the configured relay and
/// the value of `TERMUA_RELAY_URL` (see `effective_relay`).
pub fn effective_relay_url(configured: Option<&str>, from_env: Option<&str>) -> (url: String)
    ensures
        url@ == effective_relay(
            match configured {
                Some(c) => Some(c@),
                None => None,
            },
            match from_env {
                Some(e) => Some(e@),
                None => None,
            },
        ),
{
    if let Some(c) = configured {
        let t = trim_string(c);
        if !t.as_str().is_empty() {
            return t;
        }
    }
    let mut url = String::new();
    match from_env {
        Some(e) => push_str(&mut url, e),
        None => push_str(&mut url, DEFAULT_RELAY_URL),
    }
    url
}

/// The arguments that start this program as a local relay listening on
/// `listen_addr`.
pub fn local_relay_args(listen_addr: &str) -> (args: Vec<String>)
    ensures
        args@.len() == 3,
        args@[0]@ == "--run-relay"@,
        args@[1]@ == "--listen"@,
        args@[2]@ == listen_addr@,
{
    let mut a = String::new();
    push_str(&mut a, "--run-relay");
    let mut b = String::new();
    push_str(&mut b, "--listen");
    let mut c = String::new();
    push_str(&mut c, listen_addr);
    let mut args: Vec<String> = Vec::new();
    args.push(a);
    args.push(b);
    args.push(c);
    args
}

} // verus!

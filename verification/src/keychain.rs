//! How secrets are named in the system credential manager: the account
//! name, the storage target, the human-readable label and the lookup
//! attributes of each kind of secret.
use vstd::prelude::*;

use crate::text::{i64_to_dec, int_to_dec, push_str};

verus! {

/// The service name every stored secret is filed under.
pub const TERMUA_SERVICE: &'static str = "termua";

/// A secret the application keeps in the credential manager.
#[derive(Clone, Debug, PartialEq, Eq)]
pub enum Secret {
    /// The password of a saved SSH session.
    SshPassword { session_id: i64 },
    /// Any other secret, filed by kind and key.
    Named { kind: String, key: String },
}

/// The account name of a secret.
pub open spec fn account_text(s: Secret) -> Seq<char> {
    match s {
        Secret::SshPassword { session_id } => "ssh_password:"@ + int_to_dec(session_id as int),
        Secret::Named { kind, key } => kind@ + ":"@ + key@,
    }
}

/// The label a secret is shown under.
pub open spec fn label_text(s: Secret) -> Seq<char> {
    match s {
        Secret::SshPassword { session_id } => "termua ssh password (session "@ + int_to_dec(
            session_id as int,
        ) + ")"@,
        Secret::Named { kind, key } => "termua secret ("@ + kind@ + ":"@ + key@ + ")"@,
    }
}

/// The storage target of a secret: the service name, a colon and the account.
pub open spec fn storage_target_text(s: Secret) -> Seq<char> {
    TERMUA_SERVICE@ + ":"@ + account_text(s)
}

/// The lookup attributes of a secret, as (name, value) pairs.
pub open spec fn attribute_pairs(s: Secret) -> Seq<(Seq<char>, Seq<char>)> {
    match s {
        Secret::SshPassword { session_id } => seq![
            ("app"@, TERMUA_SERVICE@),
            ("kind"@, "ssh_password"@),
            ("session_id"@, int_to_dec(session_id as int)),
        ],
        Secret::Named { kind, key } => seq![
            ("app"@, TERMUA_SERVICE@),
            ("kind"@, kind@),
            ("key"@, key@),
        ],
    }
}

/// A string holding `t`.
fn owned(t: &str) -> (s: String)
    ensures
        s@ == t@,
{
    let mut s = String::new();
    push_str(&mut s, t);
    s
}

impl Secret {
    /// The password of session `session_id`.
    pub fn ssh_password(session_id: i64) -> (s: Self)
        ensures
            s == (Secret::SshPassword { session_id }),
    {
        Secret::SshPassword { session_id }
    }

    /// The secret of kind `kind` filed under `key`.
    pub fn named(kind: &str, key: &str) -> (s: Self)
        ensures
            s matches Secret::Named { kind: k, key: y } && k@ == kind@ && y@ == key@,
    {
        Secret::Named { kind: owned(kind), key: owned(key) }
    }

    /// `ssh_password:<id>` for a session password, `<kind>:<key>` otherwise.
    pub fn account_name(&self) -> (out: String)
        ensures
            out@ == account_text(*self),
    {
        match self {
            Secret::SshPassword { session_id } => {
                let mut out = owned("ssh_password:");
                let digits = i64_to_dec(*session_id);
                push_str(&mut out, digits.as_str());
                out
            },
            Secret::Named { kind, key } => {
                let mut out = owned(kind.as_str());
                push_str(&mut out, ":");
                push_str(&mut out, key.as_str());
                out
            },
        }
    }

    /// The label shown in the credential manager.
    pub fn label(&self) -> (out: String)
        ensures
            out@ == label_text(*self),
    {
        match self {
            Secret::SshPassword { session_id } => {
                let mut out = owned("termua ssh password (session ");
                let digits = i64_to_dec(*session_id);
                push_str(&mut out, digits.as_str());
                push_str(&mut out, ")");
                out
            },
            Secret::Named { kind, key } => {
                let mut out = owned("termua secret (");
                push_str(&mut out, kind.as_str());
                push_str(&mut out, ":");
                push_str(&mut out, key.as_str());
                push_str(&mut out, ")");
                out
            },
        }
    }

    /// `termua:<account name>`.
    pub fn storage_target(&self) -> (out: String)
        ensures
            out@ == storage_target_text(*self),
    {
        let mut out = owned(TERMUA_SERVICE);
        push_str(&mut out, ":");
        let account = self.account_name();
        push_str(&mut out, account.as_str());
        out
    }

    /// The attributes a secret is stored and searched under.
    pub fn attributes(&self) -> (out: Vec<(String, String)>)
        ensures
            out@.len() == attribute_pairs(*self).len(),
            forall|i: int|
                0 <= i < out@.len() ==> (#[trigger] out@[i]).0@ == attribute_pairs(*self)[i].0
                    && out@[i].1@ == attribute_pairs(*self)[i].1,
    {
        let mut out: Vec<(String, String)> = Vec::new();
        out.push((owned("app"), owned(TERMUA_SERVICE)));
        match self {
            Secret::SshPassword { session_id } => {
                out.push((owned("kind"), owned("ssh_password")));
                out.push((owned("session_id"), i64_to_dec(*session_id)));
            },
            Secret::Named { kind, key } => {
                out.push((owned("kind"), owned(kind.as_str())));
                out.push((owned("key"), owned(key.as_str())));
            },
        }
        out
    }
}

/// The secret holding the password of SSH session `session_id`.
pub fn ssh_password_secret(session_id: i64) -> (s: Secret)
    ensures
        s == (Secret::SshPassword { session_id }),
{
    Secret::ssh_password(session_id)
}

/// The secret holding the assistant's API key.
pub fn zeroclaw_api_key_secret() -> (s: Secret)
    ensures
        s matches Secret::Named { kind, key } && kind@ == "zeroclaw_api_key"@ && key@
            == "default"@,
{
    Secret::named("zeroclaw_api_key", "default")
}

/// Which stored item a lookup reads when the credential manager returns
/// `unlocked` unlocked and `locked` locked matches: the first unlocked one,
/// else the first locked one, else none.  `Some((true, 0))` names the first
/// unlocked item, `Some((false, 0))` the first locked one.
pub fn pick_stored_item(unlocked: usize, locked: usize) -> (pick: Option<(bool, usize)>)
    ensures
        unlocked > 0 ==> pick == Some((true, 0usize)),
        unlocked == 0 && locked > 0 ==> pick == Some((false, 0usize)),
        unlocked == 0 && locked == 0 ==> pick is None,
{
    if unlocked > 0 {
        Some((true, 0))
    } else if locked > 0 {
        Some((false, 0))
    } else {
        None
    }
}

/// `k1:y1` and `k2:y2` agree only when both parts agree, for kinds free of colons.
proof fn lemma_colon_split(k1: Seq<char>, y1: Seq<char>, k2: Seq<char>, y2: Seq<char>)
    requires
        !k1.contains(':'),
        !k2.contains(':'),
        k1 + ":"@ + y1 == k2 + ":"@ + y2,
    ensures
        k1 == k2,
        y1 == y2,
{
    reveal_strlit(":");
    let s = k1 + ":"@ + y1;
    if k1.len() < k2.len() {
        assert(s[k1.len() as int] == ':');
        assert(s[k1.len() as int] == k2[k1.len() as int]);
        assert(k2.contains(':'));
    } else if k2.len() < k1.len() {
        assert(s[k2.len() as int] == ':');
        assert(s[k2.len() as int] == k1[k2.len() as int]);
        assert(k1.contains(':'));
    }
    assert(k1 =~= s.subrange(0, k1.len() as int));
    assert(k2 =~= s.subrange(0, k2.len() as int));
    assert(y1 =~= s.skip(k1.len() as int + 1));
    assert(y2 =~= s.skip(k2.len() as int + 1));
}

/// The account name determines the secret: two secrets filed under one
/// account name are the same secret, as long as named secrets keep colons
/// out of their kind and do not use the kind `ssh_password`.  So no secret
/// can be read or overwritten through another.
pub proof fn law_account_name_determines_secret(a: Secret, b: Secret)
    requires
        a matches Secret::Named { kind, .. } ==> !kind@.contains(':') && kind@ != "ssh_password"@,
        b matches Secret::Named { kind, .. } ==> !kind@.contains(':') && kind@ != "ssh_password"@,
        account_text(a) == account_text(b),
    ensures
        match (a, b) {
            (Secret::SshPassword { session_id: x }, Secret::SshPassword { session_id: y }) => x == y,
            (Secret::Named { kind: k1, key: y1 }, Secret::Named { kind: k2, key: y2 }) => k1@ == k2@
                && y1@ == y2@,
            _ => false,
        },
{
    reveal_strlit("ssh_password:");
    reveal_strlit("ssh_password");
    reveal_strlit(":");
    assert("ssh_password:"@ =~= "ssh_password"@ + ":"@);
    match (a, b) {
        (Secret::SshPassword { session_id: x }, Secret::SshPassword { session_id: y }) => {
            assert(int_to_dec(x as int) =~= account_text(a).skip(13));
            assert(int_to_dec(y as int) =~= account_text(b).skip(13));
            crate::text::lemma_int_to_dec_injective(x as int, y as int);
        },
        (Secret::Named { kind: k1, key: y1 }, Secret::Named { kind: k2, key: y2 }) => {
            lemma_colon_split(k1@, y1@, k2@, y2@);
        },
        (Secret::SshPassword { session_id: x }, Secret::Named { kind: k2, key: y2 }) => {
            assert(!"ssh_password"@.contains(':'));
            lemma_colon_split("ssh_password"@, int_to_dec(x as int), k2@, y2@);
        },
        (Secret::Named { kind: k1, key: y1 }, Secret::SshPassword { session_id: y }) => {
            assert(!"ssh_password"@.contains(':'));
            lemma_colon_split(k1@, y1@, "ssh_password"@, int_to_dec(y as int));
        },
    }
}

} // verus!

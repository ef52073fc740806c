//! The environment a terminal starts with.
use vstd::prelude::*;

use crate::store::{
    apply_env, env_model, upsert_session_env_var, upsert_spec, SessionEnvVar,
};
use crate::text::{contains, push_str, str_contains, trim, trim_string, upper_seq, uppercase_string};

verus! {

/// The variable that turns the application into a cast player.
pub const CAST_PLAYER_ENV_MODE: &'static str = "TERMUA_CAST_PLAYER";

/// The variable naming the cast file to play.
pub const CAST_PLAYER_ENV_PATH: &'static str = "TERMUA_CAST_PLAYER_PATH";

/// The variable holding the playback speed.
pub const CAST_PLAYER_ENV_SPEED: &'static str = "TERMUA_CAST_PLAYER_SPEED";

/// The locale a charset selects: UTF-8 for a charset naming UTF-8, `C` for
/// one naming ASCII, none otherwise.
pub open spec fn charset_locale(charset: Seq<char>) -> Option<Seq<char>> {
    let c = upper_seq(trim(charset));
    if contains(c, "UTF-8"@) || contains(c, "UTF8"@) {
        Some("en_US.UTF-8"@)
    } else if contains(c, "ASCII"@) {
        Some("C"@)
    } else {
        None
    }
}

/// The environment of a terminal, as (name, value) pairs: the shell, the
/// terminal type, a colour capability and a locale from the charset, each
/// when given and not blank, then the session's own variables over them.
pub open spec fn terminal_env(
    shell: Seq<char>,
    term: Seq<char>,
    colorterm: Option<Seq<char>>,
    charset: Seq<char>,
    vars: Seq<SessionEnvVar>,
) -> Seq<(Seq<char>, Seq<char>)> {
    let m0: Seq<(Seq<char>, Seq<char>)> = seq![];
    let m1 = if trim(shell).len() > 0 {
        upsert_spec(upsert_spec(m0, "SHELL"@, trim(shell)), "TERMUA_SHELL"@, trim(shell))
    } else {
        m0
    };
    let m2 = if trim(term).len() > 0 {
        upsert_spec(m1, "TERM"@, trim(term))
    } else {
        m1
    };
    let m3 = match colorterm {
        Some(c) => if trim(c).len() > 0 {
            upsert_spec(m2, "COLORTERM"@, trim(c))
        } else {
            m2
        },
        None => m2,
    };
    let m4 = match charset_locale(charset) {
        Some(l) => upsert_spec(upsert_spec(m3, "LANG"@, l), "LC_CTYPE"@, l),
        None => m3,
    };
    apply_env(m4, vars)
}

/// A string holding `t`.
fn owned(t: &str) -> (s: String)
    ensures
        s@ == t@,
{
    let mut s = String::new();
    push_str(&mut s, t);
    s
}

/// Builds the environment of a terminal.
pub fn build_terminal_env(
    shell_program: &str,
    term: &str,
    colorterm: Option<&str>,
    charset: &str,
    env_vars: &[SessionEnvVar],
) -> (env: Vec<SessionEnvVar>)
    ensures
        env_model(env@) == terminal_env(
            shell_program@,
            term@,
            match colorterm {
                Some(c) => Some(c@),
                None => None,
            },
            charset@,
            env_vars@,
        ),
{
    let mut env: Vec<SessionEnvVar> = Vec::new();
    assert(env_model(env@) =~= Seq::<(Seq<char>, Seq<char>)>::empty());
    let shell = trim_string(shell_program);
    if !shell.as_str().is_empty() {
        upsert_session_env_var(&mut env, "SHELL", owned(shell.as_str()));
        upsert_session_env_var(&mut env, "TERMUA_SHELL", owned(shell.as_str()));
    }
    let t = trim_string(term);
    if !t.as_str().is_empty() {
        upsert_session_env_var(&mut env, "TERM", t);
    }
    match colorterm {
        Some(c) => {
            let ct = trim_string(c);
            if !ct.as_str().is_empty() {
                upsert_session_env_var(&mut env, "COLORTERM", ct);
            }
        },
        None => {},
    }
    let cs = trim_string(charset);
    let upper = uppercase_string(cs.as_str());
    if str_contains(upper.as_str(), "UTF-8") || str_contains(upper.as_str(), "UTF8") {
        upsert_session_env_var(&mut env, "LANG", owned("en_US.UTF-8"));
        upsert_session_env_var(&mut env, "LC_CTYPE", owned("en_US.UTF-8"));
    } else if str_contains(upper.as_str(), "ASCII") {
        upsert_session_env_var(&mut env, "LANG", owned("C"));
        upsert_session_env_var(&mut env, "LC_CTYPE", owned("C"));
    }
    let ghost base = env_model(env@);
    let mut i: usize = 0;
    while i < env_vars.len()
        invariant
            0 <= i <= env_vars@.len(),
            env_model(env@) == apply_env(base, env_vars@.subrange(0, i as int)),
        decreases env_vars@.len() - i,
    {
        assert(env_vars@.subrange(0, i + 1).drop_last() =~= env_vars@.subrange(0, i as int));
        let name = trim_string(env_vars[i].name.as_str());
        if !name.as_str().is_empty() {
            let value = env_vars[i].value.clone();
            upsert_session_env_var(&mut env, name.as_str(), value);
        }
        i += 1;
    }
    assert(env_vars@.subrange(0, env_vars@.len() as int) =~= env_vars@);
    env
}

/// The environment of a terminal that plays a recorded cast: player mode
/// on, the cast's path, the playback speed when there is one, and the
/// program to run (`termua` when the running executable is unknown).
pub fn cast_player_child_env(
    cast_path: &str,
    playback_speed: Option<&str>,
    executable_path: Option<&str>,
) -> (env: Vec<SessionEnvVar>)
    ensures
        ({
            let m1 = upsert_spec(
                upsert_spec(seq![], CAST_PLAYER_ENV_MODE@, "1"@),
                CAST_PLAYER_ENV_PATH@,
                cast_path@,
            );
            let m2 = match playback_speed {
                Some(s) => upsert_spec(m1, CAST_PLAYER_ENV_SPEED@, s@),
                None => m1,
            };
            env_model(env@) == upsert_spec(
                m2,
                "TERMUA_SHELL"@,
                match executable_path {
                    Some(p) => p@,
                    None => "termua"@,
                },
            )
        }),
{
    let mut env: Vec<SessionEnvVar> = Vec::new();
    assert(env_model(env@) =~= Seq::<(Seq<char>, Seq<char>)>::empty());
    upsert_session_env_var(&mut env, CAST_PLAYER_ENV_MODE, owned("1"));
    upsert_session_env_var(&mut env, CAST_PLAYER_ENV_PATH, owned(cast_path));
    match playback_speed {
        Some(s) => upsert_session_env_var(&mut env, CAST_PLAYER_ENV_SPEED, owned(s)),
        None => {},
    }
    let program = match executable_path {
        Some(p) => owned(p),
        None => owned("termua"),
    };
    upsert_session_env_var(&mut env, "TERMUA_SHELL", program);
    env
}

} // verus!

//! Recognising the shell a local terminal runs, from its program path.
use vstd::prelude::*;

use crate::text::{chars_of, trim, trim_bounds};

verus! {

/// The index of the last `/` before `e`, or -1.
pub open spec fn last_slash_before(s: Seq<char>, e: int) -> int
    decreases e,
{
    if e <= 0 {
        -1
    } else if s[e - 1] == '/' {
        e - 1
    } else {
        last_slash_before(s, e - 1)
    }
}

/// The last `/` before `e` lies before `e`, and none follows it there.
pub proof fn lemma_last_slash_before(s: Seq<char>, e: int)
    requires
        e <= s.len(),
    ensures
        -1 <= last_slash_before(s, e) < e || (e <= 0 && last_slash_before(s, e) == -1),
        last_slash_before(s, e) >= 0 ==> s[last_slash_before(s, e)] == '/',
        forall|k: int| last_slash_before(s, e) < k < e ==> s[k] != '/',
    decreases e,
{
    if e > 0 && s[e - 1] != '/' {
        lemma_last_slash_before(s, e - 1);
    }
}

/// The final component of the path `s[0..e]`, as the bounds of that
/// component, the way `Path::file_name` reads a Unix path: empty and `.`
/// components are skipped, and a path that ends in `..` (or has no
/// component) has none.
pub open spec fn file_name_upto(s: Seq<char>, e: int) -> Option<(int, int)>
    decreases e,
{
    if e <= 0 || e > s.len() {
        None
    } else {
        let j = last_slash_before(s, e);
        proof {
            lemma_last_slash_before(s, e);
        }
        let seg = s.subrange(j + 1, e);
        if seg.len() == 0 || seg == seq!['.'] {
            if j < 0 {
                None
            } else {
                file_name_upto(s, j)
            }
        } else if seg == seq!['.', '.'] {
            None
        } else {
            Some((j + 1, e))
        }
    }
}

/// The file name of a path, or the path itself when it has none.
pub open spec fn base_name(p: Seq<char>) -> Seq<char> {
    match file_name_upto(p, p.len() as int) {
        Some((a, b)) => p.subrange(a, b),
        None => p,
    }
}

/// Whether a shell program runs PowerShell 7: its trimmed path is non-blank
/// and its file name is `pwsh`.
pub open spec fn pwsh_program(program: Seq<char>) -> bool {
    let p = trim(program);
    p.len() > 0 && base_name(p) == seq!['p', 'w', 's', 'h']
}

/// Bounds of the file name of `v[a..e]` (absolute indices), as
/// `file_name_upto` gives them for that slice.
fn file_name_bounds(v: &Vec<char>, a: usize, e: usize) -> (r: Option<(usize, usize)>)
    requires
        a <= e <= v@.len(),
    ensures
        match file_name_upto(v@.subrange(a as int, e as int), (e - a) as int) {
            Some((x, y)) => r == Some(((x + a) as usize, (y + a) as usize)),
            None => r is None,
        },
    decreases e - a,
{
    let ghost s = v@.subrange(a as int, e as int);
    if e == a {
        return None;
    }
    let mut j: usize = e;
    while j > a && v[j - 1] != '/'
        invariant
            a <= j <= e <= v@.len(),
            forall|k: int| j <= k < e ==> v@[k] != '/',
        decreases j - a,
    {
        j -= 1;
    }
    proof {
        lemma_last_slash_before(s, (e - a) as int);
        let ls = last_slash_before(s, (e - a) as int);
        if j > a {
            assert(s[j - 1 - a] == '/');
            assert forall|k: int| j - a <= k < e - a implies s[k] != '/' by {
                assert(s[k] == v@[k + a]);
            }
            assert(ls == j - 1 - a);
        } else {
            assert forall|k: int| 0 <= k < e - a implies s[k] != '/' by {
                assert(s[k] == v@[k + a]);
            }
            assert(ls == -1);
        }
    }
    let start = j;
    let len = e - start;
    let is_dot = len == 1 && v[start] == '.';
    let is_dotdot = len == 2 && v[start] == '.' && v[start + 1] == '.';
    proof {
        let ls = last_slash_before(s, (e - a) as int);
        let seg = s.subrange(ls + 1, (e - a) as int);
        assert(seg =~= v@.subrange(start as int, e as int));
        if len == 1 {
            assert(is_dot ==> seg =~= seq!['.']);
            assert(seg == seq!['.'] ==> seg[0] == '.');
        }
        if len == 2 {
            assert(is_dotdot ==> seg =~= seq!['.', '.']);
            assert(seg == seq!['.', '.'] ==> seg[0] == '.' && seg[1] == '.');
        }
        assert(is_dot <==> seg == seq!['.']);
        assert(is_dotdot <==> seg == seq!['.', '.']);
    }
    if len == 0 || is_dot {
        if j == a {
            return None;
        }
        let r = file_name_bounds(v, a, j - 1);
        proof {
            assert(v@.subrange(a as int, (j - 1) as int) =~= s.subrange(0, (j - 1 - a) as int));
            lemma_file_name_prefix(s, (j - 1 - a) as int);
        }
        r
    } else if is_dotdot {
        None
    } else {
        Some((start, e))
    }
}

/// A file name lies within the path it is read from.
proof fn lemma_file_name_within(s: Seq<char>, e: int)
    requires
        0 <= e <= s.len(),
    ensures
        file_name_upto(s, e) matches Some((x, y)) ==> 0 <= x < y <= e,
    decreases e,
{
    if e > 0 {
        lemma_last_slash_before(s, e);
        let j = last_slash_before(s, e);
        if j >= 0 {
            lemma_file_name_within(s, j);
        }
    }
}

/// The file name of a prefix is read from that prefix alone.
proof fn lemma_file_name_prefix(s: Seq<char>, e: int)
    requires
        0 <= e <= s.len(),
    ensures
        file_name_upto(s.subrange(0, e), e) == file_name_upto(s, e),
    decreases e,
{
    let t = s.subrange(0, e);
    if e > 0 {
        lemma_last_slash_prefix(s, e, e);
        lemma_last_slash_before(s, e);
        let j = last_slash_before(s, e);
        assert(t.subrange(j + 1, e) =~= s.subrange(j + 1, e));
        if j >= 0 {
            lemma_file_name_prefix(s, j);
            assert(t.subrange(0, j) =~= s.subrange(0, j));
            lemma_file_name_prefix(t, j);
        }
    }
}

proof fn lemma_last_slash_prefix(s: Seq<char>, n: int, e: int)
    requires
        0 <= e <= n <= s.len(),
    ensures
        last_slash_before(s.subrange(0, n), e) == last_slash_before(s, e),
    decreases e,
{
    if e > 0 {
        lemma_last_slash_prefix(s, n, e - 1);
    }
}

/// Whether `program` runs PowerShell 7 (`pwsh`), judged by its file name.
pub fn is_pwsh_program(program: &str) -> (r: bool)
    ensures
        r == pwsh_program(program@),
{
    let v = chars_of(program);
    let (a, b) = trim_bounds(&v, 0, v.len());
    assert(v@.subrange(0, v@.len() as int) == v@);
    if a == b {
        return false;
    }
    let ghost p = v@.subrange(a as int, b as int);
    let fb = file_name_bounds(&v, a, b);
    let (x, y) = match fb {
        Some(r) => r,
        None => (a, b),
    };
    proof {
        assert(p.len() == b - a);
        match file_name_upto(p, p.len() as int) {
            Some((x1, y1)) => {
                lemma_file_name_within(p, p.len() as int);
                assert(x == x1 + a && y == y1 + a);
                assert(v@.subrange(x as int, y as int) =~= p.subrange(x1, y1));
            },
            None => {
                assert(v@.subrange(x as int, y as int) =~= p);
            },
        }
    }
    let ghost name = base_name(p);
    assert(v@.subrange(x as int, y as int) == name);
    let r = y - x == 4 && v[x] == 'p' && v[x + 1] == 'w' && v[x + 2] == 's' && v[x + 3] == 'h';
    proof {
        if r {
            assert(name =~= seq!['p', 'w', 's', 'h']);
        }
        if name == seq!['p', 'w', 's', 'h'] {
            assert(name.len() == 4 && name[0] == 'p' && name[1] == 'w' && name[2] == 's' && name[3] == 'h');
        }
    }
    r
}

} // verus!

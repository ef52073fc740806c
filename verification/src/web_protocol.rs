//! The wire protocol of the web terminal: the text messages, the binary
//! screen frames, and which shared terminal an HTTP request is for.
use vstd::prelude::*;

use crate::text::{chars_of, is_ws, lines, lines_of, push_str, str_eq, string_from_range, views};

verus! {

/// The message telling a web client whether it may type.
pub fn access_message_text(control: bool) -> (m: String)
    ensures
        m@ == "{\"type\":\"access\",\"control\":"@ + (if control {
            "true"@
        } else {
            "false"@
        }) + "}"@,
{
    let mut m = String::new();
    push_str(&mut m, "{\"type\":\"access\",\"control\":");
    if control {
        push_str(&mut m, "true");
    } else {
        push_str(&mut m, "false");
    }
    push_str(&mut m, "}");
    m
}

/// The message telling a web client what became of its control request.
pub fn control_request_message_text(status: &str) -> (m: String)
    ensures
        m@ == "{\"type\":\"control_request\",\"status\":\""@ + status@ + "\"}"@,
{
    let mut m = String::new();
    push_str(&mut m, "{\"type\":\"control_request\",\"status\":\"");
    push_str(&mut m, status);
    push_str(&mut m, "\"}");
    m
}

/// A 32-bit number, most significant byte first.
pub open spec fn be32(x: nat) -> Seq<u8>
    recommends
        x < 0x1_0000_0000,
{
    seq![
        (x / 0x100_0000) as u8,
        ((x / 0x1_0000) % 0x100) as u8,
        ((x / 0x100) % 0x100) as u8,
        (x % 0x100) as u8,
    ]
}

/// The line number sent for a row: its number when it fits in 32 bits, else 0.
pub open spec fn line_number_field(n: Option<i64>) -> nat {
    match n {
        Some(v) => if 0 <= v < 0x1_0000_0000 {
            v as nat
        } else {
            0
        },
        None => 0,
    }
}

/// A selection coordinate, capped at the largest 32-bit number.
pub open spec fn capped(v: usize) -> nat {
    if v < 0x1_0000_0000 {
        v as nat
    } else {
        0xFFFF_FFFF
    }
}

/// The line numbers of the rows, each as four bytes.
pub open spec fn line_number_bytes(ns: Seq<Option<i64>>) -> Seq<u8>
    decreases ns.len(),
{
    if ns.len() == 0 {
        seq![]
    } else {
        line_number_bytes(ns.drop_last()) + be32(line_number_field(ns.last()))
    }
}

/// A screen frame: its kind, the screen's columns and rows (their low 32
/// bits), each row's line number, the selection's column, row and length
/// (none selected counts as zeros), then the screen's contents.
pub open spec fn screen_frame_bytes(
    kind: u8,
    columns: usize,
    rows: usize,
    line_numbers: Seq<Option<i64>>,
    selection: Option<(usize, usize, usize)>,
    ansi: Seq<u8>,
) -> Seq<u8> {
    let (sc, sr, sl) = match selection {
        Some(s) => s,
        None => (0usize, 0usize, 0usize),
    };
    seq![kind] + be32(columns as nat % 0x1_0000_0000) + be32(rows as nat % 0x1_0000_0000)
        + line_number_bytes(line_numbers) + be32(capped(sc)) + be32(capped(sr)) + be32(capped(sl))
        + ansi
}

/// Appends `x` as four bytes, most significant first.
fn push_be32(out: &mut Vec<u8>, x: u64)
    requires
        x < 0x1_0000_0000,
    ensures
        final(out)@ == old(out)@ + be32(x as nat),
{
    out.push((x / 0x100_0000) as u8);
    out.push(((x / 0x1_0000) % 0x100) as u8);
    out.push(((x / 0x100) % 0x100) as u8);
    out.push((x % 0x100) as u8);
    assert(final(out)@ =~= old(out)@ + be32(x as nat));
}

/// Frames a screen for the web client.
pub fn screen_frame(
    kind: u8,
    columns: usize,
    rows: usize,
    line_numbers: &Vec<Option<i64>>,
    selection: Option<(usize, usize, usize)>,
    ansi: Vec<u8>,
) -> (frame: Vec<u8>)
    ensures
        frame@ == screen_frame_bytes(kind, columns, rows, line_numbers@, selection, ansi@),
{
    let mut out: Vec<u8> = Vec::new();
    out.push(kind);
    push_be32(&mut out, (columns as u64) % 0x1_0000_0000);
    push_be32(&mut out, (rows as u64) % 0x1_0000_0000);
    let ghost head = out@;
    let mut i: usize = 0;
    assert(line_number_bytes(line_numbers@.take(0)) =~= Seq::<u8>::empty());
    while i < line_numbers.len()
        invariant
            0 <= i <= line_numbers@.len(),
            out@ == head + line_number_bytes(line_numbers@.take(i as int)),
        decreases line_numbers@.len() - i,
    {
        assert(line_numbers@.take(i + 1).drop_last() =~= line_numbers@.take(i as int));
        let n: u64 = match line_numbers[i] {
            Some(v) => if 0 <= v && v < 0x1_0000_0000 {
                v as u64
            } else {
                0
            },
            None => 0,
        };
        push_be32(&mut out, n);
        assert(out@ =~= head + line_number_bytes(line_numbers@.take(i + 1)));
        i += 1;
    }
    assert(line_numbers@.take(line_numbers@.len() as int) =~= line_numbers@);
    let (sc, sr, sl) = match selection {
        Some(s) => s,
        None => (0, 0, 0),
    };
    push_be32(&mut out, cap32(sc));
    push_be32(&mut out, cap32(sr));
    push_be32(&mut out, cap32(sl));
    let ghost before = out@;
    let mut rest = ansi;
    out.append(&mut rest);
    assert(out@ =~= screen_frame_bytes(kind, columns, rows, line_numbers@, selection, ansi@));
    out
}

/// `v`, capped at the largest 32-bit number.
fn cap32(v: usize) -> (r: u64)
    ensures
        r as nat == capped(v),
        r < 0x1_0000_0000,
{
    if (v as u64) < 0x1_0000_0000 {
        v as u64
    } else {
        0xFFFF_FFFF
    }
}

/// The whitespace-separated words of `s[i..]`.
pub open spec fn words_from(s: Seq<char>, i: int) -> Seq<Seq<char>>
    decreases s.len() - i,
{
    if i < 0 || i >= s.len() {
        seq![]
    } else if is_ws(s[i]) {
        words_from(s, i + 1)
    } else {
        proof {
            lemma_word_end(s, i + 1);
        }
        let e = word_end(s, i);
        seq![s.subrange(i, e)] + words_from(s, e)
    }
}

/// The end of the word starting at `i`.
pub open spec fn word_end(s: Seq<char>, i: int) -> int
    decreases s.len() - i,
{
    if i < 0 || i >= s.len() || is_ws(s[i]) {
        if i < 0 {
            0
        } else {
            i
        }
    } else {
        word_end(s, i + 1)
    }
}

/// A word ends at the first whitespace after its start, or at the end.
pub proof fn lemma_word_end(s: Seq<char>, i: int)
    requires
        0 <= i <= s.len(),
    ensures
        i <= word_end(s, i) <= s.len(),
        forall|k: int| i <= k < word_end(s, i) ==> !is_ws(#[trigger] s[k]),
        word_end(s, i) < s.len() ==> is_ws(s[word_end(s, i)]),
    decreases s.len() - i,
{
    if i < s.len() && !is_ws(s[i]) {
        lemma_word_end(s, i + 1);
    }
}

/// The path an HTTP request asks for: the second word of its first line.
pub open spec fn request_path_of(request: Seq<char>) -> Option<Seq<char>> {
    let ls = lines(request);
    if ls.len() == 0 {
        None
    } else {
        let ws = words_from(ls[0], 0);
        if ws.len() < 2 {
            None
        } else {
            Some(ws[1])
        }
    }
}

/// The position after `i`'s word, skipping whitespace, and the word.
fn next_word(v: &Vec<char>, i: usize) -> (r: Option<(usize, usize)>)
    requires
        i <= v@.len(),
    ensures
        match r {
            Some((a, b)) => {
                &&& i <= a < b <= v@.len()
                &&& words_from(v@, i as int).len() > 0
                &&& words_from(v@, i as int)[0] == v@.subrange(a as int, b as int)
                &&& words_from(v@, i as int).skip(1) == words_from(v@, b as int)
            },
            None => words_from(v@, i as int).len() == 0,
        },
{
    let mut a = i;
    while a < v.len() && crate::text::is_whitespace(v[a])
        invariant
            i <= a <= v@.len(),
            words_from(v@, i as int) == words_from(v@, a as int),
        decreases v@.len() - a,
    {
        a += 1;
    }
    if a == v.len() {
        return None;
    }
    let mut b = a;
    proof {
        lemma_word_end(v@, a as int);
    }
    while b < v.len() && !crate::text::is_whitespace(v[b])
        invariant
            a <= b <= v@.len(),
            word_end(v@, a as int) == word_end(v@, b as int),
        decreases v@.len() - b,
    {
        b += 1;
    }
    proof {
        assert(word_end(v@, b as int) == b);
        let ws = words_from(v@, a as int);
        assert(ws == seq![v@.subrange(a as int, b as int)] + words_from(v@, b as int));
        assert(ws.skip(1) =~= words_from(v@, b as int));
    }
    Some((a, b))
}

/// The path an HTTP request asks for.
pub fn request_path(request: &str) -> (r: Option<String>)
    ensures
        match r {
            Some(p) => request_path_of(request@) == Some(p@),
            None => request_path_of(request@) is None,
        },
{
    let ls = lines_of(request);
    if ls.len() == 0 {
        return None;
    }
    let v = chars_of(ls[0].as_str());
    assert(views(ls@)[0] == ls@[0]@);
    match next_word(&v, 0) {
        Some((_, b)) => match next_word(&v, b) {
            Some((c, d)) => {
                proof {
                    let ws = words_from(v@, 0);
                    assert(ws.skip(1)[0] == ws[1]);
                }
                Some(string_from_range(&v, c, d))
            },
            None => {
                proof {
                    let ws = words_from(v@, 0);
                    assert(ws.skip(1).len() == 0);
                }
                None
            },
        },
        None => None,
    }
}

/// The shared terminal a request path names: `/s/<id>` (with anything
/// after a further `/`) names terminal `<id>`.
pub open spec fn path_session_id(path: Seq<char>) -> Option<Seq<char>> {
    if path.len() >= 3 && path.take(3) == "/s/"@ {
        let rest = path.skip(3);
        match crate::text::find_char_from(rest, '/', 0) {
            Some(k) => Some(rest.take(k)),
            None => Some(rest),
        }
    } else {
        None
    }
}

/// Which of the shared terminals `session_ids` a request is for: the one
/// its path names; else, when only one terminal is shared, that one for
/// the root page and its socket (`/`, `/ws`); else none.
pub open spec fn routed(request: Seq<char>, session_ids: Seq<Seq<char>>, r: Option<usize>) -> bool {
    match request_path_of(request) {
        None => r is None,
        Some(path) => {
            let named = match path_session_id(path) {
                Some(id) => session_ids.contains(id),
                None => false,
            };
            if named {
                r matches Some(k) && k < session_ids.len() && Some(session_ids[k as int]) == path_session_id(path)
            } else if session_ids.len() == 1 && (path == "/"@ || path == "/ws"@) {
                r == Some(0usize)
            } else {
                r is None
            }
        },
    }
}

/// Picks the shared terminal an HTTP request is for.
pub fn session_for_request(request: &str, session_ids: &Vec<String>) -> (r: Option<usize>)
    ensures
        routed(request@, views(session_ids@), r),
{
    proof {
        reveal_strlit("/s/");
        reveal_strlit("/");
        reveal_strlit("/ws");
    }
    let path = match request_path(request) {
        Some(p) => p,
        None => return None,
    };
    let pv = chars_of(path.as_str());
    let slash_s = chars_of("/s/");
    if crate::text::occurs_at_exec(&pv, &slash_s, 0) {
        assert(pv@.subrange(0, 3) =~= pv@.take(3));
        let rest = string_from_range(&pv, 3, pv.len());
        let rv = chars_of(rest.as_str());
        assert(rv@ =~= pv@.skip(3));
        let end = match crate::text::find_char_from_exec(&rv, '/', 0) {
            Some(k) => k,
            None => rv.len(),
        };
        proof {
            crate::text::lemma_find_char_from_bounds(rv@, '/', 0);
        }
        let id = string_from_range(&rv, 0, end);
        assert(rv@.subrange(0, end as int) =~= (match crate::text::find_char_from(rv@, '/', 0) {
            Some(k) => rv@.take(k),
            None => rv@,
        }));
        assert(pv@.take(3) == "/s/"@);
        assert(path_session_id(path@) == Some(id@));
        let mut k: usize = 0;
        while k < session_ids.len()
            invariant
                0 <= k <= session_ids@.len(),
                path_session_id(path@) == Some(id@),
                request_path_of(request@) == Some(path@),
                forall|q: int| 0 <= q < k ==> session_ids@[q]@ != id@,
            decreases session_ids@.len() - k,
        {
            if str_eq(session_ids[k].as_str(), id.as_str()) {
                assert(views(session_ids@)[k as int] == id@);
                assert(views(session_ids@).contains(id@));
                return Some(k);
            }
            k += 1;
        }
        proof {
            assert forall|q: int| 0 <= q < views(session_ids@).len() implies views(session_ids@)[q] != id@ by {
                assert(views(session_ids@)[q] == session_ids@[q]@);
            }
        }
    } else {
        proof {
            if pv@.len() >= 3 && pv@.take(3) == "/s/"@ {
                assert(pv@.subrange(0, 3) =~= pv@.take(3));
            }
        }
    }
    if session_ids.len() == 1 && (str_eq(path.as_str(), "/") || str_eq(path.as_str(), "/ws")) {
        Some(0)
    } else {
        None
    }
}

} // verus!

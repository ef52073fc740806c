//! Character-sequence primitives shared by the text-processing parts of the
//! library.  Every function works on the `Seq<char>` view of a string; the
//! spec functions below say what `trim`, `find`, `lines` and friends compute.
use vstd::prelude::*;

verus! {

// ---------------------------------------------------------------------------
// Specifications
// ---------------------------------------------------------------------------

/// Unicode `White_Space`, the set that `char::is_whitespace` tests.
pub open spec fn is_ws(c: char) -> bool {
    let u = c as u32;
    ||| 0x09 <= u <= 0x0D
    ||| u == 0x20
    ||| u == 0x85
    ||| u == 0xA0
    ||| u == 0x1680
    ||| 0x2000 <= u <= 0x200A
    ||| u == 0x2028
    ||| u == 0x2029
    ||| u == 0x202F
    ||| u == 0x205F
    ||| u == 0x3000
}

/// `s` without its leading whitespace.
pub open spec fn trim_start(s: Seq<char>) -> Seq<char>
    decreases s.len(),
{
    if s.len() > 0 && is_ws(s[0]) {
        trim_start(s.drop_first())
    } else {
        s
    }
}

/// `s` without its trailing whitespace.
pub open spec fn trim_end(s: Seq<char>) -> Seq<char>
    decreases s.len(),
{
    if s.len() > 0 && is_ws(s.last()) {
        trim_end(s.drop_last())
    } else {
        s
    }
}

/// `s` without leading and trailing whitespace (`str::trim`).
pub open spec fn trim(s: Seq<char>) -> Seq<char> {
    trim_end(trim_start(s))
}

/// `pat` occurs in `s` starting at index `i`.
pub open spec fn occurs_at(s: Seq<char>, pat: Seq<char>, i: int) -> bool {
    0 <= i && i + pat.len() <= s.len() && s.subrange(i, i + pat.len()) == pat
}

/// The first index `>= i` at which `pat` occurs in `s`.
pub open spec fn find_from(s: Seq<char>, pat: Seq<char>, i: int) -> Option<int>
    decreases s.len() + 1 - i,
{
    if i < 0 || i + pat.len() > s.len() {
        None
    } else if occurs_at(s, pat, i) {
        Some(i)
    } else {
        find_from(s, pat, i + 1)
    }
}

/// `pat` occurs somewhere in `s` (`str::contains`).
pub open spec fn contains(s: Seq<char>, pat: Seq<char>) -> bool {
    find_from(s, pat, 0) is Some
}

/// `s` starts with `pat`.
pub open spec fn starts_with(s: Seq<char>, pat: Seq<char>) -> bool {
    occurs_at(s, pat, 0)
}

/// `s` ends with `pat`.
pub open spec fn ends_with(s: Seq<char>, pat: Seq<char>) -> bool {
    pat.len() <= s.len() && occurs_at(s, pat, s.len() - pat.len())
}

/// The first index `>= i` holding the character `c`.
pub open spec fn find_char_from(s: Seq<char>, c: char, i: int) -> Option<int>
    decreases s.len() - i,
{
    if i < 0 || i >= s.len() {
        None
    } else if s[i] == c {
        Some(i)
    } else {
        find_char_from(s, c, i + 1)
    }
}

/// A line as `str::lines` yields it: the final `'\n'` is dropped, and then a
/// final `'\r'` before it.
pub open spec fn strip_line_end(piece: Seq<char>, had_newline: bool) -> Seq<char> {
    if had_newline && piece.len() > 0 && piece.last() == '\r' {
        piece.drop_last()
    } else {
        piece
    }
}

/// The lines of `s[i..]` (`str::lines`).
pub open spec fn lines_from(s: Seq<char>, i: int) -> Seq<Seq<char>>
    decreases s.len() - i,
{
    if i < 0 || i >= s.len() {
        seq![]
    } else {
        proof {
            lemma_find_char_from_bounds(s, '\n', i);
        }
        match find_char_from(s, '\n', i) {
            Some(j) => seq![strip_line_end(s.subrange(i, j), true)] + lines_from(s, j + 1),
            None => seq![s.subrange(i, s.len() as int)],
        }
    }
}

/// The lines of `s` (`str::lines`).
pub open spec fn lines(s: Seq<char>) -> Seq<Seq<char>> {
    lines_from(s, 0)
}

/// The pieces of `s[i..]` that `str::split_inclusive('\n')` yields: each
/// keeps its terminating newline.
pub open spec fn split_inclusive_from(s: Seq<char>, i: int) -> Seq<Seq<char>>
    decreases s.len() - i,
{
    if i < 0 || i >= s.len() {
        seq![]
    } else {
        proof {
            lemma_find_char_from_bounds(s, '\n', i);
        }
        match find_char_from(s, '\n', i) {
            Some(j) => seq![s.subrange(i, j + 1)] + split_inclusive_from(s, j + 1),
            None => seq![s.subrange(i, s.len() as int)],
        }
    }
}

/// `c` in ASCII lower case (`char::to_ascii_lowercase`).
pub open spec fn ascii_lower(c: char) -> char {
    if 'A' <= c && c <= 'Z' {
        ((c as u32) + 32) as char
    } else {
        c
    }
}

/// `c` in ASCII upper case (`char::to_ascii_uppercase`).
pub open spec fn ascii_upper(c: char) -> char {
    if 'a' <= c && c <= 'z' {
        ((c as u32) - 32) as char
    } else {
        c
    }
}

/// `s` in ASCII lower case (`str::to_ascii_lowercase`).
pub open spec fn lower_seq(s: Seq<char>) -> Seq<char> {
    s.map_values(|c: char| ascii_lower(c))
}

/// `s` in ASCII upper case (`str::to_ascii_uppercase`).
pub open spec fn upper_seq(s: Seq<char>) -> Seq<char> {
    s.map_values(|c: char| ascii_upper(c))
}

/// The decimal digit for `d < 10`.
pub open spec fn digit_char(d: nat) -> char {
    ((d + 48) as u32) as char
}

/// The decimal representation of `n`, without leading zeros.
pub open spec fn dec_digits(n: nat) -> Seq<char>
    decreases n,
{
    if n < 10 {
        seq![digit_char(n)]
    } else {
        dec_digits(n / 10).push(digit_char(n % 10))
    }
}

/// The decimal representation of a signed integer, as `Display` writes it.
pub open spec fn int_to_dec(n: int) -> Seq<char> {
    if n < 0 {
        seq!['-'] + dec_digits((-n) as nat)
    } else {
        dec_digits(n as nat)
    }
}

/// A lower-case hex digit for `d < 16`.
pub open spec fn hex_char(d: nat) -> char {
    if d < 10 {
        ((d + 48) as u32) as char
    } else {
        ((d - 10 + 97) as u32) as char
    }
}

/// The two lower-case hex digits of a byte (`format!("{:02x}")`).
pub open spec fn byte_hex(b: u8) -> Seq<char> {
    seq![hex_char((b / 16) as nat), hex_char((b % 16) as nat)]
}

/// The bytes `bs` in lower-case hex, two digits each.
pub open spec fn hex_of(bs: Seq<u8>) -> Seq<char>
    decreases bs.len(),
{
    if bs.len() == 0 {
        seq![]
    } else {
        hex_of(bs.drop_last()) + byte_hex(bs.last())
    }
}

// ---------------------------------------------------------------------------
// Lemmas
// ---------------------------------------------------------------------------

/// `trim_start` of `s[i..]`, when `s[i]` is whitespace, equals that of `s[i+1..]`.
proof fn lemma_trim_start_step(s: Seq<char>, i: int, hi: int)
    requires
        0 <= i < hi <= s.len(),
        is_ws(s[i]),
    ensures
        trim_start(s.subrange(i, hi)) == trim_start(s.subrange(i + 1, hi)),
{
    assert(s.subrange(i, hi).drop_first() =~= s.subrange(i + 1, hi));
}

/// `trim_end` of `s[lo..j]`, when `s[j-1]` is whitespace, equals that of `s[lo..j-1]`.
proof fn lemma_trim_end_step(s: Seq<char>, lo: int, j: int)
    requires
        0 <= lo < j <= s.len(),
        is_ws(s[j - 1]),
    ensures
        trim_end(s.subrange(lo, j)) == trim_end(s.subrange(lo, j - 1)),
{
    assert(s.subrange(lo, j).drop_last() =~= s.subrange(lo, j - 1));
}

/// The trimmed sequence has no whitespace at either end.
pub proof fn lemma_trim_ends(s: Seq<char>)
    ensures
        trim(s).len() > 0 ==> !is_ws(trim(s)[0]) && !is_ws(trim(s).last()),
        trim(s).len() <= s.len(),
    decreases s.len(),
{
    lemma_trim_start_props(s);
    lemma_trim_end_props(trim_start(s));
}

/// Properties of `trim_start`.
pub proof fn lemma_trim_start_props(s: Seq<char>)
    ensures
        trim_start(s).len() <= s.len(),
        trim_start(s).len() > 0 ==> !is_ws(trim_start(s)[0]),
        trim_start(s) == s.subrange(s.len() - trim_start(s).len(), s.len() as int),
    decreases s.len(),
{
    if s.len() > 0 && is_ws(s[0]) {
        lemma_trim_start_props(s.drop_first());
        assert(s.drop_first().subrange(
            s.drop_first().len() - trim_start(s.drop_first()).len(),
            s.drop_first().len() as int,
        ) =~= s.subrange(s.len() - trim_start(s).len(), s.len() as int));
    } else {
        assert(s.subrange(0, s.len() as int) =~= s);
    }
}

/// Properties of `trim_end`.
pub proof fn lemma_trim_end_props(s: Seq<char>)
    ensures
        trim_end(s).len() <= s.len(),
        trim_end(s).len() > 0 ==> !is_ws(trim_end(s).last()),
        trim_end(s) == s.subrange(0, trim_end(s).len() as int),
        trim_end(s).len() > 0 ==> !is_ws(trim_end(s)[0]) || is_ws(s[0]),
    decreases s.len(),
{
    if s.len() > 0 && is_ws(s.last()) {
        lemma_trim_end_props(s.drop_last());
        assert(s.drop_last().subrange(0, trim_end(s.drop_last()).len() as int) =~= s.subrange(
            0,
            trim_end(s).len() as int,
        ));
    } else {
        assert(s.subrange(0, s.len() as int) =~= s);
    }
}

/// Trimming a trimmed sequence changes nothing.
pub proof fn lemma_trim_idempotent(s: Seq<char>)
    ensures
        trim(trim(s)) == trim(s),
{
    lemma_trim_ends(s);
    let t = trim(s);
    if t.len() > 0 {
        assert(trim_start(t) == t);
        assert(trim_end(t) == t);
    } else {
        assert(trim_start(t) == t);
        assert(trim_end(t) == t);
    }
}

/// Every character of `s` is whitespace.
pub open spec fn all_ws(s: Seq<char>) -> bool {
    forall|k: int| 0 <= k < s.len() ==> is_ws(#[trigger] s[k])
}

/// Trimming either end of an all-whitespace sequence leaves nothing, and of
/// any other sequence leaves something.
pub proof fn lemma_trim_all_ws(s: Seq<char>)
    ensures
        all_ws(s) ==> trim_start(s).len() == 0 && trim_end(s).len() == 0,
        !all_ws(s) ==> trim_start(s).len() > 0 && trim_end(s).len() > 0,
    decreases s.len(),
{
    if s.len() > 0 {
        lemma_trim_all_ws(s.drop_first());
        lemma_trim_all_ws(s.drop_last());
        if !all_ws(s) {
            let k = choose|k: int| 0 <= k < s.len() && !is_ws(#[trigger] s[k]);
            if is_ws(s[0]) {
                assert(s.drop_first()[k - 1] == s[k]);
            }
            if is_ws(s.last()) {
                assert(s.drop_last()[k] == s[k]);
            }
        } else {
            assert(all_ws(s.drop_first())) by {
                assert forall|k: int| 0 <= k < s.drop_first().len() implies is_ws(#[trigger] s.drop_first()[k]) by {
                    assert(s.drop_first()[k] == s[k + 1]);
                }
            }
            assert(all_ws(s.drop_last())) by {
                assert forall|k: int| 0 <= k < s.drop_last().len() implies is_ws(#[trigger] s.drop_last()[k]) by {
                    assert(s.drop_last()[k] == s[k]);
                }
            }
            assert(is_ws(s[0]));
            assert(is_ws(s[s.len() - 1]));
        }
    }
}

/// Leading whitespace before `b` is dropped by `trim_start`.
pub proof fn lemma_trim_start_ws_prefix(a: Seq<char>, b: Seq<char>)
    requires
        all_ws(a),
    ensures
        trim_start(a + b) == trim_start(b),
    decreases a.len(),
{
    if a.len() > 0 {
        assert(is_ws(a[0]));
        assert((a + b)[0] == a[0]);
        assert((a + b).drop_first() =~= a.drop_first() + b);
        assert(all_ws(a.drop_first())) by {
            assert forall|k: int| 0 <= k < a.drop_first().len() implies is_ws(#[trigger] a.drop_first()[k]) by {
                assert(a.drop_first()[k] == a[k + 1]);
            }
        }
        lemma_trim_start_ws_prefix(a.drop_first(), b);
    } else {
        assert(a + b =~= b);
    }
}

/// `trim_start` of `a + b` stops inside `a` when `a` is not all whitespace.
pub proof fn lemma_trim_start_concat(a: Seq<char>, b: Seq<char>)
    requires
        !all_ws(a),
    ensures
        trim_start(a + b) == trim_start(a) + b,
    decreases a.len(),
{
    assert(a.len() > 0);
    assert((a + b)[0] == a[0]);
    if is_ws(a[0]) {
        assert((a + b).drop_first() =~= a.drop_first() + b);
        assert(!all_ws(a.drop_first())) by {
            let k = choose|k: int| 0 <= k < a.len() && !is_ws(#[trigger] a[k]);
            assert(a.drop_first()[k - 1] == a[k]);
        }
        lemma_trim_start_concat(a.drop_first(), b);
    }
}

/// Trailing whitespace after `a` is dropped by `trim_end`.
pub proof fn lemma_trim_end_ws_suffix(a: Seq<char>, b: Seq<char>)
    requires
        all_ws(b),
    ensures
        trim_end(a + b) == trim_end(a),
    decreases b.len(),
{
    if b.len() > 0 {
        assert(is_ws(b[b.len() - 1]));
        assert((a + b).last() == b.last());
        assert((a + b).drop_last() =~= a + b.drop_last());
        assert(all_ws(b.drop_last())) by {
            assert forall|k: int| 0 <= k < b.drop_last().len() implies is_ws(#[trigger] b.drop_last()[k]) by {
                assert(b.drop_last()[k] == b[k]);
            }
        }
        lemma_trim_end_ws_suffix(a, b.drop_last());
    } else {
        assert(a + b =~= a);
    }
}

/// `trim_end` of `a + b` stops inside `b` when `b` is not all whitespace.
pub proof fn lemma_trim_end_concat(a: Seq<char>, b: Seq<char>)
    requires
        !all_ws(b),
    ensures
        trim_end(a + b) == a + trim_end(b),
    decreases b.len(),
{
    assert(b.len() > 0);
    assert((a + b).last() == b.last());
    if is_ws(b.last()) {
        assert((a + b).drop_last() =~= a + b.drop_last());
        assert(!all_ws(b.drop_last())) by {
            let k = choose|k: int| 0 <= k < b.len() && !is_ws(#[trigger] b[k]);
            assert(k != b.len() - 1);
            assert(b.drop_last()[k] == b[k]);
        }
        lemma_trim_end_concat(a, b.drop_last());
    } else {
        assert(trim_end(a + b) == a + b);
    }
}

/// Trimming the start and trimming the end can be done in either order.
pub proof fn lemma_trim_commute(s: Seq<char>)
    ensures
        trim_start(trim_end(s)) == trim_end(trim_start(s)),
    decreases s.len(),
{
    if s.len() > 0 {
        let s1 = s.drop_first();
        assert(s =~= seq![s[0]] + s1);
        if is_ws(s[0]) {
            lemma_trim_commute(s1);
            lemma_trim_all_ws(s1);
            if all_ws(s1) {
                lemma_trim_end_ws_suffix(seq![s[0]], s1);
                assert(trim_end(seq![s[0]]) == trim_end(seq![s[0]].drop_last()));
                assert(seq![s[0]].drop_last() =~= Seq::<char>::empty());
                assert(trim_end(s).len() == 0);
                assert(trim_start(s1).len() == 0);
            } else {
                lemma_trim_end_concat(seq![s[0]], s1);
                assert((seq![s[0]] + trim_end(s1))[0] == s[0]);
                assert((seq![s[0]] + trim_end(s1)).drop_first() =~= trim_end(s1));
            }
        } else {
            lemma_trim_all_ws(s);
            assert(!all_ws(s)) by {
                assert(!is_ws(s[0]));
            }
            lemma_trim_end_props(s);
            assert(trim_end(s)[0] == s[0]);
        }
    }
}

/// `trim_start` and `trim_end` each change nothing the second time.
pub proof fn lemma_trim_sides_idempotent(s: Seq<char>)
    ensures
        trim_start(trim_start(s)) == trim_start(s),
        trim_end(trim_end(s)) == trim_end(s),
{
    lemma_trim_start_props(s);
    lemma_trim_end_props(s);
}

/// Trimming after trimming one side gives the trim of the whole.
pub proof fn lemma_trim_after_side(s: Seq<char>)
    ensures
        trim(trim_start(s)) == trim(s),
        trim(trim_end(s)) == trim(s),
        trim(trim_end(trim_start(s))) == trim(s),
{
    lemma_trim_sides_idempotent(s);
    lemma_trim_commute(s);
    lemma_trim_sides_idempotent(trim_start(s));
    lemma_trim_commute(trim_start(s));
}

/// The decimal representation is never empty and consists of digits.
pub proof fn lemma_dec_digits_nonempty(n: nat)
    ensures
        dec_digits(n).len() >= 1,
        forall|i: int|
            0 <= i < dec_digits(n).len() ==> '0' <= #[trigger] dec_digits(n)[i] && dec_digits(
                n,
            )[i] <= '9',
    decreases n,
{
    if n >= 10 {
        lemma_dec_digits_nonempty(n / 10);
    }
}

/// A decimal representation has one character exactly for numbers below ten.
pub proof fn lemma_dec_digits_len(n: nat)
    ensures
        dec_digits(n).len() == 1 <==> n < 10,
    decreases n,
{
    if n >= 10 {
        lemma_dec_digits_nonempty(n / 10);
    }
}

/// A digit's character is its code point offset from `'0'`.
proof fn lemma_digit_char_injective(d1: nat, d2: nat)
    requires
        d1 < 10,
        d2 < 10,
        digit_char(d1) == digit_char(d2),
    ensures
        d1 == d2,
{
    assert(digit_char(d1) as int == d1 + 48);
    assert(digit_char(d2) as int == d2 + 48);
}

/// Different numbers have different decimal representations.
pub proof fn lemma_dec_digits_injective(a: nat, b: nat)
    requires
        dec_digits(a) == dec_digits(b),
    ensures
        a == b,
    decreases a,
{
    lemma_dec_digits_len(a);
    lemma_dec_digits_len(b);
    if a >= 10 {
        assert(dec_digits(a / 10) =~= dec_digits(a).drop_last());
        assert(dec_digits(b / 10) =~= dec_digits(b).drop_last());
        lemma_dec_digits_injective(a / 10, b / 10);
        assert(dec_digits(a).last() == digit_char(a % 10));
        assert(dec_digits(b).last() == digit_char(b % 10));
        lemma_digit_char_injective(a % 10, b % 10);
    } else {
        assert(dec_digits(a)[0] == digit_char(a));
        assert(dec_digits(b)[0] == digit_char(b));
        lemma_digit_char_injective(a, b);
    }
}

/// Different integers have different signed decimal representations.
pub proof fn lemma_int_to_dec_injective(a: int, b: int)
    requires
        int_to_dec(a) == int_to_dec(b),
    ensures
        a == b,
{
    if a < 0 && b < 0 {
        assert(dec_digits((-a) as nat) =~= int_to_dec(a).skip(1));
        assert(dec_digits((-b) as nat) =~= int_to_dec(b).skip(1));
        lemma_dec_digits_injective((-a) as nat, (-b) as nat);
    } else if a >= 0 && b >= 0 {
        lemma_dec_digits_injective(a as nat, b as nat);
    } else if a < 0 {
        lemma_dec_digits_nonempty(b as nat);
        assert(int_to_dec(a)[0] == '-');
    } else {
        lemma_dec_digits_nonempty(a as nat);
        assert(int_to_dec(b)[0] == '-');
    }
}

/// `hex_of` has two characters per byte.
pub proof fn lemma_hex_of_len(bs: Seq<u8>)
    ensures
        hex_of(bs).len() == 2 * bs.len(),
    decreases bs.len(),
{
    if bs.len() > 0 {
        lemma_hex_of_len(bs.drop_last());
    }
}

// ---------------------------------------------------------------------------
// Executable code
// ---------------------------------------------------------------------------

/// Appends one character to a `String` (std's `String::push`).
#[verifier::external_body]
pub(crate) fn string_push(s: &mut String, c: char)
    ensures
        final(s)@ == old(s)@.push(c),
{
    s.push(c);
}

/// Appends the characters of `t` to `s`.
pub fn push_str(s: &mut String, t: &str)
    ensures
        final(s)@ == old(s)@ + t@,
{
    let v = chars_of(t);
    let mut i: usize = 0;
    while i < v.len()
        invariant
            0 <= i <= v@.len(),
            v@ == t@,
            s@ == old(s)@ + v@.subrange(0, i as int),
        decreases v@.len() - i,
    {
        string_push(s, v[i]);
        assert(v@.subrange(0, i + 1) == v@.subrange(0, i as int).push(v@[i as int]));
        i += 1;
    }
    assert(v@.subrange(0, v@.len() as int) == v@);
}

/// Appends `v[start..end]` to `s`.
pub fn push_range(s: &mut String, v: &Vec<char>, start: usize, end: usize)
    requires
        start <= end <= v@.len(),
    ensures
        final(s)@ == old(s)@ + v@.subrange(start as int, end as int),
{
    let mut i = start;
    while i < end
        invariant
            start <= i <= end <= v@.len(),
            s@ == old(s)@ + v@.subrange(start as int, i as int),
        decreases end - i,
    {
        string_push(s, v[i]);
        assert(v@.subrange(start as int, i + 1) == v@.subrange(start as int, i as int).push(
            v@[i as int],
        ));
        i += 1;
    }
}

/// The characters of `s`, in order.
pub fn chars_of(s: &str) -> (out: Vec<char>)
    ensures
        out@ == s@,
{
    let mut out: Vec<char> = Vec::new();
    for c in it: s.chars()
        invariant
            out@ == it.seq().take(it.index() as int),
            it.seq() == s@,
    {
        out.push(c);
    }
    out
}

/// A `String` made of `v[start..end]`.
pub fn string_from_range(v: &Vec<char>, start: usize, end: usize) -> (out: String)
    requires
        start <= end <= v@.len(),
    ensures
        out@ == v@.subrange(start as int, end as int),
{
    let mut out = String::new();
    push_range(&mut out, v, start, end);
    out
}

/// A `String` made of all of `v`.
pub fn string_from_chars(v: &Vec<char>) -> (out: String)
    ensures
        out@ == v@,
{
    let out = string_from_range(v, 0, v.len());
    assert(v@.subrange(0, v@.len() as int) == v@);
    out
}

/// Whether `c` is Unicode whitespace (`char::is_whitespace`).
pub fn is_whitespace(c: char) -> (b: bool)
    ensures
        b == is_ws(c),
{
    let u = c as u32;
    (0x09 <= u && u <= 0x0D) || u == 0x20 || u == 0x85 || u == 0xA0 || u == 0x1680 || (0x2000
        <= u && u <= 0x200A) || u == 0x2028 || u == 0x2029 || u == 0x202F || u == 0x205F || u
        == 0x3000
}

/// The bounds `(a, b)` of `v[lo..hi]` with whitespace trimmed at both ends.
pub fn trim_bounds(v: &Vec<char>, lo: usize, hi: usize) -> (r: (usize, usize))
    requires
        lo <= hi <= v@.len(),
    ensures
        lo <= r.0 <= r.1 <= hi,
        v@.subrange(r.0 as int, r.1 as int) == trim(v@.subrange(lo as int, hi as int)),
{
    let mut a = lo;
    while a < hi && is_whitespace(v[a])
        invariant
            lo <= a <= hi <= v@.len(),
            trim_start(v@.subrange(lo as int, hi as int)) == trim_start(
                v@.subrange(a as int, hi as int),
            ),
        decreases hi - a,
    {
        proof {
            lemma_trim_start_step(v@, a as int, hi as int);
        }
        a += 1;
    }
    assert(trim_start(v@.subrange(a as int, hi as int)) == v@.subrange(a as int, hi as int));
    let mut b = hi;
    while b > a && is_whitespace(v[b - 1])
        invariant
            lo <= a <= b <= hi <= v@.len(),
            trim(v@.subrange(lo as int, hi as int)) == trim_end(v@.subrange(a as int, b as int)),
        decreases b - a,
    {
        proof {
            lemma_trim_end_step(v@, a as int, b as int);
        }
        b -= 1;
    }
    (a, b)
}

/// `s` with whitespace trimmed at both ends, as a new `String`.
pub fn trim_string(s: &str) -> (out: String)
    ensures
        out@ == trim(s@),
{
    let v = chars_of(s);
    let (a, b) = trim_bounds(&v, 0, v.len());
    assert(v@.subrange(0, v@.len() as int) == v@);
    string_from_range(&v, a, b)
}

/// Whether `s` is empty or all whitespace (`s.trim().is_empty()`).
pub fn is_blank(s: &str) -> (b: bool)
    ensures
        b == (trim(s@).len() == 0),
{
    let v = chars_of(s);
    let (a, b) = trim_bounds(&v, 0, v.len());
    assert(v@.subrange(0, v@.len() as int) == v@);
    a == b
}

/// Whether `pat` occurs in `v` at index `i`.
pub fn occurs_at_exec(v: &Vec<char>, pat: &Vec<char>, i: usize) -> (b: bool)
    ensures
        b == occurs_at(v@, pat@, i as int),
{
    if i > v.len() || pat.len() > v.len() - i {
        return false;
    }
    let n = v.len();
    let mut k: usize = 0;
    while k < pat.len()
        invariant
            n == v@.len(),
            i + pat@.len() <= v@.len(),
            0 <= k <= pat@.len(),
            forall|m: int| 0 <= m < k ==> v@[i + m] == pat@[m],
        decreases pat@.len() - k,
    {
        if v[i + k] != pat[k] {
            assert(v@.subrange(i as int, i + pat@.len())[k as int] != pat@[k as int]);
            return false;
        }
        k += 1;
    }
    assert(v@.subrange(i as int, i + pat@.len()) =~= pat@);
    true
}

/// The first index `>= from` at which `pat` occurs in `v`.
pub fn find_from_exec(v: &Vec<char>, pat: &Vec<char>, from: usize) -> (r: Option<usize>)
    ensures
        match r {
            Some(i) => find_from(v@, pat@, from as int) == Some(i as int),
            None => find_from(v@, pat@, from as int) is None,
        },
{
    let mut i = from;
    while i <= v.len() && pat.len() <= v.len() - i
        invariant
            from <= i,
            find_from(v@, pat@, from as int) == find_from(v@, pat@, i as int),
        decreases v@.len() + 1 - i,
    {
        if occurs_at_exec(v, pat, i) {
            return Some(i);
        }
        if i == v.len() {
            proof {
                if pat@.len() == 0 {
                    assert(v@.subrange(i as int, i as int) =~= pat@);
                }
                assert(find_from(v@, pat@, i + 1) is None);
            }
            return None;
        }
        i += 1;
    }
    None
}

/// The first index `>= from` holding `c`.
pub fn find_char_from_exec(v: &Vec<char>, c: char, from: usize) -> (r: Option<usize>)
    ensures
        match r {
            Some(i) => find_char_from(v@, c, from as int) == Some(i as int) && i < v@.len(),
            None => find_char_from(v@, c, from as int) is None,
        },
{
    let mut i = from;
    while i < v.len()
        invariant
            from <= i,
            find_char_from(v@, c, from as int) == find_char_from(v@, c, i as int),
        decreases v@.len() - i,
    {
        if v[i] == c {
            return Some(i);
        }
        i += 1;
    }
    None
}

/// `find_from` never returns an index before its start, and the match is real.
pub proof fn lemma_find_from_bounds(s: Seq<char>, pat: Seq<char>, i: int)
    ensures
        match find_from(s, pat, i) {
            Some(j) => i <= j && occurs_at(s, pat, j) && j + pat.len() <= s.len(),
            None => true,
        },
    decreases s.len() + 1 - i,
{
    if i < 0 || i + pat.len() > s.len() {
    } else if occurs_at(s, pat, i) {
    } else {
        lemma_find_from_bounds(s, pat, i + 1);
    }
}

/// `find_char_from` never returns an index before its start, and it holds `c`.
pub proof fn lemma_find_char_from_bounds(s: Seq<char>, c: char, i: int)
    ensures
        match find_char_from(s, c, i) {
            Some(j) => i <= j < s.len() && s[j] == c,
            None => true,
        },
    decreases s.len() - i,
{
    if i < 0 || i >= s.len() {
    } else if s[i] == c {
    } else {
        lemma_find_char_from_bounds(s, c, i + 1);
    }
}

/// Whether `pat` occurs anywhere in `s` (`str::contains`).
pub fn str_contains(s: &str, pat: &str) -> (b: bool)
    ensures
        b == contains(s@, pat@),
{
    let v = chars_of(s);
    let p = chars_of(pat);
    find_from_exec(&v, &p, 0).is_some()
}

/// Whether `s` starts with `pat`.
pub fn str_starts_with(s: &str, pat: &str) -> (b: bool)
    ensures
        b == starts_with(s@, pat@),
{
    let v = chars_of(s);
    let p = chars_of(pat);
    occurs_at_exec(&v, &p, 0)
}

/// Whether `s` ends with `pat`.
pub fn str_ends_with(s: &str, pat: &str) -> (b: bool)
    ensures
        b == ends_with(s@, pat@),
{
    let v = chars_of(s);
    let p = chars_of(pat);
    if p.len() > v.len() {
        return false;
    }
    occurs_at_exec(&v, &p, v.len() - p.len())
}

/// Whether two strings hold the same characters.
pub fn str_eq(a: &str, b: &str) -> (r: bool)
    ensures
        r == (a@ == b@),
{
    let va = chars_of(a);
    let vb = chars_of(b);
    if va.len() != vb.len() {
        return false;
    }
    let r = occurs_at_exec(&va, &vb, 0);
    assert(r ==> va@.subrange(0, vb@.len() as int) == vb@);
    assert(va@.subrange(0, va@.len() as int) == va@);
    r
}

/// `c` in ASCII lower case.
pub fn to_ascii_lower(c: char) -> (r: char)
    ensures
        r == ascii_lower(c),
{
    if 'A' <= c && c <= 'Z' {
        let u = (c as u32) + 32;
        proof {
            assert(0x61 <= u <= 0x7A);
        }
        char_from_ascii(u)
    } else {
        c
    }
}

/// `c` in ASCII upper case.
pub fn to_ascii_upper(c: char) -> (r: char)
    ensures
        r == ascii_upper(c),
{
    if 'a' <= c && c <= 'z' {
        let u = (c as u32) - 32;
        char_from_ascii(u)
    } else {
        c
    }
}

/// The character with an ASCII code point.
pub(crate) fn char_from_ascii(u: u32) -> (c: char)
    requires
        u < 0x80,
    ensures
        c == u as char,
        c as u32 == u,
{
    (u as u8) as char
}

/// `s` in ASCII lower case (`str::to_ascii_lowercase`).
pub fn lowercase_string(s: &str) -> (out: String)
    ensures
        out@ == lower_seq(s@),
{
    let v = chars_of(s);
    let mut out = String::new();
    let mut i: usize = 0;
    while i < v.len()
        invariant
            0 <= i <= v@.len(),
            v@ == s@,
            out@ == lower_seq(v@.subrange(0, i as int)),
        decreases v@.len() - i,
    {
        let c = to_ascii_lower(v[i]);
        string_push(&mut out, c);
        assert(lower_seq(v@.subrange(0, i + 1)) =~= lower_seq(v@.subrange(0, i as int)).push(c));
        i += 1;
    }
    assert(v@.subrange(0, v@.len() as int) == v@);
    out
}

/// `s` in ASCII upper case (`str::to_ascii_uppercase`).
pub fn uppercase_string(s: &str) -> (out: String)
    ensures
        out@ == upper_seq(s@),
{
    let v = chars_of(s);
    let mut out = String::new();
    let mut i: usize = 0;
    while i < v.len()
        invariant
            0 <= i <= v@.len(),
            v@ == s@,
            out@ == upper_seq(v@.subrange(0, i as int)),
        decreases v@.len() - i,
    {
        let c = to_ascii_upper(v[i]);
        string_push(&mut out, c);
        assert(upper_seq(v@.subrange(0, i + 1)) =~= upper_seq(v@.subrange(0, i as int)).push(c));
        i += 1;
    }
    assert(v@.subrange(0, v@.len() as int) == v@);
    out
}

/// The decimal digits of `n`.
pub fn u64_to_dec(n: u64) -> (out: String)
    ensures
        out@ == dec_digits(n as nat),
{
    let mut acc: Vec<char> = Vec::new();
    let mut m = n;
    if m == 0 {
        acc.push('0');
        assert(acc@ =~= dec_digits(0));
        return string_from_chars(&acc);
    }
    while m > 0
        invariant
            m > 0 ==> dec_digits(n as nat) == dec_digits(m as nat) + acc@,
            m == 0 ==> dec_digits(n as nat) == acc@,
        decreases m,
    {
        let d = m % 10;
        let c = char_from_ascii((d as u32) + 48);
        let ghost old_acc = acc@;
        acc.insert(0, c);
        assert(acc@ =~= seq![digit_char(d as nat)] + old_acc);
        if m < 10 {
            assert(dec_digits(m as nat) == seq![digit_char(m as nat)]);
            assert(dec_digits(n as nat) =~= acc@);
        } else {
            assert(dec_digits(m as nat) == dec_digits((m / 10) as nat).push(
                digit_char((m % 10) as nat),
            ));
            assert(dec_digits(n as nat) =~= dec_digits((m / 10) as nat) + acc@);
        }
        m = m / 10;
    }
    string_from_chars(&acc)
}

/// The decimal representation of `n` (`i64`'s `Display`).
pub fn i64_to_dec(n: i64) -> (out: String)
    ensures
        out@ == int_to_dec(n as int),
{
    if n < 0 {
        let m: u64 = if n == i64::MIN {
            9223372036854775808u64
        } else {
            (-n) as u64
        };
        let digits = u64_to_dec(m);
        let mut out = String::new();
        string_push(&mut out, '-');
        push_str(&mut out, digits.as_str());
        out
    } else {
        u64_to_dec(n as u64)
    }
}

/// A lower-case hex digit for `d < 16`.
pub fn hex_digit(d: u8) -> (c: char)
    requires
        d < 16,
    ensures
        c == hex_char(d as nat),
{
    if d < 10 {
        char_from_ascii((d as u32) + 48)
    } else {
        char_from_ascii((d as u32) - 10 + 97)
    }
}

/// The bytes `bs` in lower-case hex, two digits per byte.
pub fn hex_encode(bs: &[u8]) -> (out: String)
    ensures
        out@ == hex_of(bs@),
{
    let mut out = String::new();
    let mut i: usize = 0;
    while i < bs.len()
        invariant
            0 <= i <= bs@.len(),
            out@ == hex_of(bs@.subrange(0, i as int)),
        decreases bs@.len() - i,
    {
        let b = bs[i];
        string_push(&mut out, hex_digit(b / 16));
        string_push(&mut out, hex_digit(b % 16));
        assert(bs@.subrange(0, i + 1).drop_last() =~= bs@.subrange(0, i as int));
        assert(out@ =~= hex_of(bs@.subrange(0, i + 1)));
        i += 1;
    }
    assert(bs@.subrange(0, bs@.len() as int) =~= bs@);
    out
}

} // verus!

verus! {

/// The strings of `xs`, viewed as character sequences.
pub open spec fn views(xs: Seq<String>) -> Seq<Seq<char>> {
    xs.map_values(|x: String| x@)
}

/// The pieces joined with `'\n'` between them (`[..].join("\n")`).
pub open spec fn join_newline(xs: Seq<Seq<char>>) -> Seq<char>
    decreases xs.len(),
{
    if xs.len() == 0 {
        seq![]
    } else if xs.len() == 1 {
        xs[0]
    } else {
        join_newline(xs.drop_last()) + seq!['\n'] + xs.last()
    }
}

/// The lines of `s` (`str::lines`), each as a new `String`.
pub fn lines_of(s: &str) -> (out: Vec<String>)
    ensures
        views(out@) == lines(s@),
{
    let v = chars_of(s);
    let mut out: Vec<String> = Vec::new();
    let mut i: usize = 0;
    while i < v.len()
        invariant
            0 <= i <= v@.len(),
            v@ == s@,
            lines(v@) == views(out@) + lines_from(v@, i as int),
        decreases v@.len() - i,
    {
        proof {
            lemma_find_char_from_bounds(v@, '\n', i as int);
        }
        match find_char_from_exec(&v, '\n', i) {
            Some(j) => {
                let end = if j > i && v[j - 1] == '\r' {
                    j - 1
                } else {
                    j
                };
                let piece = string_from_range(&v, i, end);
                proof {
                    if j > i && v@[j - 1] == '\r' {
                        assert(v@.subrange(i as int, j as int).drop_last() =~= v@.subrange(
                            i as int,
                            end as int,
                        ));
                    }
                    assert(piece@ == strip_line_end(v@.subrange(i as int, j as int), true));
                }
                let ghost before = out@;
                out.push(piece);
                assert(views(out@) =~= views(before).push(piece@));
                assert(lines_from(v@, i as int) == seq![piece@] + lines_from(v@, j + 1));
                assert(views(before) + lines_from(v@, i as int) =~= views(out@) + lines_from(
                    v@,
                    j + 1,
                ));
                i = j + 1;
            },
            None => {
                let piece = string_from_range(&v, i, v.len());
                let ghost before = out@;
                out.push(piece);
                assert(views(out@) =~= views(before).push(piece@));
                assert(lines_from(v@, i as int) == seq![piece@]);
                assert(lines_from(v@, v@.len() as int) =~= Seq::<Seq<char>>::empty());
                assert(views(before) + lines_from(v@, i as int) =~= views(out@) + lines_from(
                    v@,
                    v@.len() as int,
                ));
                i = v.len();
            },
        }
    }
    assert(lines_from(v@, i as int) =~= Seq::<Seq<char>>::empty());
    assert(views(out@) + Seq::<Seq<char>>::empty() =~= views(out@));
    out
}

/// The strings of `xs` joined with `'\n'` between them.
pub fn join_with_newline(xs: &Vec<String>) -> (out: String)
    ensures
        out@ == join_newline(views(xs@)),
{
    let mut out = String::new();
    let mut i: usize = 0;
    while i < xs.len()
        invariant
            0 <= i <= xs@.len(),
            out@ == join_newline(views(xs@.subrange(0, i as int))),
        decreases xs@.len() - i,
    {
        let ghost prev = views(xs@.subrange(0, i as int));
        assert(views(xs@.subrange(0, i + 1)).drop_last() =~= prev);
        if i > 0 {
            string_push(&mut out, '\n');
        }
        push_str(&mut out, xs[i].as_str());
        proof {
            let cur = views(xs@.subrange(0, i + 1));
            assert(cur.last() == xs@[i as int]@);
            if i == 0 {
                assert(out@ =~= cur[0]);
            } else {
                assert(out@ =~= join_newline(prev) + seq!['\n'] + cur.last());
            }
        }
        i += 1;
    }
    assert(xs@.subrange(0, xs@.len() as int) =~= xs@);
    out
}

/// Whether `c` is an ASCII decimal digit.
pub open spec fn is_digit(c: char) -> bool {
    '0' <= c && c <= '9'
}

/// Every character of `t` is a decimal digit.
pub open spec fn all_digits(t: Seq<char>) -> bool {
    forall|i: int| 0 <= i < t.len() ==> is_digit(#[trigger] t[i])
}

/// `s` without one leading `+`.
pub open spec fn unsigned_part(s: Seq<char>) -> Seq<char> {
    if s.len() > 0 && s[0] == '+' {
        s.skip(1)
    } else {
        s
    }
}

/// The value of a run of decimal digits.
pub open spec fn digits_value(s: Seq<char>) -> nat
    decreases s.len(),
{
    if s.len() == 0 {
        0
    } else {
        digits_value(s.drop_last()) * 10 + ((s.last() as int - '0' as int) as nat)
    }
}

/// What `str::parse::<u16>` gives: an optional `+`, then at least one
/// digit, with a value that fits.
pub open spec fn parse_u16(s: Seq<char>) -> Option<u16> {
    let t = unsigned_part(s);
    if t.len() > 0 && all_digits(t) && digits_value(t) <= 65535 {
        Some(digits_value(t) as u16)
    } else {
        None
    }
}

/// A longer run of digits is worth at least as much as its prefix.
pub proof fn lemma_digits_value_prefix(s: Seq<char>, i: int)
    requires
        0 <= i <= s.len(),
        all_digits(s),
    ensures
        digits_value(s.take(i)) <= digits_value(s),
    decreases s.len() - i,
{
    if i < s.len() {
        lemma_digits_value_prefix(s, i + 1);
        assert(s.take(i + 1).drop_last() =~= s.take(i));
        assert(is_digit(s.take(i + 1).last()));
        assert(digits_value(s.take(i + 1)) == digits_value(s.take(i)) * 10 + ((s.take(i + 1).last() as int - '0' as int) as nat));
    } else {
        assert(s.take(i) =~= s);
    }
}

/// Parses `v[lo..hi]` as `str::parse::<u16>` does.
pub fn parse_u16_range(v: &Vec<char>, lo: usize, hi: usize) -> (r: Option<u16>)
    requires
        lo <= hi <= v@.len(),
    ensures
        r == parse_u16(v@.subrange(lo as int, hi as int)),
{
    let ghost s = v@.subrange(lo as int, hi as int);
    let mut a = lo;
    if a < hi && v[a] == '+' {
        a += 1;
    }
    let ghost t = v@.subrange(a as int, hi as int);
    assert(t =~= unsigned_part(s));
    if a == hi {
        return None;
    }
    let mut acc: u32 = 0;
    let mut i = a;
    while i < hi
        invariant
            a <= i <= hi <= v@.len(),
            t == v@.subrange(a as int, hi as int),
            s == v@.subrange(lo as int, hi as int),
            t == unsigned_part(s),
            t.len() > 0,
            lo <= a,
            forall|k: int| a <= k < i ==> is_digit(#[trigger] v@[k]),
            acc as nat == digits_value(v@.subrange(a as int, i as int)),
            acc <= 65535,
        decreases hi - i,
    {
        let c = v[i];
        if !('0' <= c && c <= '9') {
            assert(t[i - a] == c);
            assert(!is_digit(t[i - a]));
            assert(!all_digits(t));
            return None;
        }
        assert(v@.subrange(a as int, i + 1).drop_last() =~= v@.subrange(a as int, i as int));
        let d = (c as u32) - ('0' as u32);
        let next = acc * 10 + d;
        assert(digits_value(v@.subrange(a as int, i + 1)) == next);
        if next > 65535 {
            proof {
                let j = (i + 1 - a) as int;
                assert(v@.subrange(a as int, i + 1) =~= t.take(j));
                if all_digits(t) {
                    lemma_digits_value_prefix(t, j);
                }
            }
            return None;
        }
        acc = next;
        i += 1;
    }
    assert(v@.subrange(a as int, hi as int) == t);
    assert forall|k: int| 0 <= k < t.len() implies is_digit(#[trigger] t[k]) by {
        assert(t[k] == v@[k + a]);
    }
    assert(all_digits(t));
    Some(acc as u16)
}

/// `a` sorts before `b` in the order of `str`: character by character,
/// a proper prefix first.
pub open spec fn seq_lt(a: Seq<char>, b: Seq<char>) -> bool
    decreases a.len(),
{
    if a.len() == 0 {
        b.len() > 0
    } else if b.len() == 0 {
        false
    } else if a[0] != b[0] {
        (a[0] as int) < (b[0] as int)
    } else {
        seq_lt(a.skip(1), b.skip(1))
    }
}

/// Whether `a` sorts before `b` as strings.
pub fn str_lt(a: &str, b: &str) -> (r: bool)
    ensures
        r == seq_lt(a@, b@),
{
    let va = chars_of(a);
    let vb = chars_of(b);
    let mut i: usize = 0;
    assert(va@.skip(0) =~= va@);
    assert(vb@.skip(0) =~= vb@);
    while i < va.len() && i < vb.len() && va[i] == vb[i]
        invariant
            0 <= i <= va@.len(),
            i <= vb@.len(),
            va@.take(i as int) == vb@.take(i as int),
            seq_lt(a@, b@) == seq_lt(va@.skip(i as int), vb@.skip(i as int)),
            va@ == a@,
            vb@ == b@,
        decreases va@.len() - i,
    {
        assert(va@.skip(i as int).skip(1) =~= va@.skip(i + 1));
        assert(vb@.skip(i as int).skip(1) =~= vb@.skip(i + 1));
        assert(va@.take(i + 1) =~= va@.take(i as int).push(va@[i as int]));
        assert(vb@.take(i + 1) =~= vb@.take(i as int).push(vb@[i as int]));
        i += 1;
    }
    if i == va.len() {
        i < vb.len()
    } else if i == vb.len() {
        false
    } else {
        va[i] < vb[i]
    }
}

/// `<` on strings is irreflexive.
pub proof fn lemma_seq_lt_irreflexive(a: Seq<char>)
    ensures
        !seq_lt(a, a),
    decreases a.len(),
{
    if a.len() > 0 {
        lemma_seq_lt_irreflexive(a.skip(1));
    }
}

/// `<` on strings is total on distinct strings and asymmetric.
pub proof fn lemma_seq_lt_total(a: Seq<char>, b: Seq<char>)
    ensures
        a != b ==> seq_lt(a, b) || seq_lt(b, a),
        !(seq_lt(a, b) && seq_lt(b, a)),
    decreases a.len(),
{
    if a.len() > 0 && b.len() > 0 && a[0] == b[0] {
        lemma_seq_lt_total(a.skip(1), b.skip(1));
        if a.skip(1) == b.skip(1) {
            assert(a =~= seq![a[0]] + a.skip(1));
            assert(b =~= seq![b[0]] + b.skip(1));
            assert(a == b);
        }
    } else if a.len() == 0 && b.len() == 0 {
        assert(a =~= b);
    } else if a.len() > 0 && b.len() > 0 {
        assert((a[0] as int) != (b[0] as int));
    }
}

/// `<` on strings is transitive.
pub proof fn lemma_seq_lt_transitive(a: Seq<char>, b: Seq<char>, c: Seq<char>)
    requires
        seq_lt(a, b),
        seq_lt(b, c),
    ensures
        seq_lt(a, c),
    decreases a.len(),
{
    if a.len() > 0 && b.len() > 0 && c.len() > 0 && a[0] == b[0] && b[0] == c[0] {
        lemma_seq_lt_transitive(a.skip(1), b.skip(1), c.skip(1));
    }
}

/// The value `str::parse::<i64>` gives: an optional sign, then at least
/// one digit, with a value that fits.
pub open spec fn parse_i64(s: Seq<char>) -> Option<i64> {
    let neg = s.len() > 0 && s[0] == '-';
    let t = signless_part(s);
    if t.len() == 0 || !all_digits(t) {
        None
    } else if neg {
        if digits_value(t) <= 9223372036854775808 {
            Some((-(digits_value(t) as int)) as i64)
        } else {
            None
        }
    } else if digits_value(t) <= 9223372036854775807 {
        Some(digits_value(t) as i64)
    } else {
        None
    }
}

/// `s` without one leading sign.
pub open spec fn signless_part(s: Seq<char>) -> Seq<char> {
    if s.len() > 0 && (s[0] == '+' || s[0] == '-') {
        s.skip(1)
    } else {
        s
    }
}

/// Parses `v[lo..hi]` as `str::parse::<i64>` does.
pub fn parse_i64_range(v: &Vec<char>, lo: usize, hi: usize) -> (r: Option<i64>)
    requires
        lo <= hi <= v@.len(),
    ensures
        r == parse_i64(v@.subrange(lo as int, hi as int)),
{
    let ghost s = v@.subrange(lo as int, hi as int);
    let neg = lo < hi && v[lo] == '-';
    let mut a = lo;
    if lo < hi && (v[lo] == '+' || v[lo] == '-') {
        a += 1;
    }
    let ghost t = v@.subrange(a as int, hi as int);
    assert(t =~= signless_part(s));
    if a == hi {
        return None;
    }
    let bound: u64 = if neg {
        9223372036854775808
    } else {
        9223372036854775807
    };
    let mut acc: u64 = 0;
    let mut i = a;
    while i < hi
        invariant
            lo <= a <= i <= hi <= v@.len(),
            t == v@.subrange(a as int, hi as int),
            s == v@.subrange(lo as int, hi as int),
            t == signless_part(s),
            neg == (s.len() > 0 && s[0] == '-'),
            t.len() > 0,
            bound == if neg {
                9223372036854775808u64
            } else {
                9223372036854775807u64
            },
            forall|k: int| a <= k < i ==> is_digit(#[trigger] v@[k]),
            acc as nat == digits_value(v@.subrange(a as int, i as int)),
            acc <= bound,
        decreases hi - i,
    {
        let c = v[i];
        if !('0' <= c && c <= '9') {
            assert(t[i - a] == c);
            assert(!all_digits(t));
            return None;
        }
        assert(v@.subrange(a as int, i + 1).drop_last() =~= v@.subrange(a as int, i as int));
        let d = (c as u64) - ('0' as u64);
        if acc > (bound - d) / 10 {
            proof {
                let j = (i + 1 - a) as int;
                assert(digits_value(v@.subrange(a as int, i + 1)) == acc * 10 + d);
                assert(acc * 10 + d > bound) by (nonlinear_arith)
                    requires
                        acc > (bound - d) / 10,
                        d <= 9,
                        bound >= 9,
                ;
                assert(v@.subrange(a as int, i + 1) =~= t.take(j));
                if all_digits(t) {
                    lemma_digits_value_prefix(t, j);
                }
            }
            return None;
        }
        assert(acc * 10 + d <= bound) by (nonlinear_arith)
            requires
                acc <= (bound - d) / 10,
                d <= 9,
                bound >= 9,
        ;
        acc = acc * 10 + d;
        assert(digits_value(v@.subrange(a as int, i + 1)) == acc);
        i += 1;
    }
    assert(v@.subrange(a as int, hi as int) == t);
    assert forall|k: int| 0 <= k < t.len() implies is_digit(#[trigger] t[k]) by {
        assert(t[k] == v@[k + a]);
    }
    assert(all_digits(t));
    if neg {
        if acc == 9223372036854775808 {
            Some(i64::MIN)
        } else {
            Some(-(acc as i64))
        }
    } else {
        Some(acc as i64)
    }
}

/// `s` in lower case, as `str::to_lowercase` maps it: each character by
/// its Unicode lowercase mapping.
pub uninterp spec fn unicode_lowercase(s: Seq<char>) -> Seq<char>;

/// `str::to_lowercase`.  The contract claims only that the result is the
/// Unicode lowercase mapping of the argument, which depends on nothing
/// else.
#[verifier::external_body]
pub(crate) fn to_lowercase(s: &str) -> (out: String)
    ensures
        out@ == unicode_lowercase(s@),
{
    s.to_lowercase()
}

} // verus!

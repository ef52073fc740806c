//! The assistant's conversation state and the processing of its replies:
//! fenced code blocks, runnable command snippets and transcript sanitising.
use vstd::prelude::*;

use crate::text::{
    chars_of, contains, ends_with, find_char_from, find_char_from_exec, find_from,
    find_from_exec, join_newline, join_with_newline, lemma_find_char_from_bounds,
    lemma_find_from_bounds, lines, lines_of, lower_seq, lowercase_string, push_range, push_str,
    starts_with, str_contains, str_ends_with, str_eq, str_starts_with, string_from_chars,
    string_from_range, string_push, trim, trim_bounds, trim_end, trim_string, views, is_ws,
    all_ws, trim_start, lemma_trim_start_ws_prefix, lemma_trim_start_concat, lemma_trim_end_ws_suffix,
    lemma_trim_end_concat, lemma_trim_after_side, lemma_trim_all_ws, lines_from, strip_line_end,
};

verus! {

/// Who wrote a message in the assistant conversation.
#[derive(Clone, Copy, Debug, PartialEq, Eq, Structural)]
pub enum AssistantRole {
    User,
    Assistant,
    System,
}

/// One message of the conversation.
#[derive(Clone, Debug)]
pub struct AssistantMessage {
    pub role: AssistantRole,
    pub content: String,
}

/// The assistant's conversation and the bookkeeping of the request in flight.
pub struct AssistantState {
    pub messages: Vec<AssistantMessage>,
    pub in_flight: bool,
    pub active_request_id: Option<u64>,
    pub next_request_id: u64,
    pub target_panel_id: Option<usize>,
    pub target_follows_focus: bool,
    pub attach_selection: bool,
    pub attach_terminal_context: bool,
}

impl Default for AssistantState {
    /// The initial state: no messages, nothing in flight, ids start at 1.
    fn default() -> (s: Self)
        ensures
            s.wf(),
            s.messages@.len() == 0,
            !s.in_flight,
            s.active_request_id is None,
            s.next_request_id == 1,
            s.target_panel_id is None,
            s.target_follows_focus,
            !s.attach_selection,
            !s.attach_terminal_context,
    {
        AssistantState {
            messages: Vec::new(),
            in_flight: false,
            active_request_id: None,
            next_request_id: 1,
            target_panel_id: None,
            target_follows_focus: true,
            attach_selection: false,
            attach_terminal_context: false,
        }
    }
}

/// `b` has the same target and attachment settings as `a`.
pub open spec fn settings_kept(a: AssistantState, b: AssistantState) -> bool {
    &&& b.target_panel_id == a.target_panel_id
    &&& b.target_follows_focus == a.target_follows_focus
    &&& b.attach_selection == a.attach_selection
    &&& b.attach_terminal_context == a.attach_terminal_context
}

impl AssistantState {
    /// A request is in flight exactly when there is an active request id.
    pub open spec fn wf(&self) -> bool {
        self.in_flight <==> self.active_request_id is Some
    }

    /// Forgets the conversation and any request in flight.
    pub fn clear(&mut self)
        ensures
            settings_kept(*old(self), *final(self)),
            final(self).wf(),
            final(self).messages@.len() == 0,
            !final(self).in_flight,
            final(self).active_request_id is None,
            final(self).next_request_id == old(self).next_request_id,
    {
        self.messages.clear();
        self.in_flight = false;
        self.active_request_id = None;
    }

    /// Appends a message with its content trimmed; blank content is dropped.
    pub fn push(&mut self, role: AssistantRole, content: &str)
        ensures
            settings_kept(*old(self), *final(self)),
            trim(content@).len() == 0 ==> final(self).messages@ == old(self).messages@,
            trim(content@).len() > 0 ==> {
                &&& final(self).messages@.len() == old(self).messages@.len() + 1
                &&& final(self).messages@.take(old(self).messages@.len() as int)
                    == old(self).messages@
                &&& final(self).messages@.last().role == role
                &&& final(self).messages@.last().content@ == trim(content@)
            },
            final(self).in_flight == old(self).in_flight,
            final(self).active_request_id == old(self).active_request_id,
            final(self).next_request_id == old(self).next_request_id,
    {
        let v = chars_of(content);
        let (a, b) = trim_bounds(&v, 0, v.len());
        assert(v@.subrange(0, v@.len() as int) == v@);
        if a == b {
            return;
        }
        let trimmed = string_from_range(&v, a, b);
        let ghost before = self.messages@;
        self.messages.push(AssistantMessage { role, content: trimmed });
        assert(self.messages@.take(before.len() as int) =~= before);
    }

    /// The request bookkeeping of the state.
    pub open spec fn requests(&self) -> RequestModel {
        RequestModel {
            in_flight: self.in_flight,
            active: self.active_request_id,
            next_id: self.next_request_id,
        }
    }

    /// Starts a request: it becomes the active one, and the id counter moves on.
    pub fn begin_request(&mut self) -> (id: u64)
        ensures
            settings_kept(*old(self), *final(self)),
            final(self).wf(),
            (final(self).requests(), id) == begin_spec(old(self).requests()),
            final(self).messages@ == old(self).messages@,
    {
        let id = self.next_request_id;
        self.next_request_id = self.next_request_id.saturating_add(1);
        self.in_flight = true;
        self.active_request_id = Some(id);
        id
    }

    /// Finishes the active request if `request_id` is it; returns whether it was.
    pub fn finish_request(&mut self, request_id: u64) -> (done: bool)
        ensures
            settings_kept(*old(self), *final(self)),
            old(self).wf() ==> final(self).wf(),
            (final(self).requests(), done) == finish_spec(old(self).requests(), request_id),
            final(self).messages@ == old(self).messages@,
    {
        let is_active = match self.active_request_id {
            Some(active) => active == request_id,
            None => false,
        };
        if !is_active {
            return false;
        }
        self.in_flight = false;
        self.active_request_id = None;
        true
    }

    /// Cancels the request in flight, if any; returns whether there was one.
    pub fn cancel_request(&mut self) -> (cancelled: bool)
        ensures
            settings_kept(*old(self), *final(self)),
            old(self).wf() ==> final(self).wf(),
            (final(self).requests(), cancelled) == cancel_spec(old(self).requests()),
            final(self).messages@ == old(self).messages@,
    {
        if !self.in_flight {
            return false;
        }
        self.in_flight = false;
        self.active_request_id = None;
        true
    }
}

/// The request bookkeeping of an [`AssistantState`].
pub struct RequestModel {
    pub in_flight: bool,
    pub active: Option<u64>,
    pub next_id: u64,
}

/// `begin_request`: the next id becomes active; the counter saturates.
pub open spec fn begin_spec(m: RequestModel) -> (RequestModel, u64) {
    (
        RequestModel {
            in_flight: true,
            active: Some(m.next_id),
            next_id: if m.next_id == u64::MAX {
                u64::MAX
            } else {
                (m.next_id + 1) as u64
            },
        },
        m.next_id,
    )
}

/// `finish_request(id)`: clears the request when `id` is the active one.
pub open spec fn finish_spec(m: RequestModel, id: u64) -> (RequestModel, bool) {
    if m.active == Some(id) {
        (RequestModel { in_flight: false, active: None, next_id: m.next_id }, true)
    } else {
        (m, false)
    }
}

/// `cancel_request`: clears whatever request is in flight.
pub open spec fn cancel_spec(m: RequestModel) -> (RequestModel, bool) {
    if m.in_flight {
        (RequestModel { in_flight: false, active: None, next_id: m.next_id }, true)
    } else {
        (m, false)
    }
}

/// A request that was begun is finished only by its own id; once cancelled
/// (or finished) it cannot be finished again, and nothing stays in flight.
pub proof fn law_request_lifecycle(m: RequestModel, other: u64)
    requires
        m.in_flight <==> m.active is Some,
    ensures
        ({
            let (m1, id) = begin_spec(m);
            &&& m1.in_flight && m1.active == Some(id)
            &&& other != id ==> finish_spec(m1, other) == (m1, false)
            &&& finish_spec(m1, id).1
            &&& !finish_spec(m1, id).0.in_flight
            &&& cancel_spec(m1).1
            &&& !cancel_spec(m1).0.in_flight
            &&& finish_spec(cancel_spec(m1).0, id).1 == false
            &&& finish_spec(finish_spec(m1, id).0, id).1 == false
        }),
{
}

/// `s` cut to its first `max_chars` characters.
pub open spec fn truncated(s: Seq<char>, max_chars: nat) -> Seq<char> {
    if s.len() <= max_chars {
        s
    } else {
        s.take(max_chars as int)
    }
}

/// The first `max_chars` characters of `s` (all of it when it is shorter).
pub fn truncate_text(s: &str, max_chars: usize) -> (out: String)
    ensures
        out@ == truncated(s@, max_chars as nat),
{
    let v = chars_of(s);
    if v.len() <= max_chars {
        let out = string_from_chars(&v);
        return out;
    }
    string_from_range(&v, 0, max_chars)
}

// ---------------------------------------------------------------------------
// Fenced code blocks
// ---------------------------------------------------------------------------

/// A fenced code block of a reply: its optional language tag and its body.
#[derive(Clone, Debug, PartialEq, Eq)]
pub struct FencedCodeBlock {
    pub lang: Option<String>,
    pub body: String,
}

/// The abstract value of a fenced code block.
pub struct FencedBlockModel {
    pub lang: Option<Seq<char>>,
    pub body: Seq<char>,
}

impl FencedCodeBlock {
    pub open spec fn model(&self) -> FencedBlockModel {
        FencedBlockModel {
            lang: match self.lang {
                Some(l) => Some(l@),
                None => None,
            },
            body: self.body@,
        }
    }
}

/// The models of a list of blocks.
pub open spec fn block_models(bs: Seq<FencedCodeBlock>) -> Seq<FencedBlockModel> {
    bs.map_values(|b: FencedCodeBlock| b.model())
}

/// The fence that opens and closes a code block.
pub open spec fn fence() -> Seq<char> {
    seq!['`', '`', '`']
}

/// The block whose fence opens at `open`, whose tag line ends at `lang_end`
/// and whose closing fence is at `close`, if its body is not blank.
pub open spec fn block_at(t: Seq<char>, open: int, lang_end: int, close: int) -> Seq<
    FencedBlockModel,
> {
    let lang_raw = trim(t.subrange(open + 3, lang_end));
    let body = trim(t.subrange(lang_end + 1, close));
    if body.len() > 0 {
        seq![
            FencedBlockModel {
                lang: if lang_raw.len() > 0 {
                    Some(lang_raw)
                } else {
                    None
                },
                body,
            },
        ]
    } else {
        seq![]
    }
}

/// The complete fenced blocks of `t[ix..]`: each opens with a fence, has a
/// tag line ending in a newline, and is closed by the next fence.  A fence
/// with no tag-line end or no closing fence ends the scan.
pub open spec fn blocks_from(t: Seq<char>, ix: int) -> Seq<FencedBlockModel>
    decreases t.len() - ix,
{
    if ix < 0 || ix >= t.len() {
        seq![]
    } else {
        proof {
            lemma_find_from_bounds(t, fence(), ix);
        }
        match find_from(t, fence(), ix) {
            None => seq![],
            Some(open) => match find_char_from(t, '\n', open + 3) {
                None => seq![],
                Some(lang_end) => {
                    proof {
                        lemma_find_char_from_bounds(t, '\n', open + 3);
                        lemma_find_from_bounds(t, fence(), lang_end + 1);
                    }
                    match find_from(t, fence(), lang_end + 1) {
                        None => seq![],
                        Some(close) => block_at(t, open, lang_end, close) + blocks_from(
                            t,
                            close + 3,
                        ),
                    }
                },
            },
        }
    }
}

/// The text of `t[ix..]` with every complete fenced block removed; a fence
/// that is not closed removes everything from it on.
pub open spec fn stripped_from(t: Seq<char>, ix: int) -> Seq<char>
    decreases t.len() - ix,
{
    if ix < 0 || ix >= t.len() {
        seq![]
    } else {
        proof {
            lemma_find_from_bounds(t, fence(), ix);
        }
        match find_from(t, fence(), ix) {
            None => t.subrange(ix, t.len() as int),
            Some(open) => t.subrange(ix, open) + match find_char_from(t, '\n', open + 3) {
                None => seq![],
                Some(lang_end) => {
                    proof {
                        lemma_find_char_from_bounds(t, '\n', open + 3);
                        lemma_find_from_bounds(t, fence(), lang_end + 1);
                    }
                    match find_from(t, fence(), lang_end + 1) {
                        None => seq![],
                        Some(close) => stripped_from(t, close + 3),
                    }
                },
            },
        }
    }
}

/// Extracts the fenced code blocks (```` ```lang ... ``` ````) of a reply.
/// Blocks with a blank body are skipped; the tag and the body are trimmed.
pub fn extract_fenced_code_blocks(text: &str) -> (out: Vec<FencedCodeBlock>)
    ensures
        block_models(out@) == blocks_from(text@, 0),
{
    let t = chars_of(text);
    let fence_v = chars_of("```");
    proof {
        reveal_strlit("```");
        assert(fence_v@ =~= fence());
    }
    let mut out: Vec<FencedCodeBlock> = Vec::new();
    let mut ix: usize = 0;
    while ix < t.len()
        invariant
            t@ == text@,
            fence_v@ == fence(),
            blocks_from(t@, 0) == block_models(out@) + blocks_from(t@, ix as int),
        ensures
            blocks_from(t@, 0) == block_models(out@),
        decreases t@.len() - ix,
    {
        proof {
            lemma_find_from_bounds(t@, fence(), ix as int);
        }
        let open_ix = match find_from_exec(&t, &fence_v, ix) {
            None => {
                assert(blocks_from(t@, ix as int) =~= Seq::<FencedBlockModel>::empty());
                assert(block_models(out@) + Seq::<FencedBlockModel>::empty() =~= block_models(
                    out@,
                ));
                break;
            },
            Some(o) => o,
        };
        proof {
            lemma_find_char_from_bounds(t@, '\n', open_ix + 3);
        }
        let lang_end = match find_char_from_exec(&t, '\n', open_ix + 3) {
            None => {
                assert(blocks_from(t@, ix as int) =~= Seq::<FencedBlockModel>::empty());
                assert(block_models(out@) + Seq::<FencedBlockModel>::empty() =~= block_models(
                    out@,
                ));
                break;
            },
            Some(e) => e,
        };
        proof {
            lemma_find_from_bounds(t@, fence(), lang_end + 1);
        }
        let close_ix = match find_from_exec(&t, &fence_v, lang_end + 1) {
            None => {
                assert(blocks_from(t@, ix as int) =~= Seq::<FencedBlockModel>::empty());
                assert(block_models(out@) + Seq::<FencedBlockModel>::empty() =~= block_models(
                    out@,
                ));
                break;
            },
            Some(c) => c,
        };
        let (la, lb) = trim_bounds(&t, open_ix + 3, lang_end);
        let (ba, bb) = trim_bounds(&t, lang_end + 1, close_ix);
        let ghost before = out@;
        if ba < bb {
            let lang = if la < lb {
                Some(string_from_range(&t, la, lb))
            } else {
                None
            };
            let body = string_from_range(&t, ba, bb);
            out.push(FencedCodeBlock { lang, body });
            assert(block_models(out@) =~= block_models(before) + block_at(
                t@,
                open_ix as int,
                lang_end as int,
                close_ix as int,
            ));
        } else {
            assert(block_at(t@, open_ix as int, lang_end as int, close_ix as int) =~= Seq::<
                FencedBlockModel,
            >::empty());
            assert(block_models(out@) =~= block_models(before) + block_at(
                t@,
                open_ix as int,
                lang_end as int,
                close_ix as int,
            ));
        }
        assert(blocks_from(t@, ix as int) == block_at(
            t@,
            open_ix as int,
            lang_end as int,
            close_ix as int,
        ) + blocks_from(t@, close_ix + 3));
        assert(block_models(before) + blocks_from(t@, ix as int) =~= block_models(out@)
            + blocks_from(t@, close_ix + 3));
        ix = close_ix + 3;
    }
    out
}

/// Removes every complete fenced code block from a reply and trims the rest.
pub fn strip_fenced_code_blocks(text: &str) -> (out: String)
    ensures
        out@ == trim(stripped_from(text@, 0)),
{
    let t = chars_of(text);
    let fence_v = chars_of("```");
    proof {
        reveal_strlit("```");
        assert(fence_v@ =~= fence());
    }
    let mut acc = String::new();
    let mut ix: usize = 0;
    while ix < t.len()
        invariant_except_break
            stripped_from(t@, 0) == acc@ + stripped_from(t@, ix as int),
        invariant
            t@ == text@,
            fence_v@ == fence(),
        ensures
            stripped_from(t@, 0) == acc@,
        decreases t@.len() - ix,
    {
        proof {
            lemma_find_from_bounds(t@, fence(), ix as int);
        }
        let open_ix = match find_from_exec(&t, &fence_v, ix) {
            None => {
                let ghost before = acc@;
                push_range(&mut acc, &t, ix, t.len());
                assert(stripped_from(t@, ix as int) == t@.subrange(ix as int, t@.len() as int));
                break;
            },
            Some(o) => o,
        };
        let ghost before = acc@;
        push_range(&mut acc, &t, ix, open_ix);
        proof {
            lemma_find_char_from_bounds(t@, '\n', open_ix + 3);
        }
        let lang_end = match find_char_from_exec(&t, '\n', open_ix + 3) {
            None => {
                assert(stripped_from(t@, ix as int) =~= t@.subrange(ix as int, open_ix as int));
                assert(acc@ =~= before + t@.subrange(ix as int, open_ix as int));
                break;
            },
            Some(e) => e,
        };
        proof {
            lemma_find_from_bounds(t@, fence(), lang_end + 1);
        }
        let close_ix = match find_from_exec(&t, &fence_v, lang_end + 1) {
            None => {
                assert(stripped_from(t@, ix as int) =~= t@.subrange(ix as int, open_ix as int));
                assert(acc@ =~= before + t@.subrange(ix as int, open_ix as int));
                break;
            },
            Some(c) => c,
        };
        assert(stripped_from(t@, ix as int) == t@.subrange(ix as int, open_ix as int)
            + stripped_from(t@, close_ix + 3));
        assert(before + stripped_from(t@, ix as int) =~= acc@ + stripped_from(t@, close_ix + 3));
        ix = close_ix + 3;
    }
    trim_string(acc.as_str())
}

// ---------------------------------------------------------------------------
// Runnable command snippets
// ---------------------------------------------------------------------------

/// A block may be run in a terminal when it has no tag, or a shell-like tag.
pub open spec fn lang_allows_run(lang: Option<Seq<char>>) -> bool {
    match lang {
        None => true,
        Some(l) => {
            let x = lower_seq(trim(l));
            ||| x.len() == 0
            ||| x == "sh"@
            ||| x == "bash"@
            ||| x == "zsh"@
            ||| x == "shell"@
            ||| x == "console"@
            ||| x == "terminal"@
        },
    }
}

/// Some line of `ls` is blank.
pub open spec fn has_blank_line(ls: Seq<Seq<char>>) -> bool {
    exists|i: int| 0 <= i < ls.len() && #[trigger] trim(ls[i]).len() == 0
}

/// A line that only makes sense inside a script: a continuation or an
/// indented line.
pub open spec fn script_line(l: Seq<char>) -> bool {
    ||| ends_with(trim_end(l), seq!['\\'])
    ||| starts_with(l, seq![' '])
    ||| starts_with(l, seq!['\t'])
}

/// The lower-cased body names a shell control structure on a line of its own.
pub open spec fn has_control_keyword(lower: Seq<char>) -> bool {
    ||| contains(lower, "\nif "@)
    ||| contains(lower, "\nfor "@)
    ||| contains(lower, "\nwhile "@)
    ||| contains(lower, "\ncase "@)
    ||| contains(lower, "\nfunction "@)
    ||| contains(lower, "\ndo\n"@)
    ||| contains(lower, "\nthen\n"@)
}

/// The body reads as one multi-line script rather than separate commands.
pub open spec fn looks_like_script(body: Seq<char>) -> bool {
    ||| contains(body, "<<"@)
    ||| (exists|i: int| 0 <= i < lines(body).len() && #[trigger] script_line(lines(body)[i]))
    ||| has_control_keyword(lower_seq(body))
}

/// The trimmed buffer as a snippet, unless it is blank.
pub open spec fn flush(buf: Seq<char>) -> Seq<Seq<char>> {
    if trim(buf).len() > 0 {
        seq![trim(buf)]
    } else {
        seq![]
    }
}

/// Snippets completed so far and the paragraph being collected, after the
/// lines `ls`: blank lines end a paragraph.
pub open spec fn para_state(ls: Seq<Seq<char>>) -> (Seq<Seq<char>>, Seq<char>)
    decreases ls.len(),
{
    if ls.len() == 0 {
        (seq![], seq![])
    } else {
        let (done, buf) = para_state(ls.drop_last());
        if trim(ls.last()).len() == 0 {
            (done + flush(buf), seq![])
        } else {
            (done, buf + ls.last() + seq!['\n'])
        }
    }
}

/// The paragraphs of `ls`, each trimmed, as snippets.
pub open spec fn paragraphs(ls: Seq<Seq<char>>) -> Seq<Seq<char>> {
    para_state(ls).0 + flush(para_state(ls).1)
}

/// Each non-blank, non-comment line, trimmed, as a snippet.
pub open spec fn simple_commands(ls: Seq<Seq<char>>) -> Seq<Seq<char>>
    decreases ls.len(),
{
    if ls.len() == 0 {
        seq![]
    } else {
        let x = trim(ls.last());
        simple_commands(ls.drop_last()) + if x.len() > 0 && x[0] != '#' {
            seq![x]
        } else {
            seq![]
        }
    }
}

/// The runnable snippets of one block.
pub open spec fn block_snippets(b: FencedBlockModel) -> Seq<Seq<char>> {
    if !lang_allows_run(b.lang) {
        seq![]
    } else {
        let body = trim(b.body);
        if body.len() == 0 {
            seq![]
        } else if has_blank_line(lines(body)) || looks_like_script(body) {
            paragraphs(lines(body))
        } else {
            simple_commands(lines(body))
        }
    }
}

/// The runnable snippets of a list of blocks, in order.
pub open spec fn snippets_of(bs: Seq<FencedBlockModel>) -> Seq<Seq<char>>
    decreases bs.len(),
{
    if bs.len() == 0 {
        seq![]
    } else {
        snippets_of(bs.drop_last()) + block_snippets(bs.last())
    }
}

/// The lines `ls`, each followed by a newline.
spec fn newline_ended(ls: Seq<Seq<char>>) -> Seq<char>
    decreases ls.len(),
{
    if ls.len() == 0 {
        seq![]
    } else {
        newline_ended(ls.drop_last()) + ls.last() + seq!['\n']
    }
}

/// Without blank lines, nothing is completed and the paragraph collects
/// every line.
proof fn lemma_para_state_no_blank(ls: Seq<Seq<char>>)
    requires
        forall|i: int| 0 <= i < ls.len() ==> trim(#[trigger] ls[i]).len() > 0,
    ensures
        para_state(ls) == (Seq::<Seq<char>>::empty(), newline_ended(ls)),
    decreases ls.len(),
{
    if ls.len() > 0 {
        lemma_para_state_no_blank(ls.drop_last());
        assert(trim(ls[ls.len() - 1]).len() > 0);
    }
}

proof fn lemma_newline_ended_concat(a: Seq<Seq<char>>, b: Seq<Seq<char>>)
    ensures
        newline_ended(a + b) == newline_ended(a) + newline_ended(b),
    decreases b.len(),
{
    if b.len() == 0 {
        assert(a + b =~= a);
        assert(newline_ended(a) + newline_ended(b) =~= newline_ended(a));
    } else {
        assert((a + b).drop_last() =~= a + b.drop_last());
        assert((a + b).last() == b.last());
        lemma_newline_ended_concat(a, b.drop_last());
        assert(newline_ended(a + b) =~= newline_ended(a) + newline_ended(b));
    }
}

/// With no carriage return and no final newline, the lines of `s[i..]`
/// each followed by a newline are `s[i..]` and one newline.
proof fn lemma_lines_rejoin(s: Seq<char>, i: int)
    requires
        0 <= i < s.len(),
        s.last() != '\n',
        forall|k: int| 0 <= k < s.len() ==> s[k] != '\r',
    ensures
        newline_ended(lines_from(s, i)) == s.subrange(i, s.len() as int) + seq!['\n'],
    decreases s.len() - i,
{
    lemma_find_char_from_bounds(s, '\n', i);
    match find_char_from(s, '\n', i) {
        Some(j) => {
            let piece = s.subrange(i, j);
            if piece.len() > 0 {
                assert(piece.last() == s[j - 1]);
            }
            assert(strip_line_end(piece, true) == piece);
            assert(j + 1 < s.len());
            lemma_lines_rejoin(s, j + 1);
            lemma_newline_ended_concat(seq![piece], lines_from(s, j + 1));
            assert(seq![piece].drop_last() =~= Seq::<Seq<char>>::empty());
            assert(newline_ended(Seq::<Seq<char>>::empty()) == Seq::<char>::empty());
            assert(seq![piece].last() == piece);
            assert(newline_ended(seq![piece]) =~= piece + seq!['\n']);
            assert(s.subrange(i, s.len() as int) =~= piece + seq![s[j]] + s.subrange(j + 1, s.len() as int));
            assert(newline_ended(lines_from(s, i)) =~= s.subrange(i, s.len() as int) + seq!['\n']);
        },
        None => {
            let rest = s.subrange(i, s.len() as int);
            assert(lines_from(s, i) == seq![rest]);
            assert(seq![rest].drop_last() =~= Seq::<Seq<char>>::empty());
            assert(newline_ended(Seq::<Seq<char>>::empty()) == Seq::<char>::empty());
            assert(seq![rest].last() == rest);
            assert(newline_ended(seq![rest]) =~= rest + seq!['\n']);
        },
    }
}

/// A shell block whose trimmed body uses a heredoc (`<<`) and has no blank
/// line is run as one script: its one snippet is the whole trimmed body,
/// never a line of it on its own.  (Bodies with carriage returns are left
/// out: their lines are rejoined with bare newlines.)
pub proof fn law_heredoc_block_is_one_snippet(b: FencedBlockModel)
    requires
        lang_allows_run(b.lang),
        contains(trim(b.body), "<<"@),
        forall|i: int|
            0 <= i < lines(trim(b.body)).len() ==> trim(#[trigger] lines(trim(b.body))[i]).len() > 0,
        forall|k: int| 0 <= k < b.body.len() ==> b.body[k] != '\r',
    ensures
        block_snippets(b) == seq![trim(b.body)],
        snippets_of(seq![b]) == seq![trim(b.body)],
{
    let t = trim(b.body);
    crate::text::lemma_trim_ends(b.body);
    crate::text::lemma_trim_start_props(b.body);
    crate::text::lemma_trim_end_props(trim_start(b.body));
    lemma_find_from_bounds(t, "<<"@, 0);
    reveal_strlit("<<");
    assert(t.len() > 0);
    assert forall|k: int| 0 <= k < t.len() implies t[k] != '\r' by {
        let ts = trim_start(b.body);
        assert(t[k] == ts[k]);
        assert(ts[k] == b.body[b.body.len() - ts.len() + k]);
    }
    assert(is_ws('\n'));
    assert(t.last() != '\n');
    assert(!has_blank_line(lines(t)));
    assert(looks_like_script(t));
    lemma_para_state_no_blank(lines(t));
    lemma_lines_rejoin(t, 0);
    assert(t.subrange(0, t.len() as int) =~= t);
    let buf = t + seq!['\n'];
    assert(para_state(lines(t)).1 == buf);
    assert(paragraphs(lines(t)) =~= flush(buf));
    assert(!all_ws(t)) by {
        assert(!is_ws(t[0]));
    }
    lemma_trim_start_concat(t, seq!['\n']);
    assert(trim_start(t) == t);
    assert(all_ws(seq!['\n'])) by {
        assert forall|k: int| 0 <= k < seq!['\n'].len() implies is_ws(#[trigger] seq!['\n'][k]) by {
            assert(seq!['\n'][k] == '\n');
        }
    }
    lemma_trim_end_ws_suffix(t, seq!['\n']);
    assert(trim_end(t) == t);
    assert(trim(buf) == t);
    assert(block_snippets(b) == seq![t]);
    assert(seq![b].drop_last() =~= Seq::<FencedBlockModel>::empty());
    assert(snippets_of(Seq::<FencedBlockModel>::empty()) == Seq::<Seq<char>>::empty());
    assert(seq![b].last() == b);
    assert(snippets_of(seq![b]) =~= seq![t]);
}

/// Whether the tag of a block allows running it in a terminal.
fn lang_allows_terminal_run(lang: &Option<String>) -> (b: bool)
    ensures
        b == lang_allows_run(
            match lang {
                Some(l) => Some(l@),
                None => None,
            },
        ),
{
    match lang {
        None => true,
        Some(l) => {
            let t = trim_string(l.as_str());
            let x = lowercase_string(t.as_str());
            let xs = x.as_str();
            x.as_str().is_empty() || str_eq(xs, "sh") || str_eq(xs, "bash") || str_eq(xs, "zsh")
                || str_eq(xs, "shell") || str_eq(xs, "console") || str_eq(xs, "terminal")
        },
    }
}

/// Whether some line is blank.
fn any_blank_line(ls: &Vec<String>) -> (b: bool)
    ensures
        b == has_blank_line(views(ls@)),
{
    let mut i: usize = 0;
    while i < ls.len()
        invariant
            0 <= i <= ls@.len(),
            forall|j: int| 0 <= j < i ==> trim(#[trigger] views(ls@)[j]).len() != 0,
        decreases ls@.len() - i,
    {
        let t = trim_string(ls[i].as_str());
        assert(views(ls@)[i as int] == ls@[i as int]@);
        if t.as_str().is_empty() {
            return true;
        }
        i += 1;
    }
    false
}

/// Whether the line is a continuation or indented line.
fn is_script_line(l: &str) -> (b: bool)
    ensures
        b == script_line(l@),
{
    let v = chars_of(l);
    let (_a, e) = trim_end_bound(&v);
    let cont = e > 0 && v[e - 1] == '\\';
    proof {
        let te = trim_end(l@);
        assert(te == v@.subrange(0, e as int));
        if e > 0 {
            assert(te.subrange(te.len() - 1, te.len() as int) =~= seq![v@[e - 1]]);
        }
        if cont {
            assert(te.subrange(te.len() - 1, te.len() as int) =~= seq!['\\']);
        }
    }
    let sp = v.len() > 0 && v[0] == ' ';
    let tab = v.len() > 0 && v[0] == '\t';
    proof {
        if v@.len() > 0 {
            assert(l@.subrange(0, 1) =~= seq![v@[0]]);
            assert(l@.subrange(0, 1)[0] == v@[0]);
            assert(seq![' '][0] == ' ');
            assert(seq!['\t'][0] == '\t');
            if v@[0] == ' ' {
                assert(l@.subrange(0, 1) =~= seq![' ']);
            }
            if v@[0] == '\t' {
                assert(l@.subrange(0, 1) =~= seq!['\t']);
            }
        }
        assert(sp == starts_with(l@, seq![' ']));
        assert(tab == starts_with(l@, seq!['\t']));
        let te = trim_end(l@);
        assert(te.len() == e);
        assert(seq!['\\'][0] == '\\');
        if e > 0 {
            assert(te[e - 1] == v@[e - 1]);
            assert(te.subrange(e - 1, e as int)[0] == v@[e - 1]);
            if v@[e - 1] == '\\' {
                assert(te.subrange(e - 1, e as int) =~= seq!['\\']);
            }
        }
        assert(cont == ends_with(te, seq!['\\']));
    }
    cont || sp || tab
}

/// The end of `v` with trailing whitespace removed.
fn trim_end_bound(v: &Vec<char>) -> (r: (usize, usize))
    ensures
        r.1 <= v@.len(),
        v@.subrange(0, r.1 as int) == trim_end(v@),
{
    let mut b = v.len();
    assert(v@.subrange(0, v@.len() as int) =~= v@);
    while b > 0 && crate::text::is_whitespace(v[b - 1])
        invariant
            b <= v@.len(),
            trim_end(v@) == trim_end(v@.subrange(0, b as int)),
        decreases b,
    {
        assert(v@.subrange(0, b as int).drop_last() =~= v@.subrange(0, b - 1));
        b -= 1;
    }
    assert(v@.subrange(0, v@.len() as int) =~= v@);
    (0, b)
}

/// Whether the body reads as one multi-line script.
fn looks_like_multi_line_script(body: &str) -> (b: bool)
    ensures
        b == looks_like_script(body@),
{
    if str_contains(body, "<<") {
        return true;
    }
    let ls = lines_of(body);
    let mut i: usize = 0;
    while i < ls.len()
        invariant
            0 <= i <= ls@.len(),
            views(ls@) == lines(body@),
            forall|j: int| 0 <= j < i ==> !script_line(#[trigger] lines(body@)[j]),
        decreases ls@.len() - i,
    {
        assert(views(ls@)[i as int] == ls@[i as int]@);
        if is_script_line(ls[i].as_str()) {
            return true;
        }
        i += 1;
    }
    let lower = lowercase_string(body);
    let l = lower.as_str();
    str_contains(l, "\nif ") || str_contains(l, "\nfor ") || str_contains(l, "\nwhile ")
        || str_contains(l, "\ncase ") || str_contains(l, "\nfunction ") || str_contains(
        l,
        "\ndo\n",
    ) || str_contains(l, "\nthen\n")
}

/// The snippet `buf` makes, pushed onto `out` unless it is blank.
fn push_flushed(out: &mut Vec<String>, buf: &String)
    ensures
        views(final(out)@) == views(old(out)@) + flush(buf@),
{
    let t = trim_string(buf.as_str());
    let ghost before = out@;
    if !t.as_str().is_empty() {
        out.push(t);
        assert(views(out@) =~= views(before) + seq![t@]);
    } else {
        assert(views(out@) =~= views(before) + Seq::<Seq<char>>::empty());
    }
}

/// Splits the lines into paragraphs at blank lines.
fn paragraph_snippets(ls: &Vec<String>) -> (out: Vec<String>)
    ensures
        views(out@) == paragraphs(views(ls@)),
{
    let mut out: Vec<String> = Vec::new();
    let mut buf = String::new();
    let mut i: usize = 0;
    while i < ls.len()
        invariant
            0 <= i <= ls@.len(),
            (views(out@), buf@) == para_state(views(ls@.subrange(0, i as int))),
        decreases ls@.len() - i,
    {
        let ghost prev = views(ls@.subrange(0, i as int));
        let ghost cur = views(ls@.subrange(0, i + 1));
        assert(cur.drop_last() =~= prev);
        assert(cur.last() == ls@[i as int]@);
        let line = ls[i].as_str();
        let t = trim_string(line);
        if t.as_str().is_empty() {
            push_flushed(&mut out, &buf);
            buf = String::new();
        } else {
            push_str(&mut buf, line);
            string_push(&mut buf, '\n');
        }
        i += 1;
    }
    assert(ls@.subrange(0, ls@.len() as int) =~= ls@);
    push_flushed(&mut out, &buf);
    out
}

/// Each non-blank, non-comment line, trimmed.
fn simple_command_snippets(ls: &Vec<String>) -> (out: Vec<String>)
    ensures
        views(out@) == simple_commands(views(ls@)),
{
    let mut out: Vec<String> = Vec::new();
    let mut i: usize = 0;
    while i < ls.len()
        invariant
            0 <= i <= ls@.len(),
            views(out@) == simple_commands(views(ls@.subrange(0, i as int))),
        decreases ls@.len() - i,
    {
        let ghost prev = views(ls@.subrange(0, i as int));
        let ghost cur = views(ls@.subrange(0, i + 1));
        assert(cur.drop_last() =~= prev);
        assert(cur.last() == ls@[i as int]@);
        let t = trim_string(ls[i].as_str());
        let tv = chars_of(t.as_str());
        let ghost before = out@;
        if tv.len() > 0 && tv[0] != '#' {
            out.push(t);
            assert(views(out@) =~= views(before) + seq![tv@]);
        } else {
            assert(views(out@) =~= views(before) + Seq::<Seq<char>>::empty());
        }
        i += 1;
    }
    assert(ls@.subrange(0, ls@.len() as int) =~= ls@);
    out
}

/// The runnable snippets of one block.
fn snippets_for_block(block: &FencedCodeBlock) -> (out: Vec<String>)
    ensures
        views(out@) == block_snippets(block.model()),
{
    if !lang_allows_terminal_run(&block.lang) {
        return Vec::new();
    }
    let body = trim_string(block.body.as_str());
    if body.as_str().is_empty() {
        return Vec::new();
    }
    let ls = lines_of(body.as_str());
    let has_blank_lines = any_blank_line(&ls);
    let script_like = looks_like_multi_line_script(body.as_str());
    if has_blank_lines || script_like {
        paragraph_snippets(&ls)
    } else {
        simple_command_snippets(&ls)
    }
}

/// The commands of a reply that can be run in a terminal: the bodies of its
/// shell-like fenced blocks, split into one command per line, or into
/// paragraphs when the block reads as a script or has blank lines.
pub fn extract_terminal_command_snippets(text: &str) -> (out: Vec<String>)
    ensures
        views(out@) == snippets_of(blocks_from(text@, 0)),
{
    let blocks = extract_fenced_code_blocks(text);
    let mut out: Vec<String> = Vec::new();
    let mut i: usize = 0;
    while i < blocks.len()
        invariant
            0 <= i <= blocks@.len(),
            block_models(blocks@) == blocks_from(text@, 0),
            views(out@) == snippets_of(block_models(blocks@.subrange(0, i as int))),
        decreases blocks@.len() - i,
    {
        let ghost prev = block_models(blocks@.subrange(0, i as int));
        let ghost cur = block_models(blocks@.subrange(0, i + 1));
        assert(cur.drop_last() =~= prev);
        assert(cur.last() == blocks@[i as int].model());
        let mut snippets = snippets_for_block(&blocks[i]);
        let ghost before = out@;
        let ghost add = snippets@;
        out.append(&mut snippets);
        assert(views(out@) =~= views(before) + views(add));
        i += 1;
    }
    assert(blocks@.subrange(0, blocks@.len() as int) =~= blocks@);
    out
}

// ---------------------------------------------------------------------------
// Transcript sanitising
// ---------------------------------------------------------------------------

/// A trimmed line that is a JSON tool-call payload: an object mentioning a
/// `"cmd"`, `"command"` or `"justification"` key.
pub open spec fn tool_json_payload(s: Seq<char>) -> bool {
    &&& starts_with(s, seq!['{'])
    &&& ends_with(s, seq!['}'])
    &&& {
        ||| contains(s, "\"cmd\""@)
        ||| contains(s, "\"command\""@)
        ||| contains(s, "\"justification\""@)
    }
}

/// A trimmed, non-blank line of a tool-call transcript.
pub open spec fn tool_call_line(trimmed: Seq<char>) -> bool {
    ||| contains(trimmed, "to=functions."@)
    ||| contains(trimmed, "to=shell"@)
    ||| tool_json_payload(trimmed)
}

/// The lines that stay: blank lines, and lines that are no tool-call transcript.
pub open spec fn kept_lines(ls: Seq<Seq<char>>) -> Seq<Seq<char>>
    decreases ls.len(),
{
    if ls.len() == 0 {
        seq![]
    } else {
        let l = ls.last();
        kept_lines(ls.drop_last()) + if trim(l).len() == 0 || !tool_call_line(trim(l)) {
            seq![l]
        } else {
            seq![]
        }
    }
}

/// The reply with tool-call transcript lines removed, trimmed.
pub open spec fn sanitized(text: Seq<char>) -> Seq<char> {
    trim(join_newline(kept_lines(lines(text))))
}

/// Whether a trimmed line looks like a JSON tool-call payload.
pub fn looks_like_tool_json_payload(trimmed_line: &str) -> (b: bool)
    ensures
        b == tool_json_payload(trimmed_line@),
{
    let s = trimmed_line;
    proof {
        reveal_strlit("{");
        reveal_strlit("}");
        assert("{"@ =~= seq!['{']);
        assert("}"@ =~= seq!['}']);
    }
    if !(str_starts_with(s, "{") && str_ends_with(s, "}")) {
        return false;
    }
    str_contains(s, "\"cmd\"") || str_contains(s, "\"command\"") || str_contains(
        s,
        "\"justification\"",
    )
}

/// Removes the lines of a reply that are hallucinated tool-call transcripts
/// (`to=functions.…`, `to=shell`, JSON tool payloads) and trims the result.
pub fn sanitize_assistant_reply(text: &str) -> (out: String)
    ensures
        out@ == sanitized(text@),
{
    let ls = lines_of(text);
    let mut kept: Vec<String> = Vec::new();
    let mut i: usize = 0;
    while i < ls.len()
        invariant
            0 <= i <= ls@.len(),
            views(ls@) == lines(text@),
            views(kept@) == kept_lines(views(ls@.subrange(0, i as int))),
        decreases ls@.len() - i,
    {
        let ghost prev = views(ls@.subrange(0, i as int));
        let ghost cur = views(ls@.subrange(0, i + 1));
        assert(cur.drop_last() =~= prev);
        assert(cur.last() == ls@[i as int]@);
        let line = ls[i].as_str();
        let trimmed = trim_string(line);
        let t = trimmed.as_str();
        let drop = !t.is_empty() && (str_contains(t, "to=functions.") || str_contains(
            t,
            "to=shell",
        ) || looks_like_tool_json_payload(t));
        let ghost before = kept@;
        if !drop {
            kept.push(ls[i].clone());
            assert(views(kept@) =~= views(before) + seq![cur.last()]);
        } else {
            assert(views(kept@) =~= views(before) + Seq::<Seq<char>>::empty());
        }
        i += 1;
    }
    assert(ls@.subrange(0, ls@.len() as int) =~= ls@);
    let joined = join_with_newline(&kept);
    trim_string(joined.as_str())
}

/// A sanitised reply is trimmed: it neither starts nor ends with
/// whitespace, and trimming it again changes nothing.
pub proof fn law_sanitized_is_trimmed(text: Seq<char>)
    ensures
        trim(sanitized(text)) == sanitized(text),
        sanitized(text).len() > 0 ==> !is_ws(sanitized(text)[0]) && !is_ws(sanitized(text).last()),
{
    crate::text::lemma_trim_idempotent(join_newline(kept_lines(lines(text))));
    crate::text::lemma_trim_ends(join_newline(kept_lines(lines(text))));
}

/// A line holds no line break (`\n` or `\r`).
pub open spec fn line_clean(l: Seq<char>) -> bool {
    forall|k: int| 0 <= k < l.len() ==> #[trigger] l[k] != '\n' && l[k] != '\r'
}

/// A line that sanitising keeps.
pub open spec fn line_kept(l: Seq<char>) -> bool {
    trim(l).len() == 0 || !tool_call_line(trim(l))
}

proof fn lemma_join_first(xs: Seq<Seq<char>>)
    requires
        xs.len() >= 2,
    ensures
        join_newline(xs) == xs[0] + seq!['\n'] + join_newline(xs.drop_first()),
    decreases xs.len(),
{
    if xs.len() == 2 {
        assert(xs.drop_last() =~= seq![xs[0]]);
        assert(xs.drop_first() =~= seq![xs[1]]);
        assert(join_newline(seq![xs[0]]) == xs[0]);
        assert(join_newline(seq![xs[1]]) == xs[1]);
        assert(join_newline(xs) == join_newline(xs.drop_last()) + seq!['\n'] + xs.last());
    } else {
        lemma_join_first(xs.drop_last());
        let d = xs.drop_first();
        assert(xs.drop_last().drop_first() =~= d.drop_last());
        assert(xs.drop_last()[0] == xs[0]);
        assert(d.last() == xs.last());
        assert(join_newline(d) == join_newline(d.drop_last()) + seq!['\n'] + d.last());
        assert(join_newline(xs) == join_newline(xs.drop_last()) + seq!['\n'] + xs.last());
        assert(join_newline(xs) =~= xs[0] + seq!['\n'] + join_newline(xs.drop_first()));
    }
}

proof fn lemma_find_char_at(s: Seq<char>, c: char, i: int, k: int)
    requires
        0 <= i,
        0 <= k,
        i + k < s.len(),
        s[i + k] == c,
        forall|m: int| i <= m < i + k ==> s[m] != c,
    ensures
        find_char_from(s, c, i) == Some(i + k),
    decreases k,
{
    if k > 0 {
        lemma_find_char_at(s, c, i + 1, k - 1);
    }
}

proof fn lemma_find_char_none(s: Seq<char>, c: char, i: int)
    requires
        0 <= i <= s.len(),
        forall|m: int| i <= m < s.len() ==> s[m] != c,
    ensures
        find_char_from(s, c, i) is None,
    decreases s.len() - i,
{
    if i < s.len() {
        lemma_find_char_none(s, c, i + 1);
    }
}

/// The lines of clean lines joined by newlines are those lines, when the
/// last one is not empty.
proof fn lemma_lines_of_join(s: Seq<char>, i: int, ys: Seq<Seq<char>>)
    requires
        0 <= i <= s.len(),
        ys.len() >= 1,
        forall|j: int| 0 <= j < ys.len() ==> line_clean(#[trigger] ys[j]),
        ys.last().len() > 0,
        s.subrange(i, s.len() as int) == join_newline(ys),
    ensures
        lines_from(s, i) == ys,
    decreases ys.len(),
{
    let y0 = ys[0];
    assert(line_clean(y0));
    if ys.len() == 1 {
        assert(join_newline(ys) == y0);
        assert(i < s.len());
        assert forall|m: int| i <= m < s.len() implies s[m] != '\n' by {
            assert(s.subrange(i, s.len() as int)[m - i] == s[m]);
        }
        lemma_find_char_none(s, '\n', i);
        assert(lines_from(s, i) =~= seq![y0]);
        assert(ys =~= seq![y0]);
    } else {
        lemma_join_first(ys);
        let rest = ys.drop_first();
        let n = y0.len() as int;
        let t = s.subrange(i, s.len() as int);
        assert(t == y0 + seq!['\n'] + join_newline(rest));
        assert(t.len() == n + 1 + join_newline(rest).len());
        assert(t[n] == '\n');
        assert(s[i + n] == t[n]);
        assert forall|m: int| i <= m < i + n implies s[m] != '\n' by {
            assert(t[m - i] == s[m]);
            assert(t[m - i] == y0[m - i]);
        }
        lemma_find_char_at(s, '\n', i, n);
        assert(s.subrange(i, i + n) =~= y0) by {
            assert forall|m: int| 0 <= m < n implies s.subrange(i, i + n)[m] == y0[m] by {
                assert(t[m] == y0[m]);
                assert(t[m] == s[i + m]);
            }
        }
        if n > 0 {
            assert(y0.last() != '\r') by {
                assert(y0[n - 1] != '\r');
            }
        }
        assert(strip_line_end(s.subrange(i, i + n), true) == y0);
        assert(s.subrange(i + n + 1, s.len() as int) =~= join_newline(rest)) by {
            assert forall|m: int| 0 <= m < join_newline(rest).len() implies s.subrange(i + n + 1, s.len() as int)[m] == join_newline(rest)[m] by {
                assert(t[n + 1 + m] == join_newline(rest)[m]);
                assert(t[n + 1 + m] == s[i + n + 1 + m]);
            }
        }
        assert forall|j: int| 0 <= j < rest.len() implies line_clean(#[trigger] rest[j]) by {
            assert(rest[j] == ys[j + 1]);
        }
        lemma_lines_of_join(s, i + n + 1, rest);
        assert(lines_from(s, i) =~= seq![y0] + rest);
        assert(ys =~= seq![y0] + rest);
    }
}

/// The lines left after dropping leading blank lines and trimming the start
/// of the first line left.
pub open spec fn trim_start_lines(xs: Seq<Seq<char>>) -> Seq<Seq<char>>
    decreases xs.len(),
{
    if xs.len() > 1 && all_ws(xs[0]) {
        trim_start_lines(xs.drop_first())
    } else if xs.len() == 0 {
        xs
    } else {
        xs.update(0, trim_start(xs[0]))
    }
}

/// The lines left after dropping trailing blank lines and trimming the end
/// of the last line left.
pub open spec fn trim_end_lines(xs: Seq<Seq<char>>) -> Seq<Seq<char>>
    decreases xs.len(),
{
    if xs.len() > 1 && all_ws(xs.last()) {
        trim_end_lines(xs.drop_last())
    } else if xs.len() == 0 {
        xs
    } else {
        xs.update(xs.len() - 1, trim_end(xs.last()))
    }
}

proof fn lemma_newline_ws()
    ensures
        is_ws('\n'),
        all_ws(seq!['\n']),
{
    assert(seq!['\n'][0] == '\n');
}

proof fn lemma_trim_start_join(xs: Seq<Seq<char>>)
    requires
        xs.len() >= 1,
    ensures
        trim_start(join_newline(xs)) == join_newline(trim_start_lines(xs)),
        trim_start_lines(xs).len() >= 1,
        forall|j: int| 0 <= j < trim_start_lines(xs).len() ==> exists|k: int| 0 <= k < xs.len() && (
            #[trigger] trim_start_lines(xs)[j] == xs[k] || trim_start_lines(xs)[j] == trim_start(xs[k])),
        trim_start_lines(xs).last() == xs.last() || (trim_start_lines(xs).len() == 1
            && trim_start_lines(xs)[0] == trim_start(xs.last())),
    decreases xs.len(),
{
    lemma_newline_ws();
    if xs.len() > 1 && all_ws(xs[0]) {
        lemma_join_first(xs);
        let rest = xs.drop_first();
        assert(all_ws(xs[0] + seq!['\n'])) by {
            assert forall|k: int| 0 <= k < (xs[0] + seq!['\n']).len() implies is_ws(#[trigger] (xs[0] + seq!['\n'])[k]) by {
                if k < xs[0].len() {
                    assert((xs[0] + seq!['\n'])[k] == xs[0][k]);
                }
            }
        }
        assert(join_newline(xs) =~= (xs[0] + seq!['\n']) + join_newline(rest));
        lemma_trim_start_ws_prefix(xs[0] + seq!['\n'], join_newline(rest));
        lemma_trim_start_join(rest);
        assert forall|j: int| 0 <= j < trim_start_lines(xs).len() implies exists|k: int| 0 <= k < xs.len() && (
            #[trigger] trim_start_lines(xs)[j] == xs[k] || trim_start_lines(xs)[j] == trim_start(xs[k])) by {
            let k = choose|k: int| 0 <= k < rest.len() && (trim_start_lines(rest)[j] == rest[k] || trim_start_lines(rest)[j] == trim_start(rest[k]));
            assert(rest[k] == xs[k + 1]);
        }
        assert(rest.last() == xs.last());
    } else if xs.len() == 1 {
        let t = trim_start_lines(xs);
        assert(t =~= seq![trim_start(xs[0])]);
        assert forall|j: int| 0 <= j < t.len() implies exists|k: int| 0 <= k < xs.len() && (
            #[trigger] t[j] == xs[k] || t[j] == trim_start(xs[k])) by {
            assert(t[j] == trim_start(xs[0]));
        }
    } else {
        let t = trim_start_lines(xs);
        lemma_join_first(xs);
        lemma_join_first(t);
        assert(t.drop_first() =~= xs.drop_first());
        lemma_trim_start_concat(xs[0], seq!['\n'] + join_newline(xs.drop_first()));
        assert(join_newline(xs) =~= xs[0] + (seq!['\n'] + join_newline(xs.drop_first())));
        assert(join_newline(t) =~= trim_start(xs[0]) + (seq!['\n'] + join_newline(xs.drop_first())));
        assert forall|j: int| 0 <= j < t.len() implies exists|k: int| 0 <= k < xs.len() && (
            #[trigger] t[j] == xs[k] || t[j] == trim_start(xs[k])) by {
            if j == 0 {
                assert(t[0] == trim_start(xs[0]));
            } else {
                assert(t[j] == xs[j]);
            }
        }
        assert(t.last() == xs.last());
    }
}

proof fn lemma_trim_end_join(xs: Seq<Seq<char>>)
    requires
        xs.len() >= 1,
    ensures
        trim_end(join_newline(xs)) == join_newline(trim_end_lines(xs)),
        trim_end_lines(xs).len() >= 1,
        forall|j: int| 0 <= j < trim_end_lines(xs).len() ==> exists|k: int| 0 <= k < xs.len() && (
            #[trigger] trim_end_lines(xs)[j] == xs[k] || trim_end_lines(xs)[j] == trim_end(xs[k])),
        trim_end_lines(xs).last().len() > 0 || trim_end_lines(xs).len() == 1,
    decreases xs.len(),
{
    lemma_newline_ws();
    let l = xs.last();
    if xs.len() > 1 && all_ws(l) {
        let init = xs.drop_last();
        assert(join_newline(xs) == join_newline(init) + seq!['\n'] + l);
        assert(all_ws(seq!['\n'] + l)) by {
            assert forall|k: int| 0 <= k < (seq!['\n'] + l).len() implies is_ws(#[trigger] (seq!['\n'] + l)[k]) by {
                if k > 0 {
                    assert((seq!['\n'] + l)[k] == l[k - 1]);
                }
            }
        }
        assert(join_newline(xs) =~= join_newline(init) + (seq!['\n'] + l));
        lemma_trim_end_ws_suffix(join_newline(init), seq!['\n'] + l);
        lemma_trim_end_join(init);
        assert forall|j: int| 0 <= j < trim_end_lines(xs).len() implies exists|k: int| 0 <= k < xs.len() && (
            #[trigger] trim_end_lines(xs)[j] == xs[k] || trim_end_lines(xs)[j] == trim_end(xs[k])) by {
            let k = choose|k: int| 0 <= k < init.len() && (trim_end_lines(init)[j] == init[k] || trim_end_lines(init)[j] == trim_end(init[k]));
            assert(init[k] == xs[k]);
        }
    } else if xs.len() == 1 {
        let t = trim_end_lines(xs);
        assert(t =~= seq![trim_end(xs[0])]);
        assert(join_newline(xs) == xs[0]);
        assert(join_newline(t) == t[0]);
        assert forall|j: int| 0 <= j < t.len() implies exists|k: int| 0 <= k < xs.len() && (
            #[trigger] t[j] == xs[k] || t[j] == trim_end(xs[k])) by {
            assert(t[j] == trim_end(xs[0]));
        }
    } else {
        let t = trim_end_lines(xs);
        let init = xs.drop_last();
        assert(t.drop_last() =~= init);
        assert(t.last() == trim_end(l));
        assert(join_newline(xs) == join_newline(init) + seq!['\n'] + l);
        assert(join_newline(t) == join_newline(t.drop_last()) + seq!['\n'] + t.last());
        lemma_trim_end_concat(join_newline(init) + seq!['\n'], l);
        lemma_trim_all_ws(l);
        assert forall|j: int| 0 <= j < t.len() implies exists|k: int| 0 <= k < xs.len() && (
            #[trigger] t[j] == xs[k] || t[j] == trim_end(xs[k])) by {
            if j == t.len() - 1 {
                assert(t[j] == trim_end(xs[xs.len() - 1]));
            } else {
                assert(t[j] == xs[j]);
            }
        }
    }
}

proof fn lemma_find_char_first(s: Seq<char>, c: char, i: int)
    requires
        0 <= i,
    ensures
        match find_char_from(s, c, i) {
            Some(j) => forall|m: int| i <= m < j ==> s[m] != c,
            None => forall|m: int| i <= m < s.len() ==> s[m] != c,
        },
    decreases s.len() - i,
{
    if i < s.len() && s[i] != c {
        lemma_find_char_first(s, c, i + 1);
    }
}

proof fn lemma_lines_clean(s: Seq<char>, i: int)
    requires
        0 <= i,
        forall|k: int| 0 <= k < s.len() ==> s[k] != '\r',
    ensures
        forall|j: int| 0 <= j < lines_from(s, i).len() ==> line_clean(#[trigger] lines_from(s, i)[j]),
    decreases s.len() - i,
{
    if i < s.len() {
        crate::text::lemma_find_char_from_bounds(s, '\n', i);
        lemma_find_char_first(s, '\n', i);
        match find_char_from(s, '\n', i) {
            Some(j) => {
                lemma_lines_clean(s, j + 1);
                let first = strip_line_end(s.subrange(i, j), true);
                assert(first == s.subrange(i, j));
                assert(line_clean(first)) by {
                    assert forall|k: int| 0 <= k < first.len() implies #[trigger] first[k] != '\n' && first[k] != '\r' by {
                        assert(first[k] == s[i + k]);
                    }
                }
                assert forall|q: int| 0 <= q < lines_from(s, i).len() implies line_clean(#[trigger] lines_from(s, i)[q]) by {
                    if q > 0 {
                        assert(lines_from(s, i)[q] == lines_from(s, j + 1)[q - 1]);
                    }
                }
            },
            None => {
                let only = s.subrange(i, s.len() as int);
                assert(line_clean(only)) by {
                    assert forall|k: int| 0 <= k < only.len() implies #[trigger] only[k] != '\n' && only[k] != '\r' by {
                        assert(only[k] == s[i + k]);
                    }
                }
            },
        }
    }
}

proof fn lemma_kept_lines(ls: Seq<Seq<char>>)
    ensures
        forall|j: int| 0 <= j < kept_lines(ls).len() ==> line_kept(#[trigger] kept_lines(ls)[j])
            && exists|k: int| 0 <= k < ls.len() && kept_lines(ls)[j] == ls[k],
        (forall|j: int| 0 <= j < ls.len() ==> line_kept(#[trigger] ls[j])) ==> kept_lines(ls) == ls,
    decreases ls.len(),
{
    if ls.len() > 0 {
        lemma_kept_lines(ls.drop_last());
        let pre = kept_lines(ls.drop_last());
        assert forall|j: int| 0 <= j < kept_lines(ls).len() implies line_kept(#[trigger] kept_lines(ls)[j])
            && exists|k: int| 0 <= k < ls.len() && kept_lines(ls)[j] == ls[k] by {
            if j < pre.len() {
                assert(kept_lines(ls)[j] == pre[j]);
                let k = choose|k: int| 0 <= k < ls.drop_last().len() && pre[j] == ls.drop_last()[k];
                assert(ls.drop_last()[k] == ls[k]);
            } else {
                assert(kept_lines(ls)[j] == ls.last());
                assert(ls.last() == ls[ls.len() - 1]);
            }
        }
        if forall|j: int| 0 <= j < ls.len() ==> line_kept(#[trigger] ls[j]) {
            assert forall|j: int| 0 <= j < ls.drop_last().len() implies line_kept(#[trigger] ls.drop_last()[j]) by {
                assert(ls.drop_last()[j] == ls[j]);
            }
            assert(line_kept(ls[ls.len() - 1]));
            assert(kept_lines(ls) =~= ls);
        }
    } else {
        assert(kept_lines(ls) =~= ls);
    }
}

/// A clean line stays clean, and kept, when either end is trimmed.
proof fn lemma_trimmed_line(x: Seq<char>)
    requires
        line_clean(x),
        line_kept(x),
    ensures
        line_clean(trim_start(x)),
        line_clean(trim_end(x)),
        line_kept(trim_start(x)),
        line_kept(trim_end(x)),
{
    crate::text::lemma_trim_start_props(x);
    crate::text::lemma_trim_end_props(x);
    lemma_trim_after_side(x);
    let a = trim_start(x);
    let b = trim_end(x);
    assert forall|k: int| 0 <= k < a.len() implies #[trigger] a[k] != '\n' && a[k] != '\r' by {
        assert(a[k] == x[x.len() - a.len() + k]);
    }
    assert forall|k: int| 0 <= k < b.len() implies #[trigger] b[k] != '\n' && b[k] != '\r' by {
        assert(b[k] == x[k]);
    }
}

/// Sanitising a reply without carriage returns is idempotent, and every
/// line of a sanitised reply is one that sanitising keeps: blank, or, once
/// trimmed, no `to=functions.` or `to=shell` line and no JSON tool payload.
pub proof fn law_sanitize_is_idempotent(text: Seq<char>)
    requires
        forall|k: int| 0 <= k < text.len() ==> text[k] != '\r',
    ensures
        sanitized(sanitized(text)) == sanitized(text),
        forall|j: int| 0 <= j < lines(sanitized(text)).len() ==> line_kept(#[trigger] lines(sanitized(text))[j]),
{
    let ls = lines(text);
    lemma_lines_clean(text, 0);
    lemma_kept_lines(ls);
    let k = kept_lines(ls);
    let r = sanitized(text);
    assert(lines(Seq::<char>::empty()) =~= Seq::<Seq<char>>::empty());
    assert(kept_lines(Seq::<Seq<char>>::empty()) =~= Seq::<Seq<char>>::empty());
    assert(join_newline(Seq::<Seq<char>>::empty()) =~= Seq::<char>::empty());
    assert(trim(Seq::<char>::empty()) =~= Seq::<char>::empty()) by {
        assert(trim_start(Seq::<char>::empty()) =~= Seq::<char>::empty());
    }
    if k.len() == 0 {
        assert(r =~= Seq::<char>::empty());
    } else {
        assert forall|j: int| 0 <= j < k.len() implies line_clean(#[trigger] k[j]) && line_kept(k[j]) by {
            let q = choose|q: int| 0 <= q < ls.len() && k[j] == ls[q];
            assert(line_clean(ls[q]));
        }
        lemma_trim_start_join(k);
        let t = trim_start_lines(k);
        assert forall|j: int| 0 <= j < t.len() implies line_clean(#[trigger] t[j]) && line_kept(t[j]) by {
            let q = choose|q: int| 0 <= q < k.len() && (t[j] == k[q] || t[j] == trim_start(k[q]));
            assert(line_clean(k[q]) && line_kept(k[q]));
            lemma_trimmed_line(k[q]);
        }
        lemma_trim_end_join(t);
        let y = trim_end_lines(t);
        assert forall|j: int| 0 <= j < y.len() implies line_clean(#[trigger] y[j]) && line_kept(y[j]) by {
            let q = choose|q: int| 0 <= q < t.len() && (y[j] == t[q] || y[j] == trim_end(t[q]));
            assert(line_clean(t[q]) && line_kept(t[q]));
            lemma_trimmed_line(t[q]);
        }
        assert(r == join_newline(y));
        if y.last().len() > 0 {
            assert(r.subrange(0, r.len() as int) =~= r);
            lemma_lines_of_join(r, 0, y);
            assert(lines(r) == y);
            assert forall|j: int| 0 <= j < y.len() implies line_kept(#[trigger] y[j]) by {
                assert(line_clean(y[j]) && line_kept(y[j]));
            }
            lemma_kept_lines(y);
            crate::text::lemma_trim_idempotent(join_newline(k));
        } else {
            assert(y.len() == 1);
            assert(join_newline(y) == y[0]);
            assert(r =~= Seq::<char>::empty());
        }
    }
}

/// The texts sent along with a prompt; an empty one is left out.
pub struct PromptAttachments {
    pub selection: String,
    pub terminal_context: String,
    pub last_command_output: String,
}

/// A titled section of a prompt, or nothing for an empty body.
pub open spec fn prompt_section(title: Seq<char>, body: Seq<char>) -> Seq<char> {
    if body.len() == 0 {
        seq![]
    } else {
        title + body + "\n\n"@
    }
}

/// The prompt sent to the assistant: the user's text alone when nothing is
/// attached; else the last command's output, the terminal context and the
/// selection, each under its title when not empty, then the user's text.
pub open spec fn full_prompt(prompt: Seq<char>, last_output: Seq<char>, context: Seq<char>, selection: Seq<char>) -> Seq<char> {
    if last_output.len() == 0 && context.len() == 0 && selection.len() == 0 {
        prompt
    } else {
        prompt_section("Last command output:\n"@, last_output) + prompt_section("Terminal context (tail):\n"@, context)
            + prompt_section("Selected text:\n"@, selection) + "User:\n"@ + prompt
    }
}

/// Appends a titled section to `out` unless `body` is empty.
fn push_section(out: &mut String, title: &str, body: &str)
    ensures
        final(out)@ == old(out)@ + prompt_section(title@, body@),
{
    if body.is_empty() {
        assert(old(out)@ + prompt_section(title@, body@) =~= old(out)@);
        return;
    }
    push_str(out, title);
    push_str(out, body);
    push_str(out, "\n\n");
    assert(out@ =~= old(out)@ + prompt_section(title@, body@));
}

/// The prompt sent to the assistant (see `full_prompt`).
pub fn compose_full_prompt(prompt: &str, attachments: &PromptAttachments) -> (out: String)
    ensures
        out@ == full_prompt(
            prompt@,
            attachments.last_command_output@,
            attachments.terminal_context@,
            attachments.selection@,
        ),
{
    let mut out = String::new();
    if attachments.last_command_output.as_str().is_empty() && attachments.terminal_context.as_str().is_empty()
        && attachments.selection.as_str().is_empty() {
        push_str(&mut out, prompt);
        return out;
    }
    push_section(&mut out, "Last command output:\n", attachments.last_command_output.as_str());
    push_section(&mut out, "Terminal context (tail):\n", attachments.terminal_context.as_str());
    push_section(&mut out, "Selected text:\n", attachments.selection.as_str());
    push_str(&mut out, "User:\n");
    push_str(&mut out, prompt);
    assert(out@ =~= full_prompt(
        prompt@,
        attachments.last_command_output@,
        attachments.terminal_context@,
        attachments.selection@,
    ));
    out
}

/// The index of the last user message among the first `n` messages.
pub open spec fn last_user_before(entries: Seq<AssistantMessage>, n: int) -> Option<int>
    decreases n,
{
    if n <= 0 {
        None
    } else if entries[n - 1].role == AssistantRole::User {
        Some(n - 1)
    } else {
        last_user_before(entries, n - 1)
    }
}

/// Which messages offer to be sent again: every user message, except,
/// while a reply is awaited, the last user message when no assistant
/// message follows it.
pub open spec fn can_rerun(entries: Seq<AssistantMessage>, in_flight: bool) -> Seq<bool> {
    let base = entries.map_values(|m: AssistantMessage| m.role == AssistantRole::User);
    match last_user_before(entries, entries.len() as int) {
        Some(k) if in_flight && !(exists|j: int| k < j < entries.len() && (#[trigger] entries[j]).role
            == AssistantRole::Assistant) => base.update(k, false),
        _ => base,
    }
}

proof fn lemma_last_user_before_bounds(entries: Seq<AssistantMessage>, n: int)
    requires
        n <= entries.len(),
    ensures
        match last_user_before(entries, n) {
            Some(k) => 0 <= k < n && entries[k].role == AssistantRole::User && forall|j: int|
                k < j < n ==> (#[trigger] entries[j]).role != AssistantRole::User,
            None => forall|j: int| 0 <= j < n ==> (#[trigger] entries[j]).role != AssistantRole::User,
        },
    decreases n,
{
    if n > 0 {
        lemma_last_user_before_bounds(entries, n - 1);
    }
}

/// Which messages offer to be sent again (see `can_rerun`).
pub fn compute_can_rerun_user_messages(entries: &[AssistantMessage], in_flight: bool) -> (out: Vec<bool>)
    ensures
        out@ == can_rerun(entries@, in_flight),
{
    let ghost base = entries@.map_values(|m: AssistantMessage| m.role == AssistantRole::User);
    let mut out: Vec<bool> = Vec::new();
    let mut i: usize = 0;
    while i < entries.len()
        invariant
            0 <= i <= entries@.len(),
            base == entries@.map_values(|m: AssistantMessage| m.role == AssistantRole::User),
            out@ == base.take(i as int),
        decreases entries@.len() - i,
    {
        out.push(entries[i].role == AssistantRole::User);
        assert(base.take(i + 1) =~= base.take(i as int).push(base[i as int]));
        i += 1;
    }
    assert(base.take(entries@.len() as int) =~= base);
    if !in_flight {
        return out;
    }
    proof {
        lemma_last_user_before_bounds(entries@, entries@.len() as int);
    }
    let mut k: usize = entries.len();
    while k > 0 && entries[k - 1].role != AssistantRole::User
        invariant
            0 <= k <= entries@.len(),
            last_user_before(entries@, entries@.len() as int) == last_user_before(entries@, k as int),
        decreases k,
    {
        k -= 1;
    }
    if k == 0 {
        return out;
    }
    let last = k - 1;
    assert(last_user_before(entries@, entries@.len() as int) == Some(last as int));
    let mut j: usize = k;
    while j < entries.len()
        invariant
            0 < k <= j <= entries@.len(),
            last == k - 1,
            in_flight,
            out@ == base,
            base == entries@.map_values(|m: AssistantMessage| m.role == AssistantRole::User),
            last_user_before(entries@, entries@.len() as int) == Some(last as int),
            forall|m: int| k <= m < j ==> (#[trigger] entries@[m]).role != AssistantRole::Assistant,
        decreases entries@.len() - j,
    {
        if entries[j].role == AssistantRole::Assistant {
            assert(last < j && entries@[j as int].role == AssistantRole::Assistant);
            return out;
        }
        j += 1;
    }
    let ghost before = out@;
    out.set(last, false);
    assert(out@ =~= before.update(last as int, false));
    out
}

} // verus!

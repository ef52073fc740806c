//! The footbar: its icons, the text of transfer rows, and the messages that
//! file-transfer panels post.
use vstd::prelude::*;

use crate::notification::MessageKind;
use crate::text::{chars_of, dec_digits, push_str, string_from_range, trim, trim_string, u64_to_dec};

verus! {

/// The icons the footbar shows.
#[derive(Clone, Copy, Debug, PartialEq, Eq, Structural)]
pub enum FootbarIcon {
    /// Multi-exec off.
    Dice1,
    /// Multi-exec on.
    Dice4,
    Upload,
    Download,
    PlugZap,
    Check,
}

/// The multi-exec button's icon.
pub fn multi_exec_icon_path(enabled: bool) -> (icon: FootbarIcon)
    ensures
        icon == if enabled {
            FootbarIcon::Dice4
        } else {
            FootbarIcon::Dice1
        },
{
    if enabled {
        FootbarIcon::Dice4
    } else {
        FootbarIcon::Dice1
    }
}

/// What a transfer moves.
#[derive(Clone, Copy, Debug, PartialEq, Eq, Structural)]
pub enum TransferKind {
    Upload,
    Download,
    Other,
}

/// How far a transfer is.
#[derive(Clone, Copy, Debug, PartialEq, Eq, Structural)]
pub enum TransferStatus {
    Queued,
    InProgress,
    Finished,
    Failed,
    Cancelled,
}

/// The icon of a transfer of each kind.
pub fn transfer_icon_path(kind: TransferKind) -> (icon: FootbarIcon)
    ensures
        icon == match kind {
            TransferKind::Upload => FootbarIcon::Upload,
            TransferKind::Download => FootbarIcon::Download,
            TransferKind::Other => FootbarIcon::PlugZap,
        },
{
    match kind {
        TransferKind::Upload => FootbarIcon::Upload,
        TransferKind::Download => FootbarIcon::Download,
        TransferKind::Other => FootbarIcon::PlugZap,
    }
}

/// The icon of a transfer in the popup, and whether it shows success: a
/// finished transfer shows a check, any other its kind's icon.
pub fn transfer_popup_icon_spec(kind: TransferKind, status: TransferStatus) -> (r: (FootbarIcon, bool))
    ensures
        status == TransferStatus::Finished ==> r == (FootbarIcon::Check, true),
        status != TransferStatus::Finished ==> r == (match kind {
            TransferKind::Upload => FootbarIcon::Upload,
            TransferKind::Download => FootbarIcon::Download,
            TransferKind::Other => FootbarIcon::PlugZap,
        }, false),
{
    if status == TransferStatus::Finished {
        (FootbarIcon::Check, true)
    } else {
        (transfer_icon_path(kind), false)
    }
}

/// The tooltip of a transfer: its title, and its destination on a new line
/// when it has a non-blank one.
pub fn transfer_tooltip(title: &str, detail: Option<&str>) -> (out: String)
    ensures
        out@ == match detail {
            Some(d) if trim(d@).len() > 0 => title@ + "\nTo:"@ + d@,
            _ => title@,
        },
{
    let mut out = String::new();
    push_str(&mut out, title);
    match detail {
        Some(d) => {
            let t = trim_string(d);
            if !t.as_str().is_empty() {
                push_str(&mut out, "\nTo:");
                push_str(&mut out, d);
            }
        },
        None => {},
    }
    out
}

/// `s` cut to `max_chars` characters with `...` after, when it is longer.
pub open spec fn shortened(s: Seq<char>, max_chars: nat) -> Seq<char> {
    if max_chars == 0 {
        seq![]
    } else if s.len() <= max_chars {
        s
    } else {
        s.take(max_chars as int) + "..."@
    }
}

/// Shortens a label for the footbar.
pub fn truncate_shared(s: &str, max_chars: usize) -> (out: String)
    ensures
        out@ == shortened(s@, max_chars as nat),
{
    if max_chars == 0 {
        return String::new();
    }
    let v = chars_of(s);
    if v.len() <= max_chars {
        let mut out = String::new();
        push_str(&mut out, s);
        return out;
    }
    let mut out = string_from_range(&v, 0, max_chars);
    push_str(&mut out, "...");
    assert(v@.subrange(0, max_chars as int) =~= s@.take(max_chars as int));
    out
}

/// How urgent a message of a file-transfer panel is.
#[derive(Clone, Copy, Debug, PartialEq, Eq, Structural)]
pub enum ToastLevel {
    Info,
    Warning,
    Critical,
}

/// The message-center entry for a message of a file-transfer panel: its
/// kind by level, and its title with the detail on a new line when the
/// detail is not blank.
pub fn sftp_toast_message(level: ToastLevel, title: &str, detail: Option<&str>) -> (r: (MessageKind, String))
    ensures
        r.0 == match level {
            ToastLevel::Info => MessageKind::Info,
            ToastLevel::Warning => MessageKind::Warning,
            ToastLevel::Critical => MessageKind::Error,
        },
        r.1@ == match detail {
            Some(d) if trim(d@).len() > 0 => title@ + "\n"@ + d@,
            _ => title@,
        },
{
    let kind = match level {
        ToastLevel::Info => MessageKind::Info,
        ToastLevel::Warning => MessageKind::Warning,
        ToastLevel::Critical => MessageKind::Error,
    };
    let mut message = String::new();
    push_str(&mut message, title);
    match detail {
        Some(d) => {
            let t = trim_string(d);
            if !t.as_str().is_empty() {
                push_str(&mut message, "\n");
                push_str(&mut message, d);
            }
        },
        None => {},
    }
    (kind, message)
}

/// How many of the transfers are finished.
pub open spec fn finished_count(statuses: Seq<TransferStatus>) -> nat
    decreases statuses.len(),
{
    if statuses.len() == 0 {
        0
    } else {
        finished_count(statuses.drop_last()) + if statuses.last() == TransferStatus::Finished {
            1nat
        } else {
            0nat
        }
    }
}

proof fn lemma_finished_count_le(statuses: Seq<TransferStatus>)
    ensures
        finished_count(statuses) <= statuses.len(),
    decreases statuses.len(),
{
    if statuses.len() > 0 {
        lemma_finished_count_le(statuses.drop_last());
    }
}

/// The progress shown on the transfers button, `done/total`: the counts of
/// the first transfer's group when it has them, else how many of the
/// transfers listed are finished out of how many are listed.
pub open spec fn transfers_done_text(statuses: Seq<TransferStatus>, group_counts: Option<(usize, usize)>) -> Seq<char> {
    match group_counts {
        Some((done, total)) => dec_digits(done as nat) + seq!['/'] + dec_digits(total as nat),
        None => dec_digits(finished_count(statuses)) + seq!['/'] + dec_digits(statuses.len()),
    }
}

/// The progress shown on the transfers button (see `transfers_done_text`).
pub fn transfers_done_label(statuses: &[TransferStatus], group_counts: Option<(usize, usize)>) -> (out: String)
    ensures
        out@ == transfers_done_text(statuses@, group_counts),
{
    let (done, total) = match group_counts {
        Some(counts) => counts,
        None => {
            let mut done: usize = 0;
            let mut i: usize = 0;
            while i < statuses.len()
                invariant
                    0 <= i <= statuses@.len(),
                    done == finished_count(statuses@.take(i as int)),
                decreases statuses@.len() - i,
            {
                assert(statuses@.take(i + 1).drop_last() =~= statuses@.take(i as int));
                proof {
                    lemma_finished_count_le(statuses@.take(i as int));
                }
                if statuses[i] == TransferStatus::Finished {
                    done = done + 1;
                }
                i += 1;
            }
            assert(statuses@.take(statuses@.len() as int) =~= statuses@);
            (done, statuses.len())
        },
    };
    let mut out = u64_to_dec(done as u64);
    push_str(&mut out, "/");
    let t = u64_to_dec(total as u64);
    push_str(&mut out, t.as_str());
    proof {
        reveal_strlit("/");
    }
    out
}

} // verus!

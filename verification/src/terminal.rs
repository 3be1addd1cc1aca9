//! What a terminal shows: marks, colours, and the part of a text around the
//! cursor.
use vstd::prelude::*;

use crate::slot::ServerStatus;
use crate::text::{chars_in, chars_in_bytes, chars_of, contains, occurs, slice, starts_with, Text};
use crate::units::{gib_tenths, gib_text};

verus! {

broadcast use vstd::string::group_string_axioms;

/// The mark in front of a status; while a server starts it pulses.
pub open spec fn marker(status: ServerStatus, frame: usize) -> Text {
    match status {
        ServerStatus::Starting => match (frame / 2) % 4 {
            0 => "·"@,
            2 => "✦"@,
            _ => "✧"@,
        },
        ServerStatus::Ready => "●"@,
        _ => "·"@,
    }
}

/// The mark in front of a status.
pub fn status_marker(status: ServerStatus, frame: usize) -> (r: &'static str)
    ensures
        r@ == marker(status, frame),
{
    match status {
        ServerStatus::Starting => match (frame / 2) % 4 {
            0 => "·",
            2 => "✦",
            _ => "✧",
        },
        ServerStatus::Ready => "●",
        _ => "·",
    }
}

/// The colours in which things are shown.
#[derive(Clone, Copy, Debug, PartialEq, Eq, Structural)]
pub enum Tone {
    Ink,
    Muted,
    Ice,
    Coral,
    Mint,
}

/// The colour of a status.
pub open spec fn tone_of(status: ServerStatus) -> Tone {
    match status {
        ServerStatus::Ready => Tone::Mint,
        ServerStatus::Failed => Tone::Coral,
        ServerStatus::Stopped => Tone::Muted,
        _ => Tone::Ice,
    }
}

/// The colour of a status.
pub fn status_tone(status: ServerStatus) -> (r: Tone)
    ensures
        r == tone_of(status),
{
    match status {
        ServerStatus::Ready => Tone::Mint,
        ServerStatus::Failed => Tone::Coral,
        ServerStatus::Stopped => Tone::Muted,
        _ => Tone::Ice,
    }
}

/// The colour of what is told of a status.
pub open spec fn told_tone(status: ServerStatus) -> Tone {
    if status == ServerStatus::Failed {
        Tone::Coral
    } else {
        Tone::Muted
    }
}

/// The colour of what is told of a status.
pub fn detail_tone(status: ServerStatus) -> (r: Tone)
    ensures
        r == told_tone(status),
{
    if status == ServerStatus::Failed {
        Tone::Coral
    } else {
        Tone::Muted
    }
}

/// The colour of a line of the log.
pub open spec fn line_tone(line: Text) -> Tone {
    if occurs(line, "error"@) || occurs(line, "failed"@) {
        Tone::Coral
    } else if "$"@.is_prefix_of(line) {
        Tone::Ice
    } else {
        Tone::Ink
    }
}

/// The colour of a line of the log.
pub fn log_tone(line: &str) -> (r: Tone)
    ensures
        r == line_tone(line@),
{
    if contains(line, "error") || contains(line, "failed") {
        Tone::Coral
    } else if starts_with(line, "$") {
        Tone::Ice
    } else {
        Tone::Ink
    }
}

/// Which lines of the log are shown, from the first up to before the second:
/// as many as there is room for, up to `offset` before the end.
pub open spec fn lines_shown(count: nat, offset: nat, room: nat) -> (int, int) {
    let end = if count >= offset {
        count - offset
    } else {
        0
    };
    (if end >= room {
        end - room
    } else {
        0
    }, end)
}

/// Which lines of the log are shown.
pub fn log_window(count: usize, offset: usize, room: usize) -> (r: (usize, usize))
    ensures
        (r.0 as int, r.1 as int) == lines_shown(count as nat, offset as nat, room as nat),
        r.0 <= r.1 <= count,
        r.1 - r.0 <= room,
{
    let end: usize = if count >= offset {
        count - offset
    } else {
        0
    };
    let start: usize = if end >= room {
        end - room
    } else {
        0
    };
    (start, end)
}

/// What is told of the model's files.
pub fn storage_line(mapped: u64) -> (out: String)
    ensures
        out@ == gib_tenths(mapped) + " GiB mapped from disk · not required to fit in RAM"@,
{
    let mut out = gib_text(mapped);
    out.append(" GiB mapped from disk · not required to fit in RAM");
    out
}

/// What is told of the memory.
pub fn memory_line(available: u64, total: u64) -> (out: String)
    ensures
        out@ == gib_tenths(available) + " GiB available · "@ + gib_tenths(total) + " GiB total"@,
{
    let mut out = gib_text(available);
    out.append(" GiB available · ");
    out.append(gib_text(total).as_str());
    out.append(" GiB total");
    out
}

/// How many columns a text takes, by `unicode_width`.
pub uninterp spec fn text_columns(text: Text) -> nat;

/// `UnicodeWidthStr::width`: how many columns a text takes. Claimed is that the
/// same text takes the same.
#[verifier::external_body]
fn columns(text: &str) -> (n: usize)
    ensures
        n == text_columns(text@),
{
    unicode_width::UnicodeWidthStr::width(text)
}

/// How many columns a character takes, by `unicode_width`; `None` where it has
/// no width.
pub uninterp spec fn char_columns(c: char) -> Option<nat>;

/// The view of a number of columns that may be missing.
pub open spec fn opt_columns(o: Option<usize>) -> Option<nat> {
    match o {
        Some(n) => Some(n as nat),
        None => None,
    }
}

/// `UnicodeWidthChar::width`: how many columns a character takes, where it has
/// a width. Claimed is that the same character takes the same.
#[verifier::external_body]
fn columns_of(c: char) -> (r: Option<usize>)
    ensures
        opt_columns(r) == char_columns(c),
{
    unicode_width::UnicodeWidthChar::width(c)
}

/// How many columns a character takes up: none where it has no width.
pub open spec fn taken_by(c: char) -> nat {
    match char_columns(c) {
        Some(n) => n,
        None => 0,
    }
}

/// Where a text starts to be shown: after the first characters before the
/// cursor that take `target` columns together.
pub open spec fn shown_from(s: Text, cursor: int, i: int, removed: nat, target: nat) -> int
    decreases cursor - i,
{
    if i >= cursor || i >= s.len() || removed >= target {
        i
    } else {
        shown_from(s, cursor, i + 1, removed + taken_by(s[i]), target)
    }
}

/// The part of a text that is shown, by where it starts, and the column of the
/// cursor: all of the text where the cursor is within the width.
pub open spec fn window_of(s: Text, cursor: int, width: u16) -> (int, nat) {
    let room = if width > 0 {
        (width - 1) as nat
    } else {
        0
    };
    let at = text_columns(s.take(cursor));
    if at <= room {
        (0, at)
    } else {
        let start = shown_from(s, cursor, 0, 0, (at - room) as nat);
        let column = text_columns(s.subrange(start, cursor));
        (start, if column <= room {
            column
        } else {
            room
        })
    }
}

/// The part of a text that is shown around the cursor, which stands before
/// character number `cursor`, and the cursor's column.
fn window_at(value: &str, cursor: usize, width: u16) -> (r: (String, u16))
    requires
        cursor <= value@.len(),
    ensures
        r.0@ == value@.skip(window_of(value@, cursor as int, width).0),
        r.1 == window_of(value@, cursor as int, width).1,
        width > 0 ==> r.1 < width,
{
    let room: u16 = if width > 0 {
        width - 1
    } else {
        0
    };
    let n: usize = value.unicode_len();
    let before = slice(value, 0, cursor);
    proof {
        assert(before@ =~= value@.take(cursor as int));
    }
    let at: usize = columns(before.as_str());
    if at <= room as usize {
        proof {
            assert(value@.skip(0) =~= value@);
        }
        return (value.to_owned(), at as u16);
    }
    let target: usize = at - room as usize;
    let v = chars_of(value);
    let mut removed: usize = 0;
    let mut start: usize = 0;
    let ghost mut sum: nat = 0;
    while start < cursor && removed < target
        invariant
            start <= cursor <= v.len(),
            v@ == value@,
            removed == sum || (removed == usize::MAX && sum >= usize::MAX),
            shown_from(value@, cursor as int, 0, 0, target as nat) == shown_from(
                value@,
                cursor as int,
                start as int,
                sum,
                target as nat,
            ),
        decreases cursor - start,
    {
        let w: usize = match columns_of(v[start]) {
            Some(n) => n,
            None => 0,
        };
        removed = if w > usize::MAX - removed {
            usize::MAX
        } else {
            removed + w
        };
        proof {
            sum = sum + w as nat;
        }
        start = start + 1;
    }
    let rest = slice(value, start, n);
    let piece = slice(value, start, cursor);
    proof {
        assert(rest@ =~= value@.skip(start as int));
    }
    let column: usize = columns(piece.as_str());
    if column <= room as usize {
        (rest, column as u16)
    } else {
        (rest, room)
    }
}

/// The part of a text that is shown around the cursor, which stands after
/// `cursor` bytes of the text and between two characters, and the cursor's
/// column.
pub fn editor_window(value: &str, cursor: usize, width: u16) -> (r: (String, u16))
    requires
        chars_in_bytes(value@, cursor as int) is Some,
    ensures
        r.0@ == value@.skip(
            window_of(value@, chars_in_bytes(value@, cursor as int)->0, width).0,
        ),
        r.1 == window_of(value@, chars_in_bytes(value@, cursor as int)->0, width).1,
        width > 0 ==> r.1 < width,
{
    match chars_in(value, cursor as u128) {
        Some(k) => window_at(value, k, width),
        None => (value.to_owned(), 0),
    }
}

/// As many of the last lines are shown as there is room for, less those that were
/// scrolled away from the end.
pub proof fn law_last_lines_are_shown(count: nat, offset: nat, room: nat)
    ensures
        ({
            let (start, end) = lines_shown(count, offset, room);
            &&& 0 <= start <= end <= count
            &&& end - start <= room
            &&& offset == 0 ==> end == count
            &&& offset + room <= count ==> end == count - offset && end - start == room
            &&& offset <= count < offset + room ==> start == 0 && end == count - offset
        }),
{
}

/// Only a ready server has the full mark and the bright tone, and only a failed
/// one the tone of failure.
pub proof fn law_tones_tell_the_state(s: ServerStatus)
    ensures
        tone_of(s) == Tone::Mint <==> s == ServerStatus::Ready,
        tone_of(s) == Tone::Coral <==> s == ServerStatus::Failed,
        told_tone(s) == Tone::Coral <==> s == ServerStatus::Failed,
        tone_of(s) == Tone::Muted <==> s == ServerStatus::Stopped,
{
}

/// A line that tells of an error stands out, wherever in it the word stands.
pub proof fn law_errors_stand_out(a: Text, b: Text)
    ensures
        line_tone(a + "error"@ + b) == Tone::Coral,
        line_tone(a + "failed"@ + b) == Tone::Coral,
{
    crate::text::lemma_occurs_itself("error"@);
    crate::text::lemma_occurs_itself("failed"@);
    crate::text::lemma_occurs_within(a, "error"@, b, "error"@);
    crate::text::lemma_occurs_within(a, "failed"@, b, "failed"@);
}

proof fn lemma_shown_from(s: Text, cursor: int, i: int, removed: nat, target: nat)
    requires
        0 <= i <= cursor <= s.len(),
    ensures
        i <= shown_from(s, cursor, i, removed, target) <= cursor,
    decreases cursor - i,
{
    if i < cursor && removed < target {
        lemma_shown_from(s, cursor, i + 1, removed + taken_by(s[i]), target);
    }
}

/// The cursor stays in the window: what is shown starts no later than it, and its
/// column is within the width.
pub proof fn law_cursor_stays_in_the_window(s: Text, cursor: int, width: u16)
    requires
        0 <= cursor <= s.len(),
        width > 0,
    ensures
        0 <= window_of(s, cursor, width).0 <= cursor,
        window_of(s, cursor, width).1 < width,
        text_columns(s.take(cursor)) < width ==> window_of(s, cursor, width) == (
            0int,
            text_columns(s.take(cursor)),
        ),
{
    let room = (width - 1) as nat;
    let at = text_columns(s.take(cursor));
    if at > room {
        lemma_shown_from(s, cursor, 0, 0, (at - room) as nat);
    }
}

} // verus!

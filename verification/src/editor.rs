//! Document buffer: the authoritative text value, cursor position math, and
//! bounded whole-snapshot undo/redo history.

use vstd::prelude::*;

verus! {

/// Most snapshots the undo history keeps; the oldest is evicted beyond this.
pub const UNDO_LIMIT: usize = 100;

/// Editor state: text content, undo/redo snapshot stacks, cursor position.
///
/// The text is a sequence of Unicode scalar values; offsets into it are
/// character offsets, not byte offsets.
pub struct EditorState {
    /// Current text content.
    pub text: Vec<char>,
    /// Undo history: snapshots of prior text states, oldest first.
    pub undo_history: Vec<Vec<char>>,
    /// Redo history: text states undone, available again until the next edit.
    pub redo_history: Vec<Vec<char>>,
    /// Cursor line shown in the status bar, 1-indexed (0 before any update).
    pub cursor_line: usize,
    /// Cursor column shown in the status bar, 1-indexed (0 before any update).
    pub cursor_column: usize,
}

/// Number of newline characters in the text.
pub open spec fn newline_count(t: Seq<char>) -> nat
    decreases t.len(),
{
    if t.len() == 0 {
        0
    } else {
        newline_count(t.drop_last()) + if t.last() == '\n' {
            1nat
        } else {
            0nat
        }
    }
}

/// Character offset where the line containing offset `p` starts: one past the
/// last newline strictly before `p`, or 0 when no newline precedes it.
pub open spec fn line_start(t: Seq<char>, p: int) -> int
    decreases p,
{
    if p <= 0 {
        0
    } else if t[p - 1] == '\n' {
        p
    } else {
        line_start(t, p - 1)
    }
}

/// The undo stack after a snapshot of `text` is pushed: the oldest entry is
/// evicted when the stack would exceed [`UNDO_LIMIT`] entries.
pub open spec fn pushed_snapshot(undo: Seq<Seq<char>>, text: Seq<char>) -> Seq<Seq<char>> {
    let grown = undo.push(text);
    if grown.len() <= UNDO_LIMIT {
        grown
    } else {
        grown.drop_first()
    }
}

/// Copies a character vector; snapshots for the history are taken with this.
fn clone_chars(src: &Vec<char>) -> (r: Vec<char>)
    ensures
        r@ == src@,
{
    let mut r: Vec<char> = Vec::new();
    let mut i: usize = 0;
    while i < src.len()
        invariant
            i <= src@.len(),
            r@ == src@.subrange(0, i as int),
        decreases src@.len() - i,
    {
        r.push(src[i]);
        i = i + 1;
    }
    assert(r@ =~= src@);
    r
}

impl Default for EditorState {
    /// A fresh buffer, as [`EditorState::new`] gives.
    fn default() -> (r: EditorState)
        ensures
            r.text@ == Seq::<char>::empty(),
            r.undo_history@ == Seq::<Vec<char>>::empty(),
            r.redo_history@ == Seq::<Vec<char>>::empty(),
            r.cursor_line == 0,
            r.cursor_column == 0,
    {
        EditorState::new()
    }
}

impl EditorState {
    /// A fresh buffer: empty text, empty histories, cursor unset.
    pub fn new() -> (r: EditorState)
        ensures
            r.text@ == Seq::<char>::empty(),
            r.undo_history@ == Seq::<Vec<char>>::empty(),
            r.redo_history@ == Seq::<Vec<char>>::empty(),
            r.cursor_line == 0,
            r.cursor_column == 0,
    {
        EditorState {
            text: Vec::new(),
            undo_history: Vec::new(),
            redo_history: Vec::new(),
            cursor_line: 0,
            cursor_column: 0,
        }
    }

    /// Line and column of a character offset, both 1-indexed. The line is one
    /// more than the number of newlines strictly before the offset; the column
    /// counts from the start of that line. Offsets past the end of the text
    /// are clamped to the end, never an error. The text must be shorter than
    /// `usize::MAX` characters so the 1-indexed results fit; any buffer that
    /// fits in memory is.
    pub fn position_to_line_column(&self, pos: usize) -> (r: (usize, usize))
        requires
            self.text@.len() < usize::MAX,
        ensures
            ({
                let p = if pos <= self.text@.len() {
                    pos as int
                } else {
                    self.text@.len() as int
                };
                r.0 == newline_count(self.text@.subrange(0, p)) + 1 && r.1 == p - line_start(
                    self.text@,
                    p,
                ) + 1
            }),
    {
        let p = if pos <= self.text.len() {
            pos
        } else {
            self.text.len()
        };
        let mut line: usize = 1;
        let mut start: usize = 0;
        let mut i: usize = 0;
        while i < p
            invariant
                i <= p <= self.text@.len() < usize::MAX,
                line == newline_count(self.text@.subrange(0, i as int)) + 1,
                start == line_start(self.text@, i as int),
                start <= i,
            decreases p - i,
        {
            proof {
                lemma_newline_count_bound(self.text@.subrange(0, i as int));
                assert(self.text@.subrange(0, i + 1).drop_last() =~= self.text@.subrange(
                    0,
                    i as int,
                ));
            }
            if self.text[i] == '\n' {
                line = line + 1;
                start = i + 1;
            }
            i = i + 1;
        }
        (line, p - start + 1)
    }

    /// Checkpoints the current text onto the undo history before a pending
    /// edit. Evicts the oldest snapshot beyond [`UNDO_LIMIT`] entries and
    /// unconditionally clears the redo history: a new edit invalidates the
    /// redo branch.
    pub fn save_undo_state(&mut self)
        ensures
            final (self).undo_history.deep_view() == pushed_snapshot(
                old(self).undo_history.deep_view(),
                old(self).text@,
            ),
            final (self).redo_history@.len() == 0,
            final (self).text@ == old(self).text@,
            final (self).cursor_line == old(self).cursor_line,
            final (self).cursor_column == old(self).cursor_column,
    {
        let snapshot = clone_chars(&self.text);
        self.undo_history.push(snapshot);
        if self.undo_history.len() > UNDO_LIMIT {
            self.undo_history.remove(0);
        }
        self.redo_history.clear();
        proof {
            assert(final (self).undo_history.deep_view() =~~= pushed_snapshot(
                old(self).undo_history.deep_view(),
                old(self).text@,
            ));
        }
    }
}

/// The buffer after an undo: the most recent undo snapshot becomes the text,
/// and the text that was replaced moves onto the redo history. The `bool`
/// says whether anything happened. Fields: (text, undo, redo, occurred).
pub open spec fn undone(text: Seq<char>, undo: Seq<Seq<char>>, redo: Seq<Seq<char>>) -> (
    Seq<char>,
    Seq<Seq<char>>,
    Seq<Seq<char>>,
    bool,
) {
    if undo.len() == 0 {
        (text, undo, redo, false)
    } else {
        (undo.last(), undo.drop_last(), redo.push(text), true)
    }
}

/// The buffer after a redo: symmetric inverse of [`undone`], drawing from the
/// redo history and pushing the replaced text onto the undo history.
pub open spec fn redone(text: Seq<char>, undo: Seq<Seq<char>>, redo: Seq<Seq<char>>) -> (
    Seq<char>,
    Seq<Seq<char>>,
    Seq<Seq<char>>,
    bool,
) {
    if redo.len() == 0 {
        (text, undo, redo, false)
    } else {
        (redo.last(), undo.push(text), redo.drop_last(), true)
    }
}

impl EditorState {
    /// Restores the most recent undo snapshot, moving the current text onto
    /// the redo history; reports whether an undo occurred. A no-op returning
    /// false on an empty undo history.
    pub fn undo(&mut self) -> (occurred: bool)
        ensures
            ({
                let r = undone(
                    old(self).text@,
                    old(self).undo_history.deep_view(),
                    old(self).redo_history.deep_view(),
                );
                final (self).text@ == r.0
                    && final (self).undo_history.deep_view() == r.1
                    && final (self).redo_history.deep_view() == r.2
                    && occurred == r.3
            }),
            final (self).cursor_line == old(self).cursor_line,
            final (self).cursor_column == old(self).cursor_column,
    {
        let popped = self.undo_history.pop();
        match popped {
            Some(mut previous) => {
                core::mem::swap(&mut self.text, &mut previous);
                self.redo_history.push(previous);
                proof {
                    let r = undone(
                        old(self).text@,
                        old(self).undo_history.deep_view(),
                        old(self).redo_history.deep_view(),
                    );
                    assert(final (self).undo_history.deep_view() =~~= r.1);
                    assert(final (self).redo_history.deep_view() =~~= r.2);
                }
                true
            },
            None => false,
        }
    }

    /// Reapplies the most recently undone text, moving the current text back
    /// onto the undo history; reports whether a redo occurred. A no-op
    /// returning false on an empty redo history.
    pub fn redo(&mut self) -> (occurred: bool)
        ensures
            ({
                let r = redone(
                    old(self).text@,
                    old(self).undo_history.deep_view(),
                    old(self).redo_history.deep_view(),
                );
                final (self).text@ == r.0
                    && final (self).undo_history.deep_view() == r.1
                    && final (self).redo_history.deep_view() == r.2
                    && occurred == r.3
            }),
            final (self).cursor_line == old(self).cursor_line,
            final (self).cursor_column == old(self).cursor_column,
    {
        let popped = self.redo_history.pop();
        match popped {
            Some(mut next) => {
                core::mem::swap(&mut self.text, &mut next);
                self.undo_history.push(next);
                proof {
                    let r = redone(
                        old(self).text@,
                        old(self).undo_history.deep_view(),
                        old(self).redo_history.deep_view(),
                    );
                    assert(final (self).undo_history.deep_view() =~~= r.1);
                    assert(final (self).redo_history.deep_view() =~~= r.2);
                }
                true
            },
            None => false,
        }
    }
}

/// Undo and redo are exact inverses around an edit. From any buffer, after a
/// checkpoint ([`pushed_snapshot`]) of the current text and a mutation to
/// `edited`, an undo restores the exact prior text, and a redo after that
/// undo restores the exact post-mutation text; no snapshot is lost either
/// way.
pub proof fn lemma_undo_redo_inverse(
    text: Seq<char>,
    undo: Seq<Seq<char>>,
    redo: Seq<Seq<char>>,
    edited: Seq<char>,
)
    ensures
        ({
            let checkpointed = pushed_snapshot(undo, text);
            let u = undone(edited, checkpointed, Seq::<Seq<char>>::empty());
            let r = redone(u.0, u.1, u.2);
            u.3 && u.0 == text && r.3 && r.0 == edited && r.1 == checkpointed && r.2 == Seq::<
                Seq<char>,
            >::empty()
        }),
{
    let checkpointed = pushed_snapshot(undo, text);
    assert(checkpointed.len() > 0);
    assert(checkpointed.last() == text);
    let u = undone(edited, checkpointed, Seq::<Seq<char>>::empty());
    let r = redone(u.0, u.1, u.2);
    assert(r.1 =~= checkpointed);
    assert(r.2 =~= Seq::<Seq<char>>::empty());
}

/// Checkpointing onto a full undo history evicts exactly the oldest snapshot:
/// the stack stays at [`UNDO_LIMIT`] entries, the newest entry is the text
/// just checkpointed, and the surviving entries keep their order.
pub proof fn lemma_snapshot_eviction(undo: Seq<Seq<char>>, text: Seq<char>)
    requires
        undo.len() == UNDO_LIMIT,
    ensures
        pushed_snapshot(undo, text).len() == UNDO_LIMIT,
        pushed_snapshot(undo, text).last() == text,
        forall|i: int|
            0 <= i < UNDO_LIMIT - 1 ==> pushed_snapshot(undo, text)[i] == undo[i + 1],
{
}

/// There are never more newlines than characters.
proof fn lemma_newline_count_bound(t: Seq<char>)
    ensures
        newline_count(t) <= t.len(),
    decreases t.len(),
{
    if t.len() > 0 {
        lemma_newline_count_bound(t.drop_last());
    }
}


// ---------------------------------------------------------------------------
// Time/date stamp insertion
// ---------------------------------------------------------------------------
/// Relies on `std::time::SystemTime::now` and `duration_since(UNIX_EPOCH)`:
/// whole seconds since the Unix epoch, or zero if the clock reads earlier
/// than the epoch. The value depends on the clock, so nothing more is
/// assumed of it.
#[verifier::external_body]
fn now_seconds() -> u64 {
    std::time::SystemTime::now()
        .duration_since(std::time::UNIX_EPOCH)
        .unwrap_or_default()
        .as_secs()
}

/// The decimal digit character for a value from 0 to 9.
pub open spec fn digit_char(d: int) -> char
    recommends
        0 <= d <= 9,
{
    ((0x30 + d) as char)
}

/// A value below 100 as exactly two decimal digits, zero-padded.
pub open spec fn two_digit_chars(n: int) -> Seq<char>
    recommends
        0 <= n < 100,
{
    seq![digit_char(n / 10), digit_char(n % 10)]
}

/// A non-negative value in decimal, without padding.
pub open spec fn dec_chars(n: int) -> Seq<char>
    decreases n,
{
    if n < 10 {
        seq![digit_char(n)]
    } else {
        dec_chars(n / 10) + seq![digit_char(n % 10)]
    }
}

/// The stamp inserted for a clock reading of `secs` seconds since the Unix
/// epoch: `hh:mm:ss mm/dd/yyyy`, from a simplified civil calendar that takes
/// every year as 365 days and every month as 30 days, in UTC.
pub open spec fn time_date_chars(secs: u64) -> Seq<char> {
    let datetime = secs % 86400;
    let hours = datetime / 3600;
    let minutes = (datetime % 3600) / 60;
    let seconds = datetime % 60;
    let days = secs / 86400;
    let epoch_days = days + 719163;
    let year = 1970 + epoch_days / 365;
    let day_of_year = epoch_days % 365;
    let month = day_of_year / 30 + 1;
    let day = day_of_year % 30 + 1;
    two_digit_chars(hours as int) + seq![':'] + two_digit_chars(minutes as int) + seq![':']
        + two_digit_chars(seconds as int) + seq![' '] + two_digit_chars(month as int) + seq!['/']
        + two_digit_chars(day as int) + seq!['/'] + dec_chars(year as int)
}

/// The decimal digit character for a value from 0 to 9, computed.
fn digit(d: u64) -> (c: char)
    requires
        d <= 9,
    ensures
        c == digit_char(d as int),
{
    proof {
        assert(vstd::utf8::is_scalar((0x30 + d) as u32));
    }
    char::from_u32((0x30 + d) as u32).unwrap()
}

/// Appends a value below 100 as two zero-padded decimal digits.
fn push_two_digits(out: &mut Vec<char>, n: u64)
    requires
        n < 100,
    ensures
        final (out)@ == old(out)@ + two_digit_chars(n as int),
{
    out.push(digit(n / 10));
    out.push(digit(n % 10));
    proof {
        assert(out@ =~= old(out)@ + two_digit_chars(n as int));
    }
}

/// Appends a value in decimal, without padding.
fn push_decimal(out: &mut Vec<char>, n: u64)
    ensures
        final (out)@ == old(out)@ + dec_chars(n as int),
    decreases n,
{
    if n < 10 {
        out.push(digit(n));
        proof {
            assert(out@ =~= old(out)@ + dec_chars(n as int));
        }
    } else {
        push_decimal(out, n / 10);
        out.push(digit(n % 10));
        proof {
            assert(out@ =~= old(out)@ + dec_chars(n as int));
        }
    }
}

/// The `hh:mm:ss mm/dd/yyyy` stamp for a clock reading, as
/// [`time_date_chars`] describes.
pub fn time_date_text(secs: u64) -> (r: Vec<char>)
    ensures
        r@ == time_date_chars(secs),
{
    let datetime = secs % 86400;
    let hours = datetime / 3600;
    let minutes = (datetime % 3600) / 60;
    let seconds = datetime % 60;
    let days = secs / 86400;
    let epoch_days = days + 719163;
    let year = 1970 + epoch_days / 365;
    let day_of_year = epoch_days % 365;
    let month = day_of_year / 30 + 1;
    let day = day_of_year % 30 + 1;
    let mut out: Vec<char> = Vec::new();
    push_two_digits(&mut out, hours);
    out.push(':');
    push_two_digits(&mut out, minutes);
    out.push(':');
    push_two_digits(&mut out, seconds);
    out.push(' ');
    push_two_digits(&mut out, month);
    out.push('/');
    push_two_digits(&mut out, day);
    out.push('/');
    push_decimal(&mut out, year);
    proof {
        assert(out@ =~= time_date_chars(secs));
    }
    out
}

/// Appends the current time and date to the text, as a stamp in the shape
/// [`time_date_chars`] gives. The clock decides the value, so the contract
/// promises a well-formed stamp for some clock reading; everything else in
/// the buffer is untouched.
pub fn insert_time_date(editor: &mut EditorState)
    ensures
        exists|secs: u64|
            final (editor).text@ == old(editor).text@ + time_date_chars(secs),
        final (editor).undo_history == old(editor).undo_history,
        final (editor).redo_history == old(editor).redo_history,
        final (editor).cursor_line == old(editor).cursor_line,
        final (editor).cursor_column == old(editor).cursor_column,
{
    let secs = now_seconds();
    let mut stamp = time_date_text(secs);
    editor.text.append(&mut stamp);
    proof {
        assert(final (editor).text@ == old(editor).text@ + time_date_chars(secs));
    }
}

} // verus!

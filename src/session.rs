//! What the probe's two streams and the keyboard do to a session, and how
//! the session ends.

use vstd::prelude::*;
use vstd::string::*;
use crate::ping::Ping;
use crate::ping_entry::{EntryType, PingEntry};

verus! {

/// A key press, as far as the session tells keys apart.
#[derive(Clone, Copy, Debug, PartialEq, Eq, Structural)]
pub enum Key {
    Char(char),
    Ctrl(char),
    Esc,
    Other,
}

pub open spec fn is_quit(k: Key) -> bool {
    k == Key::Char('q') || k == Key::Ctrl('c') || k == Key::Esc
}

/// Whether the key ends the session: `q`, Ctrl+C or Escape.
pub fn is_quit_key(k: Key) -> (r: bool)
    ensures
        r == is_quit(k),
{
    match k {
        Key::Char(c) => c == 'q',
        Key::Ctrl(c) => c == 'c',
        Key::Esc => true,
        Key::Other => false,
    }
}

/// The history after one line: a title goes to the header and anything else
/// is appended, except that a line from standard error is set aside while
/// the history is empty.
pub open spec fn after_line(h: Seq<PingEntry>, from_stderr: bool, e: PingEntry) -> Seq<PingEntry> {
    if from_stderr && h.len() == 0 {
        h
    } else if e.t is Title {
        h
    } else {
        h.push(e)
    }
}

/// The history after the lines `lines` (each tagged with whether it came
/// from standard error), in arrival order.
pub open spec fn after_lines(h: Seq<PingEntry>, lines: Seq<(bool, PingEntry)>) -> Seq<PingEntry>
    decreases lines.len(),
{
    if lines.len() == 0 {
        h
    } else {
        let prev = after_lines(h, lines.drop_last());
        after_line(prev, lines.last().0, lines.last().1)
    }
}

/// A line that goes to the history once the history holds something.
pub open spec fn is_history_line(l: (bool, PingEntry)) -> bool {
    !(l.1.t is Title)
}

/// The entries of the history lines among `lines`, in order.
pub open spec fn history_lines(lines: Seq<(bool, PingEntry)>) -> Seq<PingEntry>
    decreases lines.len(),
{
    if lines.len() == 0 {
        Seq::empty()
    } else {
        let prev = history_lines(lines.drop_last());
        if is_history_line(lines.last()) {
            prev.push(lines.last().1)
        } else {
            prev
        }
    }
}

/// Standard output's line `k` is the first that is not a title.
pub open spec fn first_output_entry(lines: Seq<(bool, PingEntry)>, k: int) -> bool {
    &&& 0 <= k < lines.len()
    &&& !lines[k].0 && !(lines[k].1.t is Title)
    &&& forall|j: int| 0 <= j < k ==> #[trigger] lines[j].0 || lines[j].1.t is Title
}

proof fn lemma_after_lines_split(h: Seq<PingEntry>, a: Seq<(bool, PingEntry)>, b: Seq<(bool, PingEntry)>)
    ensures
        after_lines(h, a + b) == after_lines(after_lines(h, a), b),
    decreases b.len(),
{
    if b.len() == 0 {
        assert(a + b =~= a);
    } else {
        assert((a + b).drop_last() =~= a + b.drop_last());
        lemma_after_lines_split(h, a, b.drop_last());
    }
}

proof fn lemma_history_lines_split(a: Seq<(bool, PingEntry)>, b: Seq<(bool, PingEntry)>)
    ensures
        history_lines(a + b) == history_lines(a) + history_lines(b),
    decreases b.len(),
{
    if b.len() == 0 {
        assert(a + b =~= a);
        assert(history_lines(a) + history_lines(b) =~= history_lines(a));
    } else {
        assert((a + b).drop_last() =~= a + b.drop_last());
        lemma_history_lines_split(a, b.drop_last());
        let e = b.last().1;
        assert(history_lines(a) + history_lines(b.drop_last()).push(e) =~= (history_lines(a)
            + history_lines(b.drop_last())).push(e));
    }
}

/// Once the history holds an entry, every non-title line from either
/// stream is appended, in arrival order, and nothing else is.
pub proof fn lemma_history_keeps_every_line(h: Seq<PingEntry>, lines: Seq<(bool, PingEntry)>)
    requires
        h.len() > 0,
    ensures
        after_lines(h, lines) == h + history_lines(lines),
    decreases lines.len(),
{
    if lines.len() == 0 {
        assert(h + history_lines(lines) =~= h);
    } else {
        lemma_history_keeps_every_line(h, lines.drop_last());
        assert((h + history_lines(lines.drop_last())).push(lines.last().1) =~= h + history_lines(
            lines.drop_last(),
        ).push(lines.last().1));
    }
}

proof fn lemma_quiet_start(lines: Seq<(bool, PingEntry)>)
    requires
        forall|j: int| 0 <= j < lines.len() ==> #[trigger] lines[j].0 || lines[j].1.t is Title,
    ensures
        after_lines(Seq::empty(), lines).len() == 0,
    decreases lines.len(),
{
    if lines.len() > 0 {
        assert forall|j: int| 0 <= j < lines.drop_last().len() implies #[trigger] lines.drop_last()[j].0
            || lines.drop_last()[j].1.t is Title by {
            assert(lines.drop_last()[j] == lines[j]);
        }
        lemma_quiet_start(lines.drop_last());
        assert(lines.last() == lines[lines.len() - 1]);
    }
}

/// From an empty history, the lines before standard output's first
/// non-title line leave no entry (error lines among them are set aside);
/// from that line on, every history line is appended in arrival order. With
/// no such line the history stays empty.
pub proof fn lemma_history_from_start(lines: Seq<(bool, PingEntry)>, k: int)
    requires
        first_output_entry(lines, k) || (k == lines.len() && forall|j: int|
            0 <= j < lines.len() ==> #[trigger] lines[j].0 || lines[j].1.t is Title),
    ensures
        after_lines(Seq::empty(), lines) == history_lines(lines.skip(k)),
{
    let before = lines.take(k);
    assert forall|j: int| 0 <= j < before.len() implies #[trigger] before[j].0 || before[j].1.t is Title by {
        assert(before[j] == lines[j]);
    }
    lemma_quiet_start(before);
    if k == lines.len() {
        assert(before =~= lines);
        assert(lines.skip(k).len() == 0);
        assert(after_lines(Seq::empty(), lines) =~= Seq::<PingEntry>::empty());
    } else {
        let first = lines.subrange(k, k + 1);
        let rest = lines.skip(k + 1);
        assert(lines =~= before + (first + rest));
        assert(before + (first + rest) =~= (before + first) + rest);
        lemma_after_lines_split(Seq::empty(), before + first, rest);
        lemma_after_lines_split(Seq::empty(), before, first);
        assert(after_lines(Seq::empty(), before) =~= Seq::<PingEntry>::empty());
        assert(first.drop_last() =~= Seq::<(bool, PingEntry)>::empty());
        assert(first.last() == lines[k]);
        assert(after_lines(Seq::<PingEntry>::empty(), first.drop_last()) == Seq::<PingEntry>::empty());
        assert(history_lines(first.drop_last()) == Seq::<PingEntry>::empty());
        let h1 = after_lines(Seq::empty(), before + first);
        assert(h1 =~= seq![lines[k].1]);
        lemma_history_keeps_every_line(h1, rest);
        assert(lines.skip(k) =~= first + rest);
        lemma_history_lines_split(first, rest);
        assert(history_lines(first) =~= seq![lines[k].1]);
    }
}

impl Ping {
    /// Applies a line from the probe's standard output: a title replaces the
    /// header, anything else is appended to the history.
    pub fn take_output_line(&mut self, entry: PingEntry)
        ensures
            final(self).histo@ == after_line(old(self).histo@, false, entry),
            entry.t is Title ==> final(self).header@ == entry.t.inner(),
            !(entry.t is Title) ==> final(self).header == old(self).header,
            final(self).config == old(self).config,
            final(self).term_size == old(self).term_size,
    {
        match entry.t {
            EntryType::Title(t) => {
                self.header = t;
            },
            _ => self.add(entry),
        }
    }

    /// Applies a line from the probe's standard error. While the history is
    /// empty the line, with a newline, is added to `diagnostics` and nothing
    /// is to be drawn (`false`). After that it is handled as a line from
    /// standard output (a title replaces the header, anything else is
    /// appended) and the frame is to be drawn again (`true`).
    pub fn take_error_line(&mut self, entry: PingEntry, diagnostics: &mut String) -> (redraw: bool)
        ensures
            final(self).histo@ == after_line(old(self).histo@, true, entry),
            redraw == (old(self).histo@.len() > 0),
            redraw ==> final(diagnostics)@ == old(diagnostics)@,
            !redraw ==> final(diagnostics)@ == old(diagnostics)@ + entry.t.inner() + "\n"@,
            redraw && entry.t is Title ==> final(self).header@ == entry.t.inner(),
            !(redraw && entry.t is Title) ==> final(self).header == old(self).header,
            final(self).config == old(self).config,
            final(self).term_size == old(self).term_size,
    {
        if self.histo.len() == 0 {
            diagnostics.append(entry.t.get_inner().as_str());
            diagnostics.append("\n");
            false
        } else {
            self.take_output_line(entry);
            true
        }
    }
}

/// The outcome once the probe's standard error is closed: success when no
/// diagnostic was set aside, else failure carrying them.
pub fn stream_end_outcome(diagnostics: String) -> (r: Result<(), String>)
    ensures
        diagnostics@.len() == 0 ==> r is Ok,
        diagnostics@.len() > 0 ==> r == Err::<(), String>(diagnostics),
{
    if diagnostics.unicode_len() == 0 {
        Ok(())
    } else {
        Err(diagnostics)
    }
}

/// The session's result after a resolution attempt: the first one stands.
pub open spec fn resolved(prior: Option<Result<(), String>>, outcome: Result<(), String>) -> Option<
    Result<(), String>,
> {
    match prior {
        Some(r) => Some(r),
        None => Some(outcome),
    }
}

/// Decides how the session ends: the first of the quit key and the end of
/// the probe's standard error.
pub struct Coordinator {
    pub result: Option<Result<(), String>>,
}

impl Coordinator {
    pub fn new() -> (r: Coordinator)
        ensures
            r.result is None,
    {
        Coordinator { result: None }
    }

    /// Offers an outcome; it is kept only if none was before.
    pub fn resolve(&mut self, outcome: Result<(), String>)
        ensures
            final(self).result == resolved(old(self).result, outcome),
    {
        if self.result.is_none() {
            self.result = Some(outcome);
        }
    }
}

/// A quit key before the end of standard error makes the session succeed,
/// whatever diagnostics were set aside; the end of standard error first,
/// with diagnostics, makes it fail with exactly those.
pub proof fn lemma_first_resolution_wins(diagnostics: String)
    ensures
        resolved(resolved(None, Ok(())), Err(diagnostics)) == Some(Ok::<(), String>(())),
        diagnostics@.len() > 0 ==> resolved(resolved(None, Err(diagnostics)), Ok(())) == Some(
            Err::<(), String>(diagnostics),
        ),
{
}

} // verus!

//! The session state that the probe's streams feed, and the frame drawn from it.

use vstd::prelude::*;
use vstd::string::*;
use crate::config::Config;
use crate::ping_entry::{glyph_seq, tier_of, PingEntry, Tier};
use crate::terminal::{
    bg, bg_seq, bold, bold_seq, clear_all, clear_seq, fg, fg_seq, goto, goto_seq, reset, reset_seq,
};

verus! {

/// The last `k` items of `h`, in order.
pub open spec fn latest(h: Seq<PingEntry>, k: int) -> Seq<PingEntry> {
    h.subrange(h.len() - k, h.len() as int)
}

pub open spec fn min(a: int, b: int) -> int {
    if a <= b {
        a
    } else {
        b
    }
}

pub open spec fn shown_row(b: bool) -> int {
    if b {
        0
    } else {
        1
    }
}

/// The history rows of `h`, the first at row `row`, one entry per row.
pub open spec fn rows_text(h: Seq<PingEntry>, row: int) -> Seq<char>
    decreases h.len(),
{
    if h.len() == 0 {
        Seq::empty()
    } else {
        rows_text(h.drop_last(), row) + goto_seq(1, (row + h.len() - 1) as nat)
            + h.last().print_text()
    }
}

/// One glyph per entry of `h`, each followed by a style reset.
pub open spec fn glyphs_text(h: Seq<PingEntry>) -> Seq<char>
    decreases h.len(),
{
    if h.len() == 0 {
        Seq::empty()
    } else {
        glyphs_text(h.drop_last()) + glyph_seq(tier_of(h.last().time_us as int)) + reset_seq()
    }
}

pub open spec fn legend_item(t: Tier, label: Seq<char>) -> Seq<char> {
    glyph_seq(t) + " < "@ + label + "ms "@
}

/// The legend at row `row`: each tier's glyph with its bound, then the
/// error mark.
pub open spec fn legend_text(row: int) -> Seq<char> {
    goto_seq(1, row as nat) + fg_seq(7) + "Legend: "@ + legend_item(Tier::UpTo10, "10"@)
        + legend_item(Tier::UpTo20, "20"@) + legend_item(Tier::UpTo50, "50"@) + legend_item(
        Tier::UpTo100,
        "100"@,
    ) + legend_item(Tier::UpTo200, "200"@) + legend_item(Tier::UpTo500, "500"@) + legend_item(
        Tier::UpTo1000,
        "1000"@,
    ) + glyph_seq(Tier::Above1000) + " > 1000ms "@ + glyph_seq(Tier::Unreachable) + " Error"@
        + reset_seq()
}

pub open spec fn too_small_text() -> Seq<char> {
    "Error: Too small terminal\n"@
}

/// The session state: display switches, the latest title, every reading
/// and error line in arrival order, and the terminal size (columns, rows).
pub struct Ping {
    pub config: Config,
    pub header: String,
    pub histo: Vec<PingEntry>,
    pub term_size: (u16, u16),
}

impl Ping {
    /// The rows left to the history once the other enabled sections have one each.
    pub open spec fn history_room(&self) -> int {
        let used = shown_row(self.config.no_legend) + shown_row(self.config.no_graph) + shown_row(
            self.config.no_title,
        );
        if self.term_size.1 >= used {
            self.term_size.1 - used
        } else {
            0
        }
    }

    /// The entries that the history section draws: the latest that fit.
    pub open spec fn history_shown(&self) -> Seq<PingEntry> {
        latest(self.histo@, min(self.history_room(), self.histo@.len() as int))
    }

    /// The entries that the histogram draws: the latest, one per column.
    pub open spec fn histogram_shown(&self) -> Seq<PingEntry> {
        latest(self.histo@, min(self.term_size.0 as int, self.histo@.len() as int))
    }

    pub open spec fn history_row(&self) -> int {
        if self.config.no_title {
            1
        } else {
            2
        }
    }

    /// The row below the history rows drawn: the cursor moves down by as
    /// many rows as the history section drew.
    pub open spec fn histogram_row(&self) -> int {
        if self.config.no_history {
            self.history_row()
        } else {
            self.history_row() + self.history_shown().len()
        }
    }

    pub open spec fn legend_row(&self) -> int {
        if self.config.no_graph {
            self.histogram_row()
        } else {
            self.histogram_row() + 1
        }
    }

    pub open spec fn title_text(&self) -> Seq<char> {
        if self.config.no_title {
            Seq::empty()
        } else {
            goto_seq(1, 1) + bold_seq() + bg_seq(7) + fg_seq(0) + self.header@ + reset_seq()
        }
    }

    pub open spec fn history_text(&self) -> Seq<char> {
        if self.config.no_history {
            Seq::empty()
        } else {
            rows_text(self.history_shown(), self.history_row()) + reset_seq()
        }
    }

    pub open spec fn histogram_text(&self) -> Seq<char> {
        if self.config.no_graph {
            Seq::empty()
        } else {
            goto_seq(1, self.histogram_row() as nat) + glyphs_text(self.histogram_shown())
        }
    }

    pub open spec fn legend_section(&self) -> Seq<char> {
        if self.config.no_legend {
            Seq::empty()
        } else {
            legend_text(self.legend_row())
        }
    }

    /// The full frame: a clear, then each enabled section from the top.
    pub open spec fn frame(&self) -> Seq<char> {
        clear_seq() + self.title_text() + self.history_text() + self.histogram_text()
            + self.legend_section()
    }

    /// A session with no title and no entries yet.
    pub fn new(config: Config, term_size: (u16, u16)) -> (r: Ping)
        ensures
            r.config == config,
            r.header@.len() == 0,
            r.histo@.len() == 0,
            r.term_size == term_size,
    {
        Ping { config, header: String::new(), histo: Vec::new(), term_size }
    }

    /// Appends an entry to the history.
    pub fn add(&mut self, entry: PingEntry)
        ensures
            final(self).histo@ == old(self).histo@.push(entry),
            final(self).header == old(self).header,
            final(self).config == old(self).config,
            final(self).term_size == old(self).term_size,
    {
        self.histo.push(entry);
    }

    fn legend_entry(s: &mut String, time_us: i64, label: &str)
        ensures
            final(s)@ == old(s)@ + legend_item(tier_of(time_us as int), label@),
    {
        s.append(PingEntry::get_histo_char(time_us).as_str());
        s.append(" < ");
        s.append(label);
        s.append("ms ");
    }

    fn print_legend(&self, row: u16) -> (r: String)
        ensures
            r@ == legend_text(row as int),
    {
        let mut s = goto(1, row);
        s.append(fg(7).as_str());
        s.append("Legend: ");
        Self::legend_entry(&mut s, 10_000, "10");
        Self::legend_entry(&mut s, 20_000, "20");
        Self::legend_entry(&mut s, 50_000, "50");
        Self::legend_entry(&mut s, 100_000, "100");
        Self::legend_entry(&mut s, 200_000, "200");
        Self::legend_entry(&mut s, 500_000, "500");
        Self::legend_entry(&mut s, 1_000_000, "1000");
        s.append(PingEntry::get_histo_char(1_000_100).as_str());
        s.append(" > 1000ms ");
        s.append(PingEntry::get_histo_char(-1000).as_str());
        s.append(" Error");
        s.append(reset().as_str());
        s
    }

    fn history_room_exec(&self) -> (r: usize)
        ensures
            r == self.history_room(),
    {
        let used: u16 = (if self.config.no_legend {
            0
        } else {
            1
        }) + (if self.config.no_graph {
            0
        } else {
            1
        }) + (if self.config.no_title {
            0
        } else {
            1
        });
        if self.term_size.1 >= used {
            (self.term_size.1 - used) as usize
        } else {
            0
        }
    }

    fn print_history(&self) -> (r: String)
        requires
            self.history_row() + self.history_room() <= u16::MAX + 1,
        ensures
            r@ == rows_text(self.history_shown(), self.history_row()) + reset_seq(),
    {
        let row: u16 = if self.config.no_title {
            1
        } else {
            2
        };
        let room = self.history_room_exec();
        let len = self.histo.len();
        let k = if room <= len {
            room
        } else {
            len
        };
        let first = len - k;
        let mut s = String::new();
        let mut j: usize = 0;
        while j < k
            invariant
                k <= room,
                k <= len,
                len == self.histo@.len(),
                first == len - k,
                row == self.history_row(),
                room == self.history_room(),
                row + room <= u16::MAX + 1,
                j <= k,
                s@ == rows_text(self.histo@.subrange(first as int, first + j), row as int),
            decreases k - j,
        {
            let ghost before = self.histo@.subrange(first as int, first + j);
            let ghost after = self.histo@.subrange(first as int, first + j + 1);
            assert(after.drop_last() =~= before);
            s.append(goto(1, row + j as u16).as_str());
            s.append(self.histo[first + j].print().as_str());
            j = j + 1;
        }
        assert(self.histo@.subrange(first as int, first + k) =~= self.history_shown());
        s.append(reset().as_str());
        s
    }

    fn print_histogram(&self, row: u16) -> (r: String)
        ensures
            r@ == goto_seq(1, row as nat) + glyphs_text(self.histogram_shown()),
    {
        let mut s = goto(1, row);
        let len = self.histo.len();
        let cols = self.term_size.0 as usize;
        let k = if cols <= len {
            cols
        } else {
            len
        };
        let first = len - k;
        let ghost head = s@;
        let mut j: usize = 0;
        while j < k
            invariant
                k <= len,
                k == min(self.term_size.0 as int, len as int),
                len == self.histo@.len(),
                first == len - k,
                j <= k,
                s@ == head + glyphs_text(self.histo@.subrange(first as int, first + j)),
            decreases k - j,
        {
            let ghost before = self.histo@.subrange(first as int, first + j);
            let ghost after = self.histo@.subrange(first as int, first + j + 1);
            assert(after.drop_last() =~= before);
            s.append(PingEntry::get_histo_char(self.histo[first + j].time_us).as_str());
            s.append(reset().as_str());
            j = j + 1;
        }
        assert(self.histo@.subrange(first as int, first + k) =~= self.histogram_shown());
        s
    }

    fn title_string(&self) -> (r: String)
        ensures
            r@ == self.title_text(),
    {
        if self.config.no_title {
            return String::new();
        }
        let mut s = goto(1, 1);
        s.append(bold().as_str());
        s.append(bg(7).as_str());
        s.append(fg(0).as_str());
        s.append(self.header.as_str());
        s.append(reset().as_str());
        s
    }

    fn history_string(&self) -> (r: String)
        ensures
            r@ == self.history_text(),
    {
        if self.config.no_history {
            return String::new();
        }
        self.print_history()
    }

    fn history_count_exec(&self) -> (r: usize)
        ensures
            r == self.history_shown().len(),
            r == min(self.history_room(), self.histo@.len() as int),
    {
        let room = self.history_room_exec();
        if room <= self.histo.len() {
            room
        } else {
            self.histo.len()
        }
    }

    fn histogram_row_exec(&self) -> (r: u16)
        requires
            !self.config.no_graph || !self.config.no_legend,
        ensures
            r == self.histogram_row(),
            !self.config.no_legend ==> r + shown_row(self.config.no_graph) <= u16::MAX,
    {
        let row: u16 = if self.config.no_title {
            1
        } else {
            2
        };
        if self.config.no_history {
            row
        } else {
            let count = self.history_count_exec();
            (row as u32 + count as u32) as u16
        }
    }

    fn histogram_string(&self) -> (r: String)
        ensures
            r@ == self.histogram_text(),
    {
        if self.config.no_graph {
            return String::new();
        }
        self.print_histogram(self.histogram_row_exec())
    }

    fn legend_string(&self) -> (r: String)
        ensures
            r@ == self.legend_section(),
    {
        if self.config.no_legend {
            return String::new();
        }
        let graph_row = self.histogram_row_exec();
        let row: u16 = if self.config.no_graph {
            graph_row
        } else {
            graph_row + 1
        };
        self.print_legend(row)
    }

    /// Records the terminal size just measured and draws the frame for it;
    /// with no column or no row left, the text that says so instead.
    pub fn print(&mut self, term_size: (u16, u16)) -> (r: String)
        ensures
            final(self).term_size == term_size,
            final(self).config == old(self).config,
            final(self).header == old(self).header,
            final(self).histo@ == old(self).histo@,
            term_size.0 == 0 || term_size.1 == 0 ==> r@ == too_small_text(),
            term_size.0 > 0 && term_size.1 > 0 ==> r@ == final(self).frame(),
    {
        self.term_size = term_size;
        if term_size.0 == 0 || term_size.1 == 0 {
            return String::from_str("Error: Too small terminal\n");
        }
        let mut s = clear_all();
        s.append(self.title_string().as_str());
        s.append(self.history_string().as_str());
        s.append(self.histogram_string().as_str());
        s.append(self.legend_string().as_str());
        s
    }
}

} // verus!

verus! {

/// The history section draws `min(room, entries)` entries and the histogram
/// `min(columns, entries)` glyphs; each shows the latest entries, in arrival
/// order.
pub proof fn lemma_sections_show_latest(p: Ping)
    ensures
        p.history_shown().len() == min(p.history_room(), p.histo@.len() as int),
        p.histogram_shown().len() == min(p.term_size.0 as int, p.histo@.len() as int),
        forall|i: int|
            0 <= i < p.history_shown().len() ==> #[trigger] p.history_shown()[i] == p.histo@[p.histo@.len()
                - p.history_shown().len() + i],
        forall|i: int|
            0 <= i < p.histogram_shown().len() ==> #[trigger] p.histogram_shown()[i] == p.histo@[
                p.histo@.len() - p.histogram_shown().len() + i],
{
}

} // verus!

verus! {

/// When the terminal has a row for each enabled section besides the
/// history, the sections stack from the top without sharing a row: the
/// title on row 1, the history rows next, then the histogram, then the
/// legend, all within the terminal's rows.
pub proof fn lemma_sections_stack(p: Ping)
    requires
        p.term_size.1 >= shown_row(p.config.no_title) + shown_row(p.config.no_graph) + shown_row(
            p.config.no_legend,
        ),
    ensures
        p.history_row() == 1 + shown_row(p.config.no_title),
        p.histogram_row() == p.history_row() + (if p.config.no_history {
            0
        } else {
            p.history_shown().len() as int
        }),
        p.legend_row() == p.histogram_row() + shown_row(p.config.no_graph),
        !p.config.no_history && p.history_shown().len() > 0 ==> p.history_row()
            + p.history_shown().len() - 1 <= p.term_size.1,
        !p.config.no_graph ==> p.histogram_row() <= p.term_size.1,
        !p.config.no_legend ==> p.legend_row() <= p.term_size.1,
{
}

} // verus!

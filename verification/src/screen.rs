use crate::escape::{fg_green, fg_light_yellow, fg_red, fg_reset};
use crate::render::{seq_op_views, OpView, RenderOp};
use crate::text::{
    is_blank, is_blank_spec, seq_views, split_crlf, split_crlf_lines, tail_chars, tail_string,
    trim_end_spec, trim_end_string, wrap_of, wrap_text,
};
use crate::{HISTORY_CAPACITY, OUTPUT_START_LINE, SCROLL_STEP};
use vstd::prelude::*;
use vstd::string::StringExecFns;

verus! {

/// Whether the output region follows the live tail of the transcript
/// or shows a fixed historical window.
#[derive(Clone, Copy)]
pub enum ScrollState {
    /// The output region shows the most recent lines; each new line
    /// pushes the older ones up.
    Live,
    /// The output region shows `visible_rows` lines of history
    /// beginning at `start`; new lines are logged but not shown.
    Scrollback { start: usize },
}

/// One line appended to the log after a single eviction check: the
/// line goes to the end, and if the log has then reached capacity
/// the oldest line leaves.
pub open spec fn append1(h: Seq<Seq<char>>, l: Seq<char>) -> Seq<Seq<char>> {
    let h2 = h.push(l);
    if h2.len() >= HISTORY_CAPACITY {
        h2.drop_first()
    } else {
        h2
    }
}

/// A sequence of fragments appended one at a time, each with its own
/// eviction check.
pub open spec fn append_frags(h: Seq<Seq<char>>, frags: Seq<Seq<char>>) -> Seq<Seq<char>>
    decreases frags.len(),
{
    if frags.len() == 0 {
        h
    } else {
        append_frags(append1(h, frags.first()), frags.drop_first())
    }
}

/// A sequence of display lines appended in order, each first split
/// on embedded line separators.
pub open spec fn append_lines(h: Seq<Seq<char>>, ls: Seq<Seq<char>>) -> Seq<Seq<char>>
    decreases ls.len(),
{
    if ls.len() == 0 {
        h
    } else {
        append_lines(append_frags(h, split_crlf(ls.first())), ls.drop_first())
    }
}

/// The display lines one semantic line turns into: a blank line
/// passes through whole, anything else is wrapped to the width.
pub open spec fn output_frags(l: Seq<char>, w: u16) -> Seq<Seq<char>> {
    if is_blank_spec(l) {
        seq![l]
    } else {
        wrap_of(l, w as nat)
    }
}

/// A user-sent line as it is logged: a `"> "` marker in light
/// yellow, with the foreground color reset at line end.
pub open spec fn sent_line(s: Seq<char>) -> Seq<char> {
    "\u{1b}[38;5;11m"@ + "> "@ + s + "\u{1b}[39m"@
}

/// An informational line as it is logged: a fixed marker, no color.
pub open spec fn info_line(s: Seq<char>) -> Seq<char> {
    "[**] "@ + s
}

/// An error line as it is logged: a fixed marker in red, with the
/// foreground color reset at line end.
pub open spec fn error_line(s: Seq<char>) -> Seq<char> {
    "\u{1b}[38;5;1m"@ + "[!!] "@ + s + "\u{1b}[39m"@
}

/// The render operations that show one new line while live: scroll
/// the output region up one row, write the line on the freed bottom
/// row, and put the cursor back on the prompt row.
pub open spec fn live_line_ops(l: Seq<char>, out: u16, pr: u16) -> Seq<OpView> {
    seq![
        OpView::Goto(1, out),
        OpView::ScrollUp(1),
        OpView::Write(l),
        OpView::Goto(1, pr),
    ]
}

/// `live_line_ops` for each line in turn.
pub open spec fn live_lines_ops(ls: Seq<Seq<char>>, out: u16, pr: u16) -> Seq<OpView>
    decreases ls.len(),
{
    if ls.len() == 0 {
        Seq::empty()
    } else {
        live_line_ops(ls.first(), out, pr) + live_lines_ops(ls.drop_first(), out, pr)
    }
}

/// The window redraw: for each of `count` output rows, address the
/// row directly, clear it, and write the history line `start + i`.
pub open spec fn window_ops(h: Seq<Seq<char>>, start: int, count: int) -> Seq<OpView>
    decreases count,
{
    if count <= 0 {
        Seq::empty()
    } else {
        window_ops(h, start, count - 1) + seq![
            OpView::Goto(1, (OUTPUT_START_LINE + count - 1) as u16),
            OpView::ClearLine,
            OpView::Write(h[start + count - 1]),
        ]
    }
}

/// The replay redraw for a log still shorter than the window: every
/// line is pushed through the scroll-up-one-row primitive in order,
/// so the screen ends up in array order.
pub open spec fn replay_ops(h: Seq<Seq<char>>, out: u16) -> Seq<OpView>
    decreases h.len(),
{
    if h.len() == 0 {
        Seq::empty()
    } else {
        replay_ops(h.drop_last(), out) + seq![
            OpView::Goto(1, out),
            OpView::ScrollUp(1),
            OpView::Write(h.last()),
        ]
    }
}

/// The tail redraw, which resynchronizes the screen with the live
/// tail: a window redraw of the last `vis` lines when the log fills
/// the window, a replay of the whole log otherwise.
pub open spec fn tail_ops(h: Seq<Seq<char>>, out: u16, vis: int) -> Seq<OpView> {
    if h.len() >= vis {
        window_ops(h, h.len() - vis, vis)
    } else {
        replay_ops(h, out)
    }
}

/// The operations that redraw the prompt row with the tail of the
/// current input line.
pub open spec fn prompt_input_ops(l: Seq<char>, w: u16, pr: u16) -> Seq<OpView> {
    seq![OpView::Goto(1, pr), OpView::ClearLine, OpView::Write(tail_chars(l, w as int))]
}

/// Where a scroll-up command moves the window start: the current
/// start (for live, the start of the tail window), moved up by the
/// scroll step, stopping at the top.
pub open spec fn up_start(st: ScrollState, len: int, vis: int) -> int {
    let s0: int = match st {
        ScrollState::Live => len - vis,
        ScrollState::Scrollback { start } => start as int,
    };
    if s0 <= SCROLL_STEP as int {
        0
    } else {
        s0 - SCROLL_STEP as int
    }
}

/// The state transition of a scroll-up command.
pub open spec fn up_step(st: ScrollState, len: int, vis: int) -> ScrollState {
    if len <= vis {
        st
    } else {
        ScrollState::Scrollback { start: up_start(st, len, vis) as usize }
    }
}

/// The state transition of a scroll-down command: the window moves
/// down by the scroll step, and when it would reach (or pass) the
/// tail window the controller returns to live.
pub open spec fn down_step(st: ScrollState, len: int, vis: int) -> ScrollState {
    match st {
        ScrollState::Live => ScrollState::Live,
        ScrollState::Scrollback { start } => {
            if start + SCROLL_STEP >= len - vis {
                ScrollState::Live
            } else {
                ScrollState::Scrollback { start: (start + SCROLL_STEP as int) as usize }
            }
        },
    }
}

/// The same character over and over.
pub open spec fn repeat_char(c: char, n: int) -> Seq<char> {
    Seq::new(if n < 0 { 0 } else { n as nat }, |i: int| c)
}

/// A full-width separator row: the filler character repeated across
/// the width, in green, with the foreground color reset at the end.
pub open spec fn separator_text(c: char, w: int) -> Seq<char> {
    "\u{1b}[38;5;2m"@ + repeat_char(c, w) + "\u{1b}[39m"@
}

/// The operations that set a terminal of the given size up: clear
/// everything, restrict scrolling to the output region, leave origin
/// mode, and draw the two separator rows that frame it.
pub open spec fn setup_ops(w: u16, h: u16) -> Seq<OpView> {
    seq![
        OpView::ClearAll,
        OpView::ResetScrollRegion,
        OpView::SetScrollRegion(OUTPUT_START_LINE, (h - 2) as u16),
        OpView::DisableOriginMode,
        OpView::Goto(1, 1),
        OpView::ClearLine,
        OpView::Write(separator_text('=', w as int)),
        OpView::Goto(1, (h - 1) as u16),
        OpView::ClearLine,
        OpView::Write(separator_text('_', w as int)),
    ]
}

/// What a geometry change makes of the scroll state: live stays
/// live, and a scrollback window keeps its place, clamped into the
/// new bounds — it returns to live only when the log no longer
/// exceeds the new window, where scrollback cannot exist.
pub open spec fn resize_state(st: ScrollState, len: int, vis: int) -> ScrollState {
    match st {
        ScrollState::Live => ScrollState::Live,
        ScrollState::Scrollback { start } => {
            if len <= vis {
                ScrollState::Live
            } else if start as int <= len - vis {
                st
            } else {
                ScrollState::Scrollback { start: (len - vis) as usize }
            }
        },
    }
}

/// The scrollback invariant: a scrollback window starts no earlier
/// than the first line and no later than the start of the tail
/// window.
pub open spec fn state_inv(st: ScrollState, len: int, vis: int) -> bool {
    match st {
        ScrollState::Live => true,
        ScrollState::Scrollback { start } => len > vis && start as int <= len - vis,
    }
}

/// The display layer: a bounded history log and a two-mode viewport
/// controller over a fixed-size terminal. Methods return the render
/// operations to perform, in order; the host carries them out.
pub struct Screen {
    width: u16,
    height: u16,
    output_line: u16,
    prompt_line: u16,
    history: Vec<String>,
    state: ScrollState,
}

impl Screen {
    /// The logged lines, oldest first.
    pub closed spec fn hist(self) -> Seq<Seq<char>> {
        seq_views(self.history@)
    }

    pub closed spec fn width_spec(self) -> u16 {
        self.width
    }

    pub closed spec fn height_spec(self) -> u16 {
        self.height
    }

    /// The last row of the output region.
    pub closed spec fn output_line_spec(self) -> u16 {
        self.output_line
    }

    /// The row of the prompt.
    pub closed spec fn prompt_line_spec(self) -> u16 {
        self.prompt_line
    }

    pub closed spec fn state_spec(self) -> ScrollState {
        self.state
    }

    /// How many rows the output region has.
    pub open spec fn visible_rows(self) -> int {
        self.output_line_spec() - OUTPUT_START_LINE + 1
    }

    /// Well-formedness: the geometry is consistent, the log is within
    /// capacity, and a scrollback window is in bounds.
    pub open spec fn wf(self) -> bool {
        &&& self.width_spec() >= 1
        &&& self.height_spec() >= 4
        &&& self.output_line_spec() == self.height_spec() - 2
        &&& self.prompt_line_spec() == self.height_spec()
        &&& self.hist().len() < HISTORY_CAPACITY
        &&& state_inv(self.state_spec(), self.hist().len() as int, self.visible_rows())
    }

    /// The geometry of `a` equals the geometry of `b`.
    pub open spec fn same_frame(a: Screen, b: Screen) -> bool {
        &&& a.width_spec() == b.width_spec()
        &&& a.height_spec() == b.height_spec()
        &&& a.output_line_spec() == b.output_line_spec()
        &&& a.prompt_line_spec() == b.prompt_line_spec()
    }

    /// A fresh controller for a terminal of the given size: empty
    /// history, live mode. Row 1 is reserved for the header
    /// separator, the last row for the prompt, the row above it for
    /// the footer separator.
    pub fn new(width: u16, height: u16) -> (s: Screen)
        requires
            width >= 1,
            height >= 4,
        ensures
            s.wf(),
            s.width_spec() == width,
            s.height_spec() == height,
            s.output_line_spec() == height - 2,
            s.prompt_line_spec() == height,
            s.hist() == Seq::<Seq<char>>::empty(),
            s.state_spec() is Live,
    {
        let s = Screen {
            width,
            height,
            output_line: height - 2,
            prompt_line: height,
            history: Vec::new(),
            state: ScrollState::Live,
        };
        proof {
            assert(s.hist() =~~= Seq::<Seq<char>>::empty());
        }
        s
    }

    pub fn is_live(&self) -> (r: bool)
        ensures
            r == (self.state_spec() is Live),
    {
        match self.state {
            ScrollState::Live => true,
            ScrollState::Scrollback { .. } => false,
        }
    }

    pub fn scroll_window_start(&self) -> (r: Option<usize>)
        ensures
            match self.state_spec() {
                ScrollState::Live => r is None,
                ScrollState::Scrollback { start } => r == Some(start),
            },
    {
        match self.state {
            ScrollState::Live => None,
            ScrollState::Scrollback { start } => Some(start),
        }
    }

    pub fn history_len(&self) -> (r: usize)
        ensures
            r == self.hist().len(),
    {
        self.history.len()
    }

    pub fn history_line(&self, i: usize) -> (r: String)
        requires
            i < self.hist().len(),
        ensures
            r@ == self.hist()[i as int],
    {
        self.history[i].clone()
    }

    pub fn visible_row_count(&self) -> (r: usize)
        requires
            self.wf(),
        ensures
            r == self.visible_rows(),
    {
        (self.output_line - OUTPUT_START_LINE) as usize + 1
    }

    /// Prepares the screen for the given terminal size: recomputes
    /// the geometry and returns the operations that clear the
    /// device, set the scroll region, and draw the separator rows.
    /// The host calls this at startup and whenever it detects a
    /// resize. The scroll state is kept — a user reviewing history
    /// does not lose their place — with the window start clamped
    /// into the new bounds; resynchronizing the view with the live
    /// tail is the host's separate, explicit `reset_scroll` call.
    pub fn setup(&mut self, width: u16, height: u16) -> (r: Vec<RenderOp>)
        requires
            old(self).wf(),
            width >= 1,
            height >= 4,
        ensures
            final(self).wf(),
            final(self).hist() == old(self).hist(),
            final(self).state_spec() == resize_state(
                old(self).state_spec(),
                old(self).hist().len() as int,
                final(self).visible_rows(),
            ),
            final(self).width_spec() == width,
            final(self).height_spec() == height,
            final(self).output_line_spec() == height - 2,
            final(self).prompt_line_spec() == height,
            seq_op_views(r@) == setup_ops(width, height),
    {
        self.width = width;
        self.height = height;
        self.output_line = height - 2;
        self.prompt_line = height;
        let vis: usize = (self.output_line - OUTPUT_START_LINE) as usize + 1;
        match self.state {
            ScrollState::Live => {},
            ScrollState::Scrollback { start } => {
                if self.history.len() <= vis {
                    self.state = ScrollState::Live;
                } else {
                    let max_start: usize = self.history.len() - vis;
                    if start > max_start {
                        self.state = ScrollState::Scrollback { start: max_start };
                    }
                }
            },
        }
        proof {
            reveal_strlit("=");
            reveal_strlit("_");
        }
        let mut r: Vec<RenderOp> = Vec::new();
        r.push(RenderOp::ClearAll);
        r.push(RenderOp::ResetScrollRegion);
        r.push(RenderOp::SetScrollRegion(OUTPUT_START_LINE, self.output_line));
        r.push(RenderOp::DisableOriginMode);
        r.push(RenderOp::Goto(1, 1));
        r.push(RenderOp::ClearLine);
        let mut sep1 = fg_green();
        let row1 = char_row("=", width);
        sep1.append(row1.as_str());
        let reset1 = fg_reset();
        sep1.append(reset1.as_str());
        proof {
            assert(sep1@ =~= separator_text('=', width as int));
        }
        r.push(RenderOp::Write(sep1));
        r.push(RenderOp::Goto(1, self.output_line + 1));
        r.push(RenderOp::ClearLine);
        let mut sep2 = fg_green();
        let row2 = char_row("_", width);
        sep2.append(row2.as_str());
        let reset2 = fg_reset();
        sep2.append(reset2.as_str());
        proof {
            assert(sep2@ =~= separator_text('_', width as int));
        }
        r.push(RenderOp::Write(sep2));
        proof {
            assert(seq_op_views(r@) =~~= setup_ops(width, height));
        }
        r
    }

    /// Returns the operations that clear the whole screen and lift
    /// the scroll-region restriction. The controller itself does not
    /// change.
    pub fn reset(&mut self) -> (r: Vec<RenderOp>)
        requires
            old(self).wf(),
        ensures
            *final(self) == *old(self),
            seq_op_views(r@) == seq![OpView::ClearAll, OpView::ResetScrollRegion],
    {
        let mut r: Vec<RenderOp> = Vec::new();
        r.push(RenderOp::ClearAll);
        r.push(RenderOp::ResetScrollRegion);
        proof {
            assert(seq_op_views(r@) =~~= seq![OpView::ClearAll, OpView::ResetScrollRegion]);
        }
        r
    }

    /// Appends one incoming line to the log, splitting it first on
    /// embedded line separators and evicting the oldest line whenever
    /// the log reaches capacity.
    fn append_to_history(&mut self, line: &str)
        requires
            old(self).wf(),
        ensures
            final(self).wf(),
            final(self).hist() == append_frags(old(self).hist(), split_crlf(line@)),
            final(self).state_spec() == old(self).state_spec(),
            Self::same_frame(*final(self), *old(self)),
            final(self).hist().len() >= old(self).hist().len(),
    {
        let frags = split_crlf_lines(line);
        let ghost frs = split_crlf(line@);
        let mut idx: usize = 0;
        while idx < frags.len()
            invariant
                seq_views(frags@) == frs,
                idx <= frags@.len(),
                self.hist() == append_frags(old(self).hist(), frs.take(idx as int)),
                self.hist().len() < HISTORY_CAPACITY,
                self.hist().len() >= old(self).hist().len(),
                self.state_spec() == old(self).state_spec(),
                Self::same_frame(*self, *old(self)),
                old(self).wf(),
            decreases frags@.len() - idx,
        {
            let ghost pre = self.hist();
            let f = frags[idx].clone();
            proof {
                assert(f@ == frs[idx as int]);
            }
            self.history.push(f);
            if self.history.len() >= HISTORY_CAPACITY {
                self.history.remove(0);
                proof {
                    assert(self.hist() =~~= pre.push(frs[idx as int]).drop_first());
                }
            } else {
                proof {
                    assert(self.hist() =~~= pre.push(frs[idx as int]));
                }
            }
            proof {
                assert(self.hist() == append1(pre, frs[idx as int]));
                lemma_append_frags_take_succ(old(self).hist(), frs, idx as int);
            }
            idx = idx + 1;
        }
        proof {
            assert(frs.take(frags@.len() as int) =~~= frs);
        }
    }

    /// The window redraw: rewrites every output row from history,
    /// starting at `start`, by direct cursor addressing.
    fn draw_window(&self, start: usize) -> (r: Vec<RenderOp>)
        requires
            self.wf(),
            start as int + self.visible_rows() <= self.hist().len(),
        ensures
            seq_op_views(r@) == window_ops(self.hist(), start as int, self.visible_rows()),
    {
        let vis: usize = (self.output_line - OUTPUT_START_LINE) as usize + 1;
        let mut r: Vec<RenderOp> = Vec::new();
        let mut i: usize = 0;
        proof {
            assert(seq_op_views(r@) =~~= window_ops(self.hist(), start as int, 0));
        }
        while i < vis
            invariant
                self.wf(),
                vis as int == self.visible_rows(),
                start as int + vis as int <= self.hist().len(),
                i <= vis,
                seq_op_views(r@) == window_ops(self.hist(), start as int, i as int),
            decreases vis - i,
        {
            proof {
                assert(OUTPUT_START_LINE as int + i < self.output_line_spec() as int + 1);
            }
            let row: u16 = OUTPUT_START_LINE + (i as u16);
            r.push(RenderOp::Goto(1, row));
            r.push(RenderOp::ClearLine);
            r.push(RenderOp::Write(self.history[start + i].clone()));
            proof {
                assert(seq_op_views(r@) =~~= window_ops(
                    self.hist(),
                    start as int,
                    i as int + 1,
                ));
            }
            i = i + 1;
        }
        r
    }

    /// The tail redraw: a window redraw of the last lines when the
    /// log fills the window, otherwise a replay of the whole log.
    fn tail_redraw(&self) -> (r: Vec<RenderOp>)
        requires
            self.wf(),
        ensures
            seq_op_views(r@) == tail_ops(
                self.hist(),
                self.output_line_spec(),
                self.visible_rows(),
            ),
    {
        let vis: usize = (self.output_line - OUTPUT_START_LINE) as usize + 1;
        if self.history.len() >= vis {
            self.draw_window(self.history.len() - vis)
        } else {
            let mut r: Vec<RenderOp> = Vec::new();
            let mut i: usize = 0;
            proof {
                assert(seq_op_views(r@) =~~= replay_ops(
                    self.hist().take(0),
                    self.output_line_spec(),
                ));
            }
            while i < self.history.len()
                invariant
                    self.wf(),
                    i <= self.hist().len(),
                    seq_op_views(r@) == replay_ops(
                        self.hist().take(i as int),
                        self.output_line_spec(),
                    ),
                decreases self.hist().len() - i,
            {
                r.push(RenderOp::Goto(1, self.output_line));
                r.push(RenderOp::ScrollUp(1));
                r.push(RenderOp::Write(self.history[i].clone()));
                proof {
                    assert(self.hist().take(i as int + 1).drop_last() =~~= self.hist().take(
                        i as int,
                    ));
                    assert(seq_op_views(r@) =~~= replay_ops(
                        self.hist().take(i as int + 1),
                        self.output_line_spec(),
                    ));
                }
                i = i + 1;
            }
            proof {
                assert(self.hist().take(self.hist().len() as int) =~~= self.hist());
            }
            r
        }
    }

    /// A scroll-up command. With no more history than the window
    /// shows it does nothing at all; otherwise the window moves up
    /// by the scroll step (entering scrollback from live at the tail
    /// window) and the region is redrawn by direct addressing.
    pub fn scroll_up(&mut self) -> (r: Vec<RenderOp>)
        requires
            old(self).wf(),
        ensures
            final(self).wf(),
            final(self).hist() == old(self).hist(),
            Self::same_frame(*final(self), *old(self)),
            final(self).state_spec() == up_step(
                old(self).state_spec(),
                old(self).hist().len() as int,
                old(self).visible_rows(),
            ),
            old(self).hist().len() <= old(self).visible_rows() ==> *final(self) == *old(self)
                && r@.len() == 0,
            old(self).hist().len() > old(self).visible_rows() ==> seq_op_views(r@) == window_ops(
                old(self).hist(),
                up_start(
                    old(self).state_spec(),
                    old(self).hist().len() as int,
                    old(self).visible_rows(),
                ),
                old(self).visible_rows(),
            ),
    {
        let vis: usize = (self.output_line - OUTPUT_START_LINE) as usize + 1;
        if self.history.len() > vis {
            let s0: usize = match self.state {
                ScrollState::Live => self.history.len() - vis,
                ScrollState::Scrollback { start } => start,
            };
            let s1: usize = if s0 <= SCROLL_STEP {
                0
            } else {
                s0 - SCROLL_STEP
            };
            self.state = ScrollState::Scrollback { start: s1 };
            self.draw_window(s1)
        } else {
            Vec::new()
        }
    }

    /// A scroll-down command. Does nothing while live. In scrollback
    /// the window moves down by the scroll step; when it would reach
    /// or pass the tail window the controller returns to live with a
    /// tail redraw, otherwise the new window is redrawn by direct
    /// addressing.
    pub fn scroll_down(&mut self) -> (r: Vec<RenderOp>)
        requires
            old(self).wf(),
        ensures
            final(self).wf(),
            final(self).hist() == old(self).hist(),
            Self::same_frame(*final(self), *old(self)),
            final(self).state_spec() == down_step(
                old(self).state_spec(),
                old(self).hist().len() as int,
                old(self).visible_rows(),
            ),
            ({
                let len = old(self).hist().len() as int;
                let vis = old(self).visible_rows();
                match old(self).state_spec() {
                    ScrollState::Live => *final(self) == *old(self) && r@.len() == 0,
                    ScrollState::Scrollback { start } => {
                        if start + SCROLL_STEP >= len - vis {
                            seq_op_views(r@) == tail_ops(
                                old(self).hist(),
                                old(self).output_line_spec(),
                                vis,
                            )
                        } else {
                            seq_op_views(r@) == window_ops(
                                old(self).hist(),
                                start + SCROLL_STEP,
                                vis,
                            )
                        }
                    },
                }
            }),
    {
        match self.state {
            ScrollState::Live => Vec::new(),
            ScrollState::Scrollback { start } => {
                let vis: usize = (self.output_line - OUTPUT_START_LINE) as usize + 1;
                let max_start: usize = self.history.len() - vis;
                let candidate: usize = start + SCROLL_STEP;
                if candidate >= max_start {
                    self.state = ScrollState::Live;
                    self.tail_redraw()
                } else {
                    self.state = ScrollState::Scrollback { start: candidate };
                    self.draw_window(candidate)
                }
            },
        }
    }

    /// Logs one display line and, while live, shows it at the bottom
    /// of the output region with the scroll-up-one-row primitive. In
    /// scrollback the line is only logged.
    fn print_line(&mut self, line: &str, ops: &mut Vec<RenderOp>)
        requires
            old(self).wf(),
        ensures
            final(self).wf(),
            final(self).hist() == append_frags(old(self).hist(), split_crlf(line@)),
            final(self).state_spec() == old(self).state_spec(),
            Self::same_frame(*final(self), *old(self)),
            final(self).hist().len() >= old(self).hist().len(),
            seq_op_views(final(ops)@) == seq_op_views(old(ops)@) + (
            if old(self).state_spec() is Live {
                live_line_ops(line@, old(self).output_line_spec(), old(self).prompt_line_spec())
            } else {
                Seq::<OpView>::empty()
            }),
    {
        self.append_to_history(line);
        match self.state {
            ScrollState::Live => {
                let ghost pre = ops@;
                ops.push(RenderOp::Goto(1, self.output_line));
                ops.push(RenderOp::ScrollUp(1));
                ops.push(RenderOp::Write(line.to_owned()));
                ops.push(RenderOp::Goto(1, self.prompt_line));
                proof {
                    assert(seq_op_views(ops@) =~~= seq_op_views(pre) + live_line_ops(
                        line@,
                        old(self).output_line_spec(),
                        old(self).prompt_line_spec(),
                    ));
                }
            },
            ScrollState::Scrollback { .. } => {
                proof {
                    assert(seq_op_views(ops@) =~~= seq_op_views(ops@) + Seq::<OpView>::empty());
                }
            },
        }
    }

    /// Logs an incoming semantic line and, while live, renders it. A
    /// blank line passes through whole, to keep intentional blank
    /// separators; any other line is first wrapped to the width.
    pub fn print_output(&mut self, line: &str) -> (r: Vec<RenderOp>)
        requires
            old(self).wf(),
        ensures
            final(self).wf(),
            final(self).hist() == append_lines(
                old(self).hist(),
                output_frags(line@, old(self).width_spec()),
            ),
            final(self).state_spec() == old(self).state_spec(),
            Self::same_frame(*final(self), *old(self)),
            final(self).hist().len() >= old(self).hist().len(),
            old(self).hist().len() < HISTORY_CAPACITY - 1 ==> final(self).hist().len() > old(
                self,
            ).hist().len(),
            seq_op_views(r@) == (if old(self).state_spec() is Live {
                live_lines_ops(
                    output_frags(line@, old(self).width_spec()),
                    old(self).output_line_spec(),
                    old(self).prompt_line_spec(),
                )
            } else {
                Seq::<OpView>::empty()
            }),
    {
        let ghost fl = output_frags(line@, self.width_spec());
        let mut ops: Vec<RenderOp> = Vec::new();
        if is_blank(line) {
            self.print_line(line, &mut ops);
            proof {
                assert(fl =~~= seq![line@]);
                assert(fl.drop_first() =~~= Seq::<Seq<char>>::empty());
                assert(fl.first() == line@);
                assert(seq_op_views(Seq::<RenderOp>::empty()) =~~= Seq::<OpView>::empty());
                assert(append_lines(old(self).hist(), fl) == append_lines(
                    append_frags(old(self).hist(), split_crlf(line@)),
                    Seq::<Seq<char>>::empty(),
                ));
                let out = old(self).output_line_spec();
                let pr = old(self).prompt_line_spec();
                assert(live_lines_ops(fl, out, pr) == live_line_ops(line@, out, pr)
                    + live_lines_ops(Seq::<Seq<char>>::empty(), out, pr));
                assert(live_line_ops(line@, out, pr) + Seq::<OpView>::empty()
                    =~~= live_line_ops(line@, out, pr));
                if old(self).state_spec() is Live {
                    assert(seq_op_views(ops@) =~~= live_lines_ops(fl, out, pr));
                }
                if old(self).hist().len() < HISTORY_CAPACITY - 1 {
                    crate::text::lemma_split_crlf_nonempty(line@);
                    lemma_append_frags_grows(old(self).hist(), split_crlf(line@));
                }
            }
        } else {
            let wrapped = wrap_text(line, self.width as usize);
            proof {
                assert(seq_views(wrapped@) == fl);
                assert(fl.take(0) =~~= Seq::<Seq<char>>::empty());
                assert(seq_op_views(ops@) =~~= Seq::<OpView>::empty());
            }
            let mut i: usize = 0;
            while i < wrapped.len()
                invariant
                    seq_views(wrapped@) == fl,
                    i <= fl.len(),
                    self.wf(),
                    self.hist() == append_lines(old(self).hist(), fl.take(i as int)),
                    self.state_spec() == old(self).state_spec(),
                    Self::same_frame(*self, *old(self)),
                    self.hist().len() >= old(self).hist().len(),
                    old(self).wf(),
                    seq_op_views(ops@) == (if old(self).state_spec() is Live {
                        live_lines_ops(
                            fl.take(i as int),
                            old(self).output_line_spec(),
                            old(self).prompt_line_spec(),
                        )
                    } else {
                        Seq::<OpView>::empty()
                    }),
                decreases fl.len() - i,
            {
                proof {
                    assert(wrapped@[i as int]@ == fl[i as int]);
                }
                let ghost pre_ops = seq_op_views(ops@);
                let piece = wrapped[i].clone();
                self.print_line(piece.as_str(), &mut ops);
                proof {
                    lemma_append_lines_take_succ(old(self).hist(), fl, i as int);
                    lemma_live_lines_take_succ(
                        fl,
                        old(self).output_line_spec(),
                        old(self).prompt_line_spec(),
                        i as int,
                    );
                    if !(old(self).state_spec() is Live) {
                        assert(seq_op_views(ops@) =~~= Seq::<OpView>::empty());
                    }
                }
                i = i + 1;
            }
            proof {
                assert(fl.take(fl.len() as int) =~~= fl);
                if old(self).hist().len() < HISTORY_CAPACITY - 1 {
                    let h = old(self).hist();
                    let h1 = append_frags(h, split_crlf(fl.first()));
                    crate::text::lemma_split_crlf_nonempty(fl.first());
                    lemma_append_frags_grows(h, split_crlf(fl.first()));
                    lemma_history_capacity(h, split_crlf(fl.first()));
                    lemma_append_lines_len(h1, fl.drop_first());
                    assert(append_lines(h, fl) == append_lines(h1, fl.drop_first()));
                }
            }
        }
        ops
    }

    /// Logs the prompt line and, while live, shows it (with trailing
    /// whitespace removed) the way any new line is shown.
    pub fn print_prompt(&mut self, prompt: &str) -> (r: Vec<RenderOp>)
        requires
            old(self).wf(),
        ensures
            final(self).wf(),
            final(self).hist() == append_frags(old(self).hist(), split_crlf(prompt@)),
            final(self).state_spec() == old(self).state_spec(),
            Self::same_frame(*final(self), *old(self)),
            seq_op_views(r@) == (if old(self).state_spec() is Live {
                live_line_ops(
                    trim_end_spec(prompt@),
                    old(self).output_line_spec(),
                    old(self).prompt_line_spec(),
                )
            } else {
                Seq::<OpView>::empty()
            }),
    {
        self.append_to_history(prompt);
        let mut ops: Vec<RenderOp> = Vec::new();
        match self.state {
            ScrollState::Live => {
                ops.push(RenderOp::Goto(1, self.output_line));
                ops.push(RenderOp::ScrollUp(1));
                ops.push(RenderOp::Write(trim_end_string(prompt)));
                ops.push(RenderOp::Goto(1, self.prompt_line));
                proof {
                    assert(seq_op_views(ops@) =~~= live_line_ops(
                        trim_end_spec(prompt@),
                        old(self).output_line_spec(),
                        old(self).prompt_line_spec(),
                    ));
                }
            },
            ScrollState::Scrollback { .. } => {
                proof {
                    assert(seq_op_views(ops@) =~~= Seq::<OpView>::empty());
                }
            },
        }
        ops
    }

    /// Redraws the prompt row with the tail of the current input
    /// line: only the last `width` characters stay visible. Nothing
    /// is logged, and the state does not change.
    pub fn print_prompt_input(&mut self, input: &str) -> (r: Vec<RenderOp>)
        requires
            old(self).wf(),
        ensures
            *final(self) == *old(self),
            seq_op_views(r@) == prompt_input_ops(
                input@,
                old(self).width_spec(),
                old(self).prompt_line_spec(),
            ),
    {
        let mut ops: Vec<RenderOp> = Vec::new();
        ops.push(RenderOp::Goto(1, self.prompt_line));
        ops.push(RenderOp::ClearLine);
        ops.push(RenderOp::Write(tail_string(input, self.width as usize)));
        proof {
            assert(seq_op_views(ops@) =~~= prompt_input_ops(
                input@,
                self.width_spec(),
                self.prompt_line_spec(),
            ));
        }
        ops
    }

    /// Logs and renders a line the user sent: a `"> "` marker, shown
    /// in light yellow with the color reset at line end.
    pub fn print_send(&mut self, send: &str) -> (r: Vec<RenderOp>)
        requires
            old(self).wf(),
        ensures
            final(self).wf(),
            final(self).hist() == append_lines(
                old(self).hist(),
                output_frags(sent_line(send@), old(self).width_spec()),
            ),
            final(self).state_spec() == old(self).state_spec(),
            Self::same_frame(*final(self), *old(self)),
            old(self).hist().len() < HISTORY_CAPACITY - 1 ==> final(self).hist().len() > old(
                self,
            ).hist().len(),
            seq_op_views(r@) == (if old(self).state_spec() is Live {
                live_lines_ops(
                    output_frags(sent_line(send@), old(self).width_spec()),
                    old(self).output_line_spec(),
                    old(self).prompt_line_spec(),
                )
            } else {
                Seq::<OpView>::empty()
            }),
    {
        let mut l = fg_light_yellow();
        l.append("> ");
        l.append(send);
        let reset = fg_reset();
        l.append(reset.as_str());
        proof {
            assert(l@ =~= sent_line(send@));
        }
        self.print_output(l.as_str())
    }

    /// Logs and renders an informational line: a `"[**] "` marker,
    /// no color change.
    pub fn print_info(&mut self, output: &str) -> (r: Vec<RenderOp>)
        requires
            old(self).wf(),
        ensures
            final(self).wf(),
            final(self).hist() == append_lines(
                old(self).hist(),
                output_frags(info_line(output@), old(self).width_spec()),
            ),
            final(self).state_spec() == old(self).state_spec(),
            Self::same_frame(*final(self), *old(self)),
            old(self).hist().len() < HISTORY_CAPACITY - 1 ==> final(self).hist().len() > old(
                self,
            ).hist().len(),
            seq_op_views(r@) == (if old(self).state_spec() is Live {
                live_lines_ops(
                    output_frags(info_line(output@), old(self).width_spec()),
                    old(self).output_line_spec(),
                    old(self).prompt_line_spec(),
                )
            } else {
                Seq::<OpView>::empty()
            }),
    {
        let mut l = "[**] ".to_owned();
        l.append(output);
        proof {
            assert(l@ =~= info_line(output@));
        }
        self.print_output(l.as_str())
    }

    /// Logs and renders an error line: a `"[!!] "` marker, shown in
    /// red with the color reset at line end.
    pub fn print_error(&mut self, output: &str) -> (r: Vec<RenderOp>)
        requires
            old(self).wf(),
        ensures
            final(self).wf(),
            final(self).hist() == append_lines(
                old(self).hist(),
                output_frags(error_line(output@), old(self).width_spec()),
            ),
            final(self).state_spec() == old(self).state_spec(),
            Self::same_frame(*final(self), *old(self)),
            old(self).hist().len() < HISTORY_CAPACITY - 1 ==> final(self).hist().len() > old(
                self,
            ).hist().len(),
            seq_op_views(r@) == (if old(self).state_spec() is Live {
                live_lines_ops(
                    output_frags(error_line(output@), old(self).width_spec()),
                    old(self).output_line_spec(),
                    old(self).prompt_line_spec(),
                )
            } else {
                Seq::<OpView>::empty()
            }),
    {
        let mut l = fg_red();
        l.append("[!!] ");
        l.append(output);
        let reset = fg_reset();
        l.append(reset.as_str());
        proof {
            assert(l@ =~= error_line(output@));
        }
        self.print_output(l.as_str())
    }

    /// Forces the controller back to live and resynchronizes the
    /// output region with a tail redraw, whatever the state was.
    pub fn reset_scroll(&mut self) -> (r: Vec<RenderOp>)
        requires
            old(self).wf(),
        ensures
            final(self).wf(),
            final(self).hist() == old(self).hist(),
            Self::same_frame(*final(self), *old(self)),
            final(self).state_spec() is Live,
            seq_op_views(r@) == tail_ops(
                old(self).hist(),
                old(self).output_line_spec(),
                old(self).visible_rows(),
            ),
    {
        self.state = ScrollState::Live;
        self.tail_redraw()
    }
}

/// Builds a row of `w` copies of a single character.
fn char_row(piece: &str, w: u16) -> (r: String)
    requires
        piece@.len() == 1,
    ensures
        r@ == repeat_char(piece@[0], w as int),
{
    let mut s = String::new();
    let mut i: u16 = 0;
    proof {
        assert(s@ =~= repeat_char(piece@[0], 0));
    }
    while i < w
        invariant
            piece@.len() == 1,
            i <= w,
            s@ == repeat_char(piece@[0], i as int),
        decreases w - i,
    {
        s.append(piece);
        proof {
            assert(s@ =~= repeat_char(piece@[0], i as int + 1));
        }
        i = i + 1;
    }
    s
}

proof fn lemma_append_lines_take_succ(h: Seq<Seq<char>>, ls: Seq<Seq<char>>, i: int)
    requires
        0 <= i < ls.len(),
    ensures
        append_lines(h, ls.take(i + 1)) == append_frags(
            append_lines(h, ls.take(i)),
            split_crlf(ls[i]),
        ),
    decreases i,
{
    if i == 0 {
        assert(ls.take(0) =~~= Seq::<Seq<char>>::empty());
        assert(ls.take(1) =~~= seq![ls[0]]);
        assert(seq![ls[0]].drop_first() =~~= Seq::<Seq<char>>::empty());
        assert(append_lines(h, ls.take(1)) == append_lines(
            append_frags(h, split_crlf(ls[0])),
            Seq::<Seq<char>>::empty(),
        ));
    } else {
        let h1 = append_frags(h, split_crlf(ls[0]));
        let dr = ls.drop_first();
        lemma_append_lines_take_succ(h1, dr, i - 1);
        assert(ls.take(i + 1).drop_first() =~~= dr.take(i));
        assert(ls.take(i).drop_first() =~~= dr.take(i - 1));
        assert(ls.take(i + 1).first() == ls[0]);
        assert(ls.take(i).first() == ls[0]);
        assert(dr[i - 1] == ls[i]);
        assert(append_lines(h, ls.take(i + 1)) == append_lines(h1, dr.take(i)));
        assert(append_lines(h1, dr.take(i)) == append_frags(
            append_lines(h1, dr.take(i - 1)),
            split_crlf(ls[i]),
        ));
        assert(append_lines(h, ls.take(i)) == append_lines(h1, dr.take(i - 1)));
    }
}

proof fn lemma_live_lines_take_succ(ls: Seq<Seq<char>>, out: u16, pr: u16, i: int)
    requires
        0 <= i < ls.len(),
    ensures
        live_lines_ops(ls.take(i + 1), out, pr) == live_lines_ops(ls.take(i), out, pr)
            + live_line_ops(ls[i], out, pr),
    decreases i,
{
    if i == 0 {
        assert(ls.take(0) =~~= Seq::<Seq<char>>::empty());
        assert(ls.take(1) =~~= seq![ls[0]]);
        assert(seq![ls[0]].drop_first() =~~= Seq::<Seq<char>>::empty());
        assert(live_lines_ops(Seq::<Seq<char>>::empty(), out, pr) =~~= Seq::<OpView>::empty());
        assert(live_line_ops(ls[0], out, pr) + Seq::<OpView>::empty() =~~= live_line_ops(
            ls[0],
            out,
            pr,
        ));
        assert(live_lines_ops(ls.take(1), out, pr) =~~= live_line_ops(ls[0], out, pr));
        assert(live_lines_ops(ls.take(0), out, pr) + live_line_ops(ls[0], out, pr)
            =~~= live_line_ops(ls[0], out, pr));
    } else {
        let dr = ls.drop_first();
        lemma_live_lines_take_succ(dr, out, pr, i - 1);
        assert(ls.take(i + 1).drop_first() =~~= dr.take(i));
        assert(ls.take(i).drop_first() =~~= dr.take(i - 1));
        assert(ls.take(i + 1).first() == ls[0]);
        assert(ls.take(i).first() == ls[0]);
        assert(dr[i - 1] == ls[i]);
        assert(live_lines_ops(ls.take(i + 1), out, pr) == live_line_ops(ls[0], out, pr)
            + live_lines_ops(dr.take(i), out, pr));
        assert(live_lines_ops(ls.take(i), out, pr) == live_line_ops(ls[0], out, pr)
            + live_lines_ops(dr.take(i - 1), out, pr));
        assert(live_line_ops(ls[0], out, pr) + (live_lines_ops(dr.take(i - 1), out, pr)
            + live_line_ops(ls[i], out, pr)) =~~= (live_line_ops(ls[0], out, pr)
            + live_lines_ops(dr.take(i - 1), out, pr)) + live_line_ops(ls[i], out, pr));
    }
}

/// The capacity invariant: however many fragments are appended to a
/// log within capacity, the log stays within capacity — and it never
/// shrinks below its old length.
pub proof fn lemma_history_capacity(h: Seq<Seq<char>>, frags: Seq<Seq<char>>)
    requires
        h.len() < HISTORY_CAPACITY,
    ensures
        append_frags(h, frags).len() < HISTORY_CAPACITY,
        append_frags(h, frags).len() >= h.len(),
    decreases frags.len(),
{
    if frags.len() > 0 {
        lemma_history_capacity(append1(h, frags.first()), frags.drop_first());
    }
}

/// Below capacity, appending at least one fragment strictly grows
/// the log.
pub proof fn lemma_append_frags_grows(h: Seq<Seq<char>>, frags: Seq<Seq<char>>)
    requires
        h.len() < HISTORY_CAPACITY - 1,
        frags.len() >= 1,
    ensures
        append_frags(h, frags).len() > h.len(),
{
    let h1 = append1(h, frags.first());
    lemma_history_capacity(h1, frags.drop_first());
}

proof fn lemma_append_lines_len(h: Seq<Seq<char>>, ls: Seq<Seq<char>>)
    requires
        h.len() < HISTORY_CAPACITY,
    ensures
        append_lines(h, ls).len() >= h.len(),
        append_lines(h, ls).len() < HISTORY_CAPACITY,
    decreases ls.len(),
{
    if ls.len() > 0 {
        lemma_history_capacity(h, split_crlf(ls.first()));
        lemma_append_lines_len(append_frags(h, split_crlf(ls.first())), ls.drop_first());
    }
}

/// The last `m` entries of a sequence, or all of it if it is
/// shorter.
pub open spec fn keep_last(t: Seq<Seq<char>>, m: int) -> Seq<Seq<char>> {
    if t.len() <= m {
        t
    } else {
        t.skip(t.len() - m)
    }
}

/// The eviction order: appending fragments to a log within capacity
/// leaves exactly the most recent lines of the concatenation, in
/// their original relative order — the oldest are dropped first.
pub proof fn lemma_eviction_order(h: Seq<Seq<char>>, frags: Seq<Seq<char>>)
    requires
        h.len() < HISTORY_CAPACITY,
    ensures
        append_frags(h, frags) == keep_last(h + frags, HISTORY_CAPACITY - 1),
    decreases frags.len(),
{
    let c = HISTORY_CAPACITY - 1;
    if frags.len() == 0 {
        assert(h + frags =~~= h);
    } else {
        let f0 = frags.first();
        let h1 = append1(h, f0);
        let rest = frags.drop_first();
        lemma_eviction_order(h1, rest);
        let t = h + frags;
        if h.len() + 1 < HISTORY_CAPACITY {
            assert(h1 =~~= h.push(f0));
            assert(h1 + rest =~~= t);
        } else {
            assert(h1 =~~= h.push(f0).drop_first());
            assert(h1 + rest =~~= t.drop_first());
            let t1 = t.drop_first();
            assert(t.len() > c);
            if t1.len() <= c {
                assert(t.skip(t.len() - c) =~~= t1);
            } else {
                assert(t1.skip(t1.len() - c) =~~= t.skip(t.len() - c));
            }
        }
    }
}

/// The scrollback bound invariant: a well-formed controller in
/// scrollback has its window start between 0 and
/// `len(history) - visible_rows`.
pub proof fn lemma_scrollback_bound(s: Screen)
    requires
        s.wf(),
    ensures
        s.state_spec() matches ScrollState::Scrollback { start } ==> 0 <= start as int <= s.hist().len() - s.visible_rows(),
{
}

/// `n` scroll-up transitions in a row.
pub open spec fn up_iter(st: ScrollState, len: int, vis: int, n: nat) -> ScrollState
    decreases n,
{
    if n == 0 {
        st
    } else {
        up_iter(up_step(st, len, vis), len, vis, (n - 1) as nat)
    }
}

/// `n` scroll-down transitions in a row.
pub open spec fn down_iter(st: ScrollState, len: int, vis: int, n: nat) -> ScrollState
    decreases n,
{
    if n == 0 {
        st
    } else {
        down_iter(down_step(st, len, vis), len, vis, (n - 1) as nat)
    }
}

/// A scroll-up transition preserves the scrollback invariant.
pub proof fn lemma_up_step_inv(st: ScrollState, len: int, vis: int)
    requires
        state_inv(st, len, vis),
        1 <= vis,
        0 <= len < HISTORY_CAPACITY,
    ensures
        state_inv(up_step(st, len, vis), len, vis),
{
}

/// A scroll-down transition preserves the scrollback invariant.
pub proof fn lemma_down_step_inv(st: ScrollState, len: int, vis: int)
    requires
        state_inv(st, len, vis),
        1 <= vis,
        0 <= len < HISTORY_CAPACITY,
    ensures
        state_inv(down_step(st, len, vis), len, vis),
{
}

proof fn lemma_up_iter_inv(st: ScrollState, len: int, vis: int, n: nat)
    requires
        state_inv(st, len, vis),
        1 <= vis,
        0 <= len < HISTORY_CAPACITY,
    ensures
        state_inv(up_iter(st, len, vis, n), len, vis),
    decreases n,
{
    if n > 0 {
        lemma_up_step_inv(st, len, vis);
        lemma_up_iter_inv(up_step(st, len, vis), len, vis, (n - 1) as nat);
    }
}

proof fn lemma_down_reaches_live(st: ScrollState, len: int, vis: int)
    requires
        state_inv(st, len, vis),
        1 <= vis,
        0 <= len < HISTORY_CAPACITY,
    ensures
        exists|downs: nat| down_iter(st, len, vis, downs) is Live,
    decreases (match st {
        ScrollState::Live => 0int,
        ScrollState::Scrollback { start } => len - start,
    }),
{
    match st {
        ScrollState::Live => {
            assert(down_iter(st, len, vis, 0) is Live);
        },
        ScrollState::Scrollback { start } => {
            let st2 = down_step(st, len, vis);
            if start + SCROLL_STEP >= len - vis {
                assert(st2 is Live);
                assert(down_iter(st, len, vis, 1) == down_iter(st2, len, vis, 0));
                assert(down_iter(st, len, vis, 1) is Live);
            } else {
                lemma_down_reaches_live(st2, len, vis);
                let d = choose|d: nat| down_iter(st2, len, vis, d) is Live;
                assert(down_iter(st, len, vis, d + 1) == down_iter(st2, len, vis, d));
                assert(down_iter(st, len, vis, d + 1) is Live);
            }
        },
    }
}

/// The round trip: from live, any number of scroll-up commands
/// followed by enough scroll-down commands returns the controller to
/// live. `lemma_tail_redraw_is_live_window` says what the redraw on
/// that return shows: exactly the tail window that live mode shows,
/// since no scroll command touches the history.
pub proof fn lemma_scroll_round_trip(len: int, vis: int, ups: nat)
    requires
        1 <= vis < len < HISTORY_CAPACITY,
    ensures
        exists|downs: nat| down_iter(up_iter(ScrollState::Live, len, vis, ups), len, vis, downs) is Live,
{
    lemma_up_iter_inv(ScrollState::Live, len, vis, ups);
    lemma_down_reaches_live(up_iter(ScrollState::Live, len, vis, ups), len, vis);
}

/// Enough scroll-up commands drive the window start all the way to
/// the top of history.
pub proof fn lemma_scroll_up_reaches_top(len: int, vis: int)
    requires
        1 <= vis < len < HISTORY_CAPACITY,
    ensures
        exists|ups: nat| up_iter(ScrollState::Live, len, vis, ups) == (ScrollState::Scrollback { start: 0 }),
{
    lemma_up_reaches_top_from(ScrollState::Live, len, vis);
}

proof fn lemma_up_reaches_top_from(st: ScrollState, len: int, vis: int)
    requires
        state_inv(st, len, vis),
        1 <= vis < len < HISTORY_CAPACITY,
    ensures
        exists|ups: nat| up_iter(st, len, vis, ups) == (ScrollState::Scrollback { start: 0 }),
    decreases (match st {
        ScrollState::Live => len - vis + 1,
        ScrollState::Scrollback { start } => start as int,
    }),
{
    match st {
        ScrollState::Live => {
            let st2 = up_step(st, len, vis);
            lemma_up_step_inv(st, len, vis);
            lemma_up_reaches_top_from(st2, len, vis);
            let u = choose|u: nat| up_iter(st2, len, vis, u) == (ScrollState::Scrollback { start: 0 });
            assert(up_iter(st, len, vis, u + 1) == up_iter(st2, len, vis, u));
        },
        ScrollState::Scrollback { start } => {
            if start == 0 {
                assert(up_iter(st, len, vis, 0) == (ScrollState::Scrollback { start: 0 }));
            } else {
                let st2 = up_step(st, len, vis);
                lemma_up_step_inv(st, len, vis);
                lemma_up_reaches_top_from(st2, len, vis);
                let u = choose|u: nat| up_iter(st2, len, vis, u) == (ScrollState::Scrollback { start: 0 });
                assert(up_iter(st, len, vis, u + 1) == up_iter(st2, len, vis, u));
            }
        },
    }
}

/// At the top, a further scroll-up command changes nothing.
pub proof fn lemma_scroll_up_stays_top(len: int, vis: int)
    requires
        1 <= vis < len < HISTORY_CAPACITY,
    ensures
        up_step(ScrollState::Scrollback { start: 0 }, len, vis) == (ScrollState::Scrollback { start: 0 }),
{
}

/// When the log fills the window, the tail redraw is exactly the
/// window redraw of the last `vis` lines — the window live mode
/// shows.
pub proof fn lemma_tail_redraw_is_live_window(h: Seq<Seq<char>>, out: u16, vis: int)
    requires
        vis <= h.len(),
    ensures
        tail_ops(h, out, vis) == window_ops(h, h.len() - vis, vis),
{
}

proof fn lemma_append_frags_take_succ(h: Seq<Seq<char>>, fr: Seq<Seq<char>>, i: int)
    requires
        0 <= i < fr.len(),
    ensures
        append_frags(h, fr.take(i + 1)) == append1(append_frags(h, fr.take(i)), fr[i]),
    decreases i,
{
    if i == 0 {
        assert(fr.take(0) =~~= Seq::<Seq<char>>::empty());
        assert(fr.take(1) =~~= seq![fr[0]]);
        assert(seq![fr[0]].drop_first() =~~= Seq::<Seq<char>>::empty());
        assert(append_frags(h, fr.take(1)) == append_frags(
            append1(h, fr[0]),
            Seq::<Seq<char>>::empty(),
        ));
    } else {
        let h1 = append1(h, fr[0]);
        let dr = fr.drop_first();
        lemma_append_frags_take_succ(h1, dr, i - 1);
        assert(fr.take(i + 1).drop_first() =~~= dr.take(i));
        assert(fr.take(i).drop_first() =~~= dr.take(i - 1));
        assert(fr.take(i + 1).first() == fr[0]);
        assert(fr.take(i).first() == fr[0]);
        assert(dr[i - 1] == fr[i]);
        assert(append_frags(h, fr.take(i + 1)) == append_frags(h1, dr.take(i)));
        assert(append_frags(h1, dr.take(i)) == append1(append_frags(h1, dr.take(i - 1)), fr[i]));
        assert(append_frags(h, fr.take(i)) == append_frags(h1, dr.take(i - 1)));
    }
}

} // verus!

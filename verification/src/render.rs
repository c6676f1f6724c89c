use crate::escape::{
    clear_all_escape, clear_line_escape, dec_of, goto_escape, scroll_up_escape,
};
use vstd::prelude::*;

verus! {

/// One primitive operation on the terminal. The screen's methods
/// return sequences of these; the host performs them, in order, on
/// the real device.
pub enum RenderOp {
    /// Move the cursor to (column, row), both one-based.
    Goto(u16, u16),
    /// Clear the row the cursor is on.
    ClearLine,
    /// Clear the whole screen.
    ClearAll,
    /// Scroll the scroll region up by the given number of rows.
    ScrollUp(u16),
    /// Restrict scrolling to the rows between the two bounds.
    SetScrollRegion(u16, u16),
    /// Remove the scroll-region restriction.
    ResetScrollRegion,
    /// Make cursor addressing absolute rather than region-relative.
    DisableOriginMode,
    /// Write the text at the cursor.
    Write(String),
}

/// The mathematical image of a `RenderOp`: the same shape, with the
/// written text as a sequence of characters.
pub enum OpView {
    Goto(u16, u16),
    ClearLine,
    ClearAll,
    ScrollUp(u16),
    SetScrollRegion(u16, u16),
    ResetScrollRegion,
    DisableOriginMode,
    Write(Seq<char>),
}

impl View for RenderOp {
    type V = OpView;

    open spec fn view(&self) -> OpView {
        match self {
            RenderOp::Goto(x, y) => OpView::Goto(*x, *y),
            RenderOp::ClearLine => OpView::ClearLine,
            RenderOp::ClearAll => OpView::ClearAll,
            RenderOp::ScrollUp(n) => OpView::ScrollUp(*n),
            RenderOp::SetScrollRegion(t, b) => OpView::SetScrollRegion(*t, *b),
            RenderOp::ResetScrollRegion => OpView::ResetScrollRegion,
            RenderOp::DisableOriginMode => OpView::DisableOriginMode,
            RenderOp::Write(s) => OpView::Write(s@),
        }
    }
}

impl DeepView for RenderOp {
    type V = OpView;

    open spec fn deep_view(&self) -> OpView {
        self.view()
    }
}

/// The views of a sequence of operations.
pub open spec fn seq_op_views(v: Seq<RenderOp>) -> Seq<OpView> {
    Seq::new(v.len(), |i: int| v[i]@)
}

/// The escape sequence that carries an operation to a terminal that
/// speaks the ANSI control language.
pub open spec fn encode_spec(op: OpView) -> Seq<char> {
    match op {
        OpView::Goto(x, y) => "\u{1b}["@ + dec_of(y as int) + ";"@ + dec_of(x as int) + "H"@,
        OpView::ClearLine => "\u{1b}[2K"@,
        OpView::ClearAll => "\u{1b}[2J"@,
        OpView::ScrollUp(n) => "\u{1b}["@ + dec_of(n as int) + "S"@,
        OpView::SetScrollRegion(t, b) => "\u{1b}["@ + dec_of(t as int) + ";"@ + dec_of(
            b as int,
        ) + "r"@,
        OpView::ResetScrollRegion => "\u{1b}[r"@,
        OpView::DisableOriginMode => "\u{1b}[?6l"@,
        OpView::Write(s) => s,
    }
}

/// Encodes one operation as its escape sequence. A `Goto` must be
/// one-based, as the control language counts rows and columns from 1.
pub fn encode_op(op: &RenderOp) -> (r: String)
    requires
        op@ matches OpView::Goto(x, y) ==> x >= 1 && y >= 1,
    ensures
        r@ == encode_spec(op@),
{
    match op {
        RenderOp::Goto(x, y) => goto_escape(*x, *y),
        RenderOp::ClearLine => clear_line_escape(),
        RenderOp::ClearAll => clear_all_escape(),
        RenderOp::ScrollUp(n) => scroll_up_escape(*n),
        RenderOp::SetScrollRegion(t, b) => {
            let mut s = "\u{1b}[".to_owned();
            s.append(crate::escape::dec_string(*t).as_str());
            s.append(";");
            s.append(crate::escape::dec_string(*b).as_str());
            s.append("r");
            proof {
                assert(s@ =~= encode_spec(op@));
            }
            s
        },
        RenderOp::ResetScrollRegion => "\u{1b}[r".to_owned(),
        RenderOp::DisableOriginMode => "\u{1b}[?6l".to_owned(),
        RenderOp::Write(s) => s.clone(),
    }
}

} // verus!

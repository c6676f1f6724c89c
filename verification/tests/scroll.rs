use scrollback::render::RenderOp;
use scrollback::screen::Screen;

fn fill(screen: &mut Screen, n: usize) {
    for i in 0..n {
        let line = format!("L{}", i);
        screen.print_output(&line);
    }
}

fn write_text(op: &RenderOp) -> &str {
    match op {
        RenderOp::Write(s) => s.as_str(),
        _ => panic!("expected a write operation"),
    }
}

#[test]
fn starts_live_and_empty() {
    let screen = Screen::new(80, 13);
    assert!(screen.is_live());
    assert_eq!(screen.history_len(), 0);
    assert_eq!(screen.visible_row_count(), 10);
}

#[test]
fn scenario_short_history_scroll_up_is_noop() {
    let mut screen = Screen::new(80, 13);
    fill(&mut screen, 3);
    let ops = screen.scroll_up();
    assert!(screen.is_live());
    assert_eq!(ops.len(), 0);
    assert_eq!(screen.history_len(), 3);
}

#[test]
fn scenario_scroll_boundary() {
    let mut screen = Screen::new(80, 13);
    fill(&mut screen, 20);
    // entering scrollback starts at the tail window (20 - 10) and
    // moves up one step
    screen.scroll_up();
    assert_eq!(screen.scroll_window_start(), Some(5));
    screen.scroll_up();
    assert_eq!(screen.scroll_window_start(), Some(0));
    // moving down from 0 lands at 5, still short of the tail window
    screen.scroll_down();
    assert_eq!(screen.scroll_window_start(), Some(5));
    // 5 + 5 reaches the maximal start 10: exactly at the boundary
    // the controller returns to live
    screen.scroll_down();
    assert!(screen.is_live());
}

#[test]
fn round_trip_restores_tail_window() {
    let mut screen = Screen::new(80, 13);
    fill(&mut screen, 20);
    screen.scroll_up();
    screen.scroll_up();
    assert_eq!(screen.scroll_window_start(), Some(0));
    screen.scroll_down();
    let ops = screen.scroll_down();
    assert!(screen.is_live());
    // the redraw on the return to live shows the last 10 lines, the
    // same window live mode showed before scrolling
    assert_eq!(ops.len(), 30);
    for i in 0..10 {
        match &ops[3 * i] {
            RenderOp::Goto(1, row) => assert_eq!(*row, (2 + i) as u16),
            _ => panic!("expected cursor addressing"),
        }
        match &ops[3 * i + 1] {
            RenderOp::ClearLine => {}
            _ => panic!("expected a line clear"),
        }
        assert_eq!(write_text(&ops[3 * i + 2]), format!("L{}", 10 + i));
    }
}

#[test]
fn scroll_down_in_live_is_noop() {
    let mut screen = Screen::new(80, 13);
    fill(&mut screen, 20);
    let ops = screen.scroll_down();
    assert!(screen.is_live());
    assert_eq!(ops.len(), 0);
    assert_eq!(screen.history_len(), 20);
}

#[test]
fn scrollback_window_redraw_contents() {
    let mut screen = Screen::new(80, 13);
    fill(&mut screen, 20);
    let ops = screen.scroll_up();
    assert_eq!(screen.scroll_window_start(), Some(5));
    assert_eq!(ops.len(), 30);
    for i in 0..10 {
        assert_eq!(write_text(&ops[3 * i + 2]), format!("L{}", 5 + i));
    }
}

#[test]
fn scenario_append_in_scrollback_renders_nothing() {
    let mut screen = Screen::new(80, 13);
    fill(&mut screen, 20);
    screen.scroll_up();
    let before = screen.history_len();
    let ops = screen.print_output("late arrival");
    assert_eq!(ops.len(), 0);
    assert_eq!(screen.history_len(), before + 1);
    assert_eq!(screen.scroll_window_start(), Some(5));
}

#[test]
fn scroll_up_needs_more_than_a_window_of_history() {
    let mut screen = Screen::new(80, 13);
    fill(&mut screen, 10);
    // exactly one window of history: nothing to scroll to
    let ops = screen.scroll_up();
    assert!(screen.is_live());
    assert_eq!(ops.len(), 0);
}

#[test]
fn scroll_up_at_the_top_stays_and_redraws() {
    let mut screen = Screen::new(80, 13);
    fill(&mut screen, 20);
    screen.scroll_up();
    screen.scroll_up();
    assert_eq!(screen.scroll_window_start(), Some(0));
    let ops = screen.scroll_up();
    assert_eq!(screen.scroll_window_start(), Some(0));
    assert_eq!(ops.len(), 30);
    for i in 0..10 {
        assert_eq!(write_text(&ops[3 * i + 2]), format!("L{}", i));
    }
}

#[test]
fn setup_keeps_the_scrollback_place() {
    let mut screen = Screen::new(80, 13);
    fill(&mut screen, 20);
    screen.scroll_up();
    assert_eq!(screen.scroll_window_start(), Some(5));
    screen.setup(80, 13);
    assert_eq!(screen.scroll_window_start(), Some(5));
    assert_eq!(screen.history_len(), 20);
}

#[test]
fn setup_clamps_the_window_into_new_bounds() {
    let mut screen = Screen::new(80, 13);
    fill(&mut screen, 30);
    screen.scroll_up();
    assert_eq!(screen.scroll_window_start(), Some(15));
    // 25 visible rows leave at most start 5 for 30 lines
    screen.setup(80, 28);
    assert_eq!(screen.scroll_window_start(), Some(5));
}

#[test]
fn setup_goes_live_when_the_log_fits_the_window() {
    let mut screen = Screen::new(80, 13);
    fill(&mut screen, 20);
    screen.scroll_up();
    assert_eq!(screen.scroll_window_start(), Some(5));
    // 20 visible rows hold the whole log: nothing to scroll back to
    screen.setup(80, 23);
    assert!(screen.is_live());
}

#[test]
fn capacity_is_never_exceeded() {
    let mut screen = Screen::new(80, 13);
    fill(&mut screen, 1100);
    assert_eq!(screen.history_len(), 1023);
}

#[test]
fn eviction_drops_oldest_first() {
    let mut screen = Screen::new(80, 13);
    fill(&mut screen, 1100);
    // the last 1023 of the 1100 lines remain, in order
    assert_eq!(screen.history_line(0), "L77");
    assert_eq!(screen.history_line(1), "L78");
    assert_eq!(screen.history_line(1022), "L1099");
}

#[test]
fn reset_scroll_replays_short_history_in_order() {
    let mut screen = Screen::new(80, 13);
    fill(&mut screen, 3);
    let ops = screen.reset_scroll();
    assert!(screen.is_live());
    assert_eq!(ops.len(), 9);
    for i in 0..3 {
        match &ops[3 * i] {
            RenderOp::Goto(1, 11) => {}
            _ => panic!("expected the output row"),
        }
        match &ops[3 * i + 1] {
            RenderOp::ScrollUp(1) => {}
            _ => panic!("expected a one-row scroll"),
        }
        assert_eq!(write_text(&ops[3 * i + 2]), format!("L{}", i));
    }
}

#[test]
fn reset_scroll_leaves_scrollback() {
    let mut screen = Screen::new(80, 13);
    fill(&mut screen, 20);
    screen.scroll_up();
    assert_eq!(screen.scroll_window_start(), Some(5));
    let ops = screen.reset_scroll();
    assert!(screen.is_live());
    assert_eq!(ops.len(), 30);
    for i in 0..10 {
        assert_eq!(write_text(&ops[3 * i + 2]), format!("L{}", 10 + i));
    }
}

#[test]
fn live_append_scrolls_one_row() {
    let mut screen = Screen::new(80, 13);
    let ops = screen.print_output("hello");
    assert_eq!(ops.len(), 4);
    match &ops[0] {
        RenderOp::Goto(1, 11) => {}
        _ => panic!("expected the output row"),
    }
    match &ops[1] {
        RenderOp::ScrollUp(1) => {}
        _ => panic!("expected a one-row scroll"),
    }
    assert_eq!(write_text(&ops[2]), "hello");
    match &ops[3] {
        RenderOp::Goto(1, 13) => {}
        _ => panic!("expected the prompt row"),
    }
}

#[test]
fn embedded_separators_split_history_entries() {
    let mut screen = Screen::new(80, 13);
    screen.print_prompt("x\r\ny");
    assert_eq!(screen.history_len(), 2);
    assert_eq!(screen.history_line(0), "x");
    assert_eq!(screen.history_line(1), "y");
}

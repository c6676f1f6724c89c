use scrollback::render::{encode_op, RenderOp};
use scrollback::screen::Screen;

fn write_text(op: &RenderOp) -> &str {
    match op {
        RenderOp::Write(s) => s.as_str(),
        _ => panic!("expected a write operation"),
    }
}

#[test]
fn sent_line_is_marked_and_colored() {
    let mut screen = Screen::new(80, 13);
    screen.print_send("hi");
    assert_eq!(screen.history_len(), 1);
    assert_eq!(screen.history_line(0), "\u{1b}[38;5;11m> hi\u{1b}[39m");
}

#[test]
fn info_line_is_marked() {
    let mut screen = Screen::new(80, 13);
    screen.print_info("status");
    assert_eq!(screen.history_line(0), "[**] status");
}

#[test]
fn error_line_is_marked_and_colored() {
    let mut screen = Screen::new(80, 13);
    screen.print_error("bad");
    assert_eq!(screen.history_line(0), "\u{1b}[38;5;1m[!!] bad\u{1b}[39m");
}

#[test]
fn blank_line_passes_through_unwrapped() {
    let mut screen = Screen::new(20, 13);
    let ops = screen.print_output("   ");
    assert_eq!(screen.history_len(), 1);
    assert_eq!(screen.history_line(0), "   ");
    assert_eq!(ops.len(), 4);
    assert_eq!(write_text(&ops[2]), "   ");
}

#[test]
fn long_line_is_wrapped_to_width() {
    let mut screen = Screen::new(20, 13);
    screen.print_output("word word word word word");
    assert!(screen.history_len() >= 2);
    for i in 0..screen.history_len() {
        assert!(screen.history_line(i).chars().count() <= 20);
    }
    assert_eq!(screen.history_line(0), "word word word word");
    assert_eq!(screen.history_line(1), "word");
}

#[test]
fn prompt_keeps_history_but_renders_trimmed() {
    let mut screen = Screen::new(80, 13);
    let ops = screen.print_prompt("cmd   ");
    assert_eq!(screen.history_line(0), "cmd   ");
    assert_eq!(ops.len(), 4);
    assert_eq!(write_text(&ops[2]), "cmd");
}

#[test]
fn scenario_prompt_input_shows_last_width_chars() {
    let mut screen = Screen::new(20, 13);
    let input: String = (0..50).map(|i| char::from(b'a' + (i % 26) as u8)).collect();
    let ops = screen.print_prompt_input(&input);
    assert_eq!(ops.len(), 3);
    match &ops[0] {
        RenderOp::Goto(1, 13) => {}
        _ => panic!("expected the prompt row"),
    }
    match &ops[1] {
        RenderOp::ClearLine => {}
        _ => panic!("expected a line clear"),
    }
    let expected: String = input.chars().skip(30).collect();
    assert_eq!(expected.chars().count(), 20);
    assert_eq!(write_text(&ops[2]), expected);
}

#[test]
fn short_prompt_input_is_kept_whole() {
    let mut screen = Screen::new(20, 13);
    let ops = screen.print_prompt_input("abc");
    assert_eq!(write_text(&ops[2]), "abc");
}

#[test]
fn setup_frames_the_output_region() {
    let mut screen = Screen::new(80, 13);
    let ops = screen.setup(5, 13);
    assert!(screen.is_live());
    assert_eq!(ops.len(), 10);
    assert!(matches!(ops[0], RenderOp::ClearAll));
    assert!(matches!(ops[1], RenderOp::ResetScrollRegion));
    assert!(matches!(ops[2], RenderOp::SetScrollRegion(2, 11)));
    assert!(matches!(ops[3], RenderOp::DisableOriginMode));
    assert!(matches!(ops[4], RenderOp::Goto(1, 1)));
    assert!(matches!(ops[5], RenderOp::ClearLine));
    assert_eq!(write_text(&ops[6]), "\u{1b}[38;5;2m=====\u{1b}[39m");
    assert!(matches!(ops[7], RenderOp::Goto(1, 12)));
    assert!(matches!(ops[8], RenderOp::ClearLine));
    assert_eq!(write_text(&ops[9]), "\u{1b}[38;5;2m_____\u{1b}[39m");
}

#[test]
fn reset_clears_and_unsets_the_region() {
    let mut screen = Screen::new(80, 13);
    let ops = screen.reset();
    assert_eq!(ops.len(), 2);
    assert!(matches!(ops[0], RenderOp::ClearAll));
    assert!(matches!(ops[1], RenderOp::ResetScrollRegion));
}

#[test]
fn encode_cursor_and_region_ops() {
    assert_eq!(encode_op(&RenderOp::Goto(5, 3)), "\u{1b}[3;5H");
    assert_eq!(encode_op(&RenderOp::Goto(120, 4500)), "\u{1b}[4500;120H");
    assert_eq!(encode_op(&RenderOp::ScrollUp(1)), "\u{1b}[1S");
    assert_eq!(encode_op(&RenderOp::SetScrollRegion(2, 11)), "\u{1b}[2;11r");
    assert_eq!(encode_op(&RenderOp::ResetScrollRegion), "\u{1b}[r");
    assert_eq!(encode_op(&RenderOp::DisableOriginMode), "\u{1b}[?6l");
}

#[test]
fn encode_clear_and_write_ops() {
    assert_eq!(encode_op(&RenderOp::ClearLine), "\u{1b}[2K");
    assert_eq!(encode_op(&RenderOp::ClearAll), "\u{1b}[2J");
    assert_eq!(encode_op(&RenderOp::Write(String::from("abc"))), "abc");
}

use linedraw::draw::{DrawCommand, RenderError, TextDrawer};
use linedraw::layout::{Alignment, Layout, Positioning, WindowSize};
use linedraw::style::{Color, Colors, TextStyle};
use linedraw::text::{StyledChunk, WeightedLine};

fn window(columns: u16) -> WindowSize {
    WindowSize { columns, rows: 24 }
}

fn chunk(text: &str, style: TextStyle) -> StyledChunk {
    StyledChunk::new(text.to_string(), style)
}

fn plain_chunk(text: &str) -> StyledChunk {
    chunk(text, TextStyle::plain())
}

fn bold_red() -> TextStyle {
    TextStyle {
        bold: true,
        italic: false,
        underlined: false,
        strikethrough: false,
        colors: Colors { foreground: Color::Ansi(1), background: Color::Reset },
    }
}

fn defaults() -> Colors {
    Colors { foreground: Color::Ansi(7), background: Color::Ansi(0) }
}

fn line_of(chunks: Vec<StyledChunk>) -> WeightedLine {
    WeightedLine::new(chunks)
}

fn drawn(alignment: Alignment, line: WeightedLine, columns: u16) -> Vec<DrawCommand> {
    TextDrawer::new(&alignment, line, &window(columns), &defaults())
        .expect("drawer should build")
        .draw()
}

fn print_texts(commands: &[DrawCommand]) -> Vec<String> {
    commands
        .iter()
        .filter_map(|c| match c {
            DrawCommand::Print(chunk) => Some(chunk.text.clone()),
            _ => None,
        })
        .collect()
}

fn count_move_down(commands: &[DrawCommand]) -> usize {
    commands.iter().filter(|c| matches!(c, DrawCommand::MoveDown(_))).count()
}

fn count_move_to(commands: &[DrawCommand], column: u16) -> usize {
    commands
        .iter()
        .filter(|c| matches!(c, DrawCommand::MoveToColumn(col) if *col == column))
        .count()
}

fn count_resets(commands: &[DrawCommand]) -> usize {
    commands.iter().filter(|c| matches!(c, DrawCommand::SetColors(_))).count()
}

#[test]
fn layout_left_fits() {
    let layout = Layout { alignment: Alignment::Left };
    let positioning = layout.compute(&window(80), 20);
    assert_eq!(positioning, Positioning { max_line_length: 80, start_column: 0 });
}

#[test]
fn layout_center_fits() {
    let layout = Layout { alignment: Alignment::Center };
    let positioning = layout.compute(&window(80), 20);
    assert_eq!(positioning, Positioning { max_line_length: 20, start_column: 30 });
}

#[test]
fn layout_center_odd_margin_rounds_down() {
    let layout = Layout { alignment: Alignment::Center };
    let positioning = layout.compute(&window(81), 20);
    assert_eq!(positioning, Positioning { max_line_length: 21, start_column: 30 });
}

#[test]
fn layout_right_fits() {
    let layout = Layout { alignment: Alignment::Right };
    let positioning = layout.compute(&window(80), 20);
    assert_eq!(positioning, Positioning { max_line_length: 20, start_column: 60 });
}

#[test]
fn layout_wide_text_uses_whole_window() {
    for alignment in [Alignment::Left, Alignment::Center, Alignment::Right] {
        let layout = Layout { alignment };
        let positioning = layout.compute(&window(15), 50);
        assert_eq!(positioning, Positioning { max_line_length: 15, start_column: 0 });
    }
}

#[test]
fn layout_compute_is_idempotent() {
    for alignment in [Alignment::Left, Alignment::Center, Alignment::Right] {
        let layout = Layout { alignment };
        let first = layout.compute(&window(80), 33);
        let second = layout.compute(&window(80), 33);
        assert_eq!(first, second);
    }
}

#[test]
fn layout_never_reaches_past_right_edge() {
    for alignment in [Alignment::Left, Alignment::Center, Alignment::Right] {
        for columns in [0u16, 1, 8, 15, 80, 81] {
            for width in [0usize, 1, 10, 50, 200] {
                let layout = Layout { alignment };
                let p = layout.compute(&window(columns), width);
                assert!(p.start_column as u32 + p.max_line_length as u32 <= columns as u32);
            }
        }
    }
}

#[test]
fn weighted_line_width_counts_characters() {
    let line = line_of(vec![plain_chunk("h\u{e9}llo"), plain_chunk(" world")]);
    assert_eq!(line.width(), 11);
}

#[test]
fn short_line_draws_one_row() {
    let commands = drawn(Alignment::Left, line_of(vec![plain_chunk("twenty characters ok")]), 80);
    assert_eq!(count_move_down(&commands), 0);
    assert_eq!(count_move_to(&commands, 0), 2);
    assert_eq!(print_texts(&commands), vec!["twenty characters ok".to_string()]);
    assert_eq!(count_resets(&commands), 0);
}

#[test]
fn centered_line_starts_at_its_margin() {
    let commands = drawn(Alignment::Center, line_of(vec![plain_chunk("twenty characters ok")]), 80);
    assert_eq!(count_move_down(&commands), 0);
    assert_eq!(count_move_to(&commands, 30), 2);
    assert_eq!(print_texts(&commands), vec!["twenty characters ok".to_string()]);
}

#[test]
fn line_filling_the_window_exactly_stays_one_row() {
    let commands = drawn(Alignment::Left, line_of(vec![plain_chunk("exactly twenty chars")]), 20);
    assert_eq!(count_move_down(&commands), 0);
    assert_eq!(print_texts(&commands), vec!["exactly twenty chars".to_string()]);
}

#[test]
fn empty_line_draws_one_empty_row() {
    let commands = drawn(Alignment::Left, line_of(vec![]), 80);
    assert_eq!(
        commands,
        vec![DrawCommand::MoveToColumn(0), DrawCommand::MoveToColumn(0)],
    );
}

#[test]
fn narrow_window_wraps_into_ceil_rows() {
    let text = "abcdefghijklmnopqrstuvwxyzabcdefghijklmnopqrstuvwx"; // 50 chars
    assert_eq!(text.len(), 50);
    let commands = drawn(Alignment::Left, line_of(vec![plain_chunk(text)]), 15);
    let texts = print_texts(&commands);
    // 50 columns at 15 a row: four rows, the first three full.
    assert_eq!(count_move_down(&commands), 3);
    assert_eq!(count_move_to(&commands, 0), 5);
    assert_eq!(
        texts,
        vec![
            "abcdefghijklmno".to_string(),
            "pqrstuvwxyzabcd".to_string(),
            "efghijklmnopqrs".to_string(),
            "tuvwx".to_string(),
        ],
    );
}

#[test]
fn wrap_at_exact_multiple_has_no_empty_row() {
    let commands = drawn(Alignment::Left, line_of(vec![plain_chunk("abcdefghijklmnopqrstuvwx")]), 12);
    assert_eq!(count_move_down(&commands), 1);
    assert_eq!(
        print_texts(&commands),
        vec!["abcdefghijkl".to_string(), "mnopqrstuvwx".to_string()],
    );
}

#[test]
fn cut_chunks_keep_their_style() {
    let text = "styled run of thirty characters"; // 31 chars
    assert_eq!(text.len(), 31);
    let commands = drawn(Alignment::Left, line_of(vec![chunk(text, bold_red())]), 12);
    let mut seen = 0;
    for command in &commands {
        if let DrawCommand::Print(chunk) = command {
            assert_eq!(chunk.style, bold_red());
            seen += 1;
        }
    }
    assert_eq!(seen, 3);
    assert_eq!(count_resets(&commands), 3);
}

#[test]
fn terminal_too_small_is_rejected() {
    let text = "abcdefghijklmnopqrstuvwxyzabcdefghijklmnopqrstuvwx"; // 50 chars
    let result = TextDrawer::new(
        &Alignment::Left,
        line_of(vec![plain_chunk(text)]),
        &window(8),
        &defaults(),
    );
    assert!(matches!(result, Err(RenderError::TerminalTooSmall)));
}

#[test]
fn minimum_usable_width_boundary() {
    let text = "abcdefghijklmnopqrstuvwxyzabcdefghijklmnopqrstuvwx"; // 50 chars
    // At exactly the minimum the window is still too small...
    let at_minimum = TextDrawer::new(
        &Alignment::Left,
        line_of(vec![plain_chunk(text)]),
        &window(10),
        &defaults(),
    );
    assert!(matches!(at_minimum, Err(RenderError::TerminalTooSmall)));
    // ...one column more and the line wraps instead.
    let above_minimum = TextDrawer::new(
        &Alignment::Left,
        line_of(vec![plain_chunk(text)]),
        &window(11),
        &defaults(),
    );
    let commands = above_minimum.expect("one column above the minimum wraps").draw();
    assert_eq!(count_move_down(&commands), 4); // ceil(50 / 11) = 5 rows
}

#[test]
fn fitting_line_is_accepted_even_in_tiny_window() {
    // Narrow window, but the line fits: no wrapping needed, no error.
    let commands = drawn(Alignment::Left, line_of(vec![plain_chunk("tiny")]), 8);
    assert_eq!(print_texts(&commands), vec!["tiny".to_string()]);
}

#[test]
fn styled_chunk_is_followed_by_exactly_one_reset() {
    let line = line_of(vec![plain_chunk("hello "), chunk("world", bold_red())]);
    let commands = drawn(Alignment::Left, line, 80);
    assert_eq!(
        commands,
        vec![
            DrawCommand::MoveToColumn(0),
            DrawCommand::MoveToColumn(0),
            DrawCommand::Print(plain_chunk("hello ")),
            DrawCommand::Print(chunk("world", bold_red())),
            DrawCommand::SetColors(defaults()),
        ],
    );
}

#[test]
fn reset_reasserts_the_given_default_colors() {
    let commands = drawn(Alignment::Left, line_of(vec![chunk("x", bold_red())]), 80);
    assert_eq!(
        commands.last(),
        Some(&DrawCommand::SetColors(Colors {
            foreground: Color::Ansi(7),
            background: Color::Ansi(0),
        })),
    );
}

#[test]
fn plain_chunks_emit_no_reset() {
    let line = line_of(vec![plain_chunk("one "), plain_chunk("two")]);
    let commands = drawn(Alignment::Left, line, 80);
    assert_eq!(count_resets(&commands), 0);
    assert_eq!(print_texts(&commands), vec!["one ".to_string(), "two".to_string()]);
}

#[test]
fn zero_width_chunks_are_dropped_from_rows() {
    let line = line_of(vec![plain_chunk(""), plain_chunk("ab")]);
    let commands = drawn(Alignment::Left, line, 80);
    assert_eq!(print_texts(&commands), vec!["ab".to_string()]);
}

#[test]
fn rows_are_repositioned_before_printing() {
    let text = "abcdefghijklmnopqrstuvwxyzabcdefghijklmnopqrstuvwx"; // 50 chars
    let commands = drawn(Alignment::Center, line_of(vec![plain_chunk(text)]), 15);
    // Wide text in a centered layout starts at column 0 and wraps.
    let mut anchored = false;
    for command in &commands {
        match command {
            DrawCommand::MoveToColumn(column) => anchored = *column == 0,
            DrawCommand::MoveDown(_) => anchored = false,
            DrawCommand::Print(_) => assert!(anchored, "print without repositioning"),
            DrawCommand::SetColors(_) => {}
        }
    }
}

#[test]
fn wrapped_draw_emits_commands_in_order() {
    let commands = drawn(Alignment::Left, line_of(vec![plain_chunk("abcdefghijklmno")]), 12);
    assert_eq!(
        commands,
        vec![
            DrawCommand::MoveToColumn(0),
            DrawCommand::MoveToColumn(0),
            DrawCommand::Print(plain_chunk("abcdefghijkl")),
            DrawCommand::MoveDown(1),
            DrawCommand::MoveToColumn(0),
            DrawCommand::Print(plain_chunk("mno")),
        ],
    );
}

#[test]
fn wrapping_preserves_text_and_styles_across_chunks() {
    let line = line_of(vec![plain_chunk("hello "), chunk("wonderful world", bold_red())]);
    let commands = drawn(Alignment::Left, line, 12);
    assert_eq!(
        commands,
        vec![
            DrawCommand::MoveToColumn(0),
            DrawCommand::MoveToColumn(0),
            DrawCommand::Print(plain_chunk("hello ")),
            DrawCommand::Print(chunk("wonder", bold_red())),
            DrawCommand::SetColors(defaults()),
            DrawCommand::MoveDown(1),
            DrawCommand::MoveToColumn(0),
            DrawCommand::Print(chunk("ful world", bold_red())),
            DrawCommand::SetColors(defaults()),
        ],
    );
}

#[test]
fn drawing_writes_nothing_when_construction_fails() {
    let text = "abcdefghijklmnopqrstuvwxyzabcdefghijklmnopqrstuvwx";
    let result = TextDrawer::new(
        &Alignment::Right,
        line_of(vec![plain_chunk(text)]),
        &window(8),
        &defaults(),
    );
    // The drawer never existed, so no command sequence was produced at all.
    assert!(result.is_err());
}

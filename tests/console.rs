use cursive_logger_view::{
    append_decimal, combine_widths, default_format, format_line, level_as_str, line_ops_at,
    log_level_as_dark_color, split_newlines, Color, FlexiLoggerView, Level, LogItems, LogRecord,
    LogRing, PrintOp, Segment, Style, StyledLine, LOG_CAPACITY,
};

fn record(level: Level, message: &str) -> LogRecord {
    LogRecord {
        timestamp: "12:00:00.000".to_string(),
        level,
        thread_name: None,
        module: None,
        file: None,
        line: None,
        message: message.to_string(),
    }
}

fn full_record() -> LogRecord {
    LogRecord {
        timestamp: "09:30:15.250".to_string(),
        level: Level::Warn,
        thread_name: Some("worker-1".to_string()),
        module: Some("app::net".to_string()),
        file: Some("src/net.rs".to_string()),
        line: Some(42),
        message: "retrying".to_string(),
    }
}

fn texts(line: &StyledLine) -> Vec<String> {
    line.segments.iter().map(|s| s.content.clone()).collect()
}

fn styles(line: &StyledLine) -> Vec<Style> {
    line.segments.iter().map(|s| s.style).collect()
}

fn plain_line(text: &str) -> StyledLine {
    StyledLine {
        segments: vec![Segment {
            content: text.to_string(),
            style: Style::Plain,
        }],
    }
}

fn op(x: usize, y: usize, text: &str, style: Style) -> (usize, usize, String, Style) {
    (x, y, text.to_string(), style)
}

fn ops_tuples(ops: &[PrintOp]) -> Vec<(usize, usize, String, Style)> {
    ops.iter()
        .map(|o| (o.x, o.y, o.text.clone(), o.style))
        .collect()
}

#[test]
fn level_colors() {
    assert_eq!(log_level_as_dark_color(&Level::Trace), Color::Magenta);
    assert_eq!(log_level_as_dark_color(&Level::Debug), Color::Cyan);
    assert_eq!(log_level_as_dark_color(&Level::Info), Color::Green);
    assert_eq!(log_level_as_dark_color(&Level::Warn), Color::Yellow);
    assert_eq!(log_level_as_dark_color(&Level::Error), Color::Red);
}

#[test]
fn level_names() {
    assert_eq!(level_as_str(&Level::Trace), "TRACE");
    assert_eq!(level_as_str(&Level::Debug), "DEBUG");
    assert_eq!(level_as_str(&Level::Info), "INFO");
    assert_eq!(level_as_str(&Level::Warn), "WARN");
    assert_eq!(level_as_str(&Level::Error), "ERROR");
}

#[test]
fn log_items_default_is_level() {
    assert!(matches!(LogItems::default(), LogItems::Level));
}

#[test]
fn view_new_indents_and_with_indent_sets() {
    assert!(FlexiLoggerView::new().indent);
    assert!(!FlexiLoggerView::new().with_indent(false).indent);
    assert!(FlexiLoggerView::new().with_indent(false).with_indent(true).indent);
}

#[test]
fn decimal_numbers() {
    let mut s = "n=".to_string();
    append_decimal(&mut s, 0);
    assert_eq!(s, "n=0");
    let mut s = String::new();
    append_decimal(&mut s, 4294967295);
    assert_eq!(s, "4294967295");
    let mut s = String::new();
    append_decimal(&mut s, 1070);
    assert_eq!(s, "1070");
}

#[test]
fn split_on_line_breaks() {
    assert_eq!(split_newlines(""), vec![""]);
    assert_eq!(split_newlines("one"), vec!["one"]);
    assert_eq!(split_newlines("a\n\nb"), vec!["a", "", "b"]);
    assert_eq!(split_newlines("x\n"), vec!["x", ""]);
    assert_eq!(split_newlines("\u{65e5}\n\u{672c}"), vec!["\u{65e5}", "\u{672c}"]);
}

#[test]
fn default_format_tokens() {
    let items = default_format();
    assert_eq!(items.len(), 4);
    assert!(matches!(items[0], LogItems::DateTime));
    assert!(matches!(items[1], LogItems::Level));
    assert!(matches!(items[2], LogItems::ModLine));
    assert!(matches!(items[3], LogItems::Message));
}

#[test]
fn default_format_line() {
    let line = format_line(&default_format(), &full_record());
    assert_eq!(
        texts(&line),
        vec!["09:30:15.250 ", "[WARN] ", "<app::net:", "42", "> ", "retrying"]
    );
    assert_eq!(
        styles(&line),
        vec![
            Style::Plain,
            Style::Colored(Color::Yellow),
            Style::Plain,
            Style::Colored(Color::Blue),
            Style::Plain,
            Style::Colored(Color::Yellow),
        ]
    );
}

#[test]
fn default_format_message_last() {
    for level in [Level::Trace, Level::Debug, Level::Info, Level::Warn, Level::Error] {
        let line = format_line(&default_format(), &record(level, "a\nb"));
        let last = line.segments.last().unwrap();
        assert_eq!(last.content, "a\nb");
        assert_eq!(last.style, Style::Colored(log_level_as_dark_color(&level)));
    }
}

#[test]
fn every_token() {
    let items = [
        LogItems::Thread,
        LogItems::File,
        LogItems::FileLine,
        LogItems::Custom("~ "),
        LogItems::Message,
    ];
    let line = format_line(&items, &full_record());
    assert_eq!(
        texts(&line),
        vec!["[worker-1] ", "<src/net.rs> ", "<src/net.rs:42> ", "~ ", "retrying"]
    );
    assert_eq!(
        styles(&line),
        vec![
            Style::Plain,
            Style::Plain,
            Style::Plain,
            Style::Colored(Color::Yellow),
            Style::Colored(Color::Yellow),
        ]
    );
}

#[test]
fn missing_fields_use_placeholders() {
    let items = [
        LogItems::Thread,
        LogItems::File,
        LogItems::FileLine,
        LogItems::ModLine,
        LogItems::Level,
        LogItems::Message,
    ];
    let line = format_line(&items, &record(Level::Debug, "m"));
    assert_eq!(
        texts(&line),
        vec!["[ ] ", "<> ", "<:0> ", "<:", "0", "> ", "[DEBUG] ", "m"]
    );
}

#[test]
fn empty_format_gives_message_alone() {
    let line = format_line(&[], &record(Level::Error, "only"));
    assert_eq!(texts(&line), vec!["only"]);
    assert_eq!(styles(&line), vec![Style::Colored(Color::Red)]);
}

#[test]
fn duplicate_tokens_each_apply() {
    let line = format_line(
        &[LogItems::Level, LogItems::Level, LogItems::Message],
        &record(Level::Info, "x"),
    );
    assert_eq!(texts(&line), vec!["[INFO] ", "[INFO] ", "x"]);
}

#[test]
fn formatting_is_deterministic() {
    let items = default_format();
    let a = format_line(&items, &full_record());
    let b = format_line(&items, &full_record());
    assert_eq!(texts(&a), texts(&b));
    assert_eq!(styles(&a), styles(&b));
}

#[test]
fn ring_keeps_order_below_capacity() {
    let mut ring = LogRing::new();
    assert_eq!(ring.len(), 0);
    assert!(ring.get(0).is_none());
    for i in 0..3 {
        ring.push_back(plain_line(&format!("L{}", i)));
    }
    assert_eq!(ring.len(), 3);
    for i in 0..3 {
        assert_eq!(ring.get(i).unwrap().segments[0].content, format!("L{}", i));
    }
    assert!(ring.get(3).is_none());
}

#[test]
fn ring_bounded_retention() {
    let mut ring = LogRing::new();
    let total = LOG_CAPACITY + 5;
    for i in 1..=total {
        ring.push_back(plain_line(&format!("L{}", i)));
    }
    assert_eq!(ring.len(), LOG_CAPACITY);
    for k in 0..LOG_CAPACITY {
        let expected = format!("L{}", total - LOG_CAPACITY + 1 + k);
        assert_eq!(ring.get(k).unwrap().segments[0].content, expected);
    }
}

#[test]
fn ring_fifo_eviction() {
    let mut ring = LogRing::new();
    for i in 0..LOG_CAPACITY {
        ring.push_back(plain_line(&format!("L{}", i)));
    }
    assert_eq!(ring.len(), LOG_CAPACITY);
    ring.push_back(plain_line("new"));
    assert_eq!(ring.len(), LOG_CAPACITY);
    assert_eq!(ring.get(0).unwrap().segments[0].content, "L1");
    assert_eq!(ring.get(1).unwrap().segments[0].content, "L2");
    assert_eq!(ring.get(LOG_CAPACITY - 1).unwrap().segments[0].content, "new");
}

#[test]
fn combine_widths_adds_prefix_and_takes_widest_part() {
    assert_eq!(combine_widths(&vec![3, 4], &vec![5, 2, 7]), 14);
    assert_eq!(combine_widths(&vec![], &vec![]), 0);
    assert_eq!(combine_widths(&vec![usize::MAX, 1], &vec![1]), usize::MAX);
}

#[test]
fn required_size_of_empty_ring() {
    let ring = LogRing::new();
    let view = FlexiLoggerView::new();
    assert_eq!(view.required_size(&ring, 0, 0), (1, 0));
    assert_eq!(view.required_size(&ring, 10, 4), (10, 4));
}

#[test]
fn required_size_uses_widest_sub_line() {
    let mut ring = LogRing::new();
    ring.push_back(StyledLine {
        segments: vec![
            Segment {
                content: "ab ".to_string(),
                style: Style::Plain,
            },
            Segment {
                content: "1234\n12\n123456".to_string(),
                style: Style::Plain,
            },
        ],
    });
    let view = FlexiLoggerView::new();
    assert_eq!(view.required_size(&ring, 0, 0), (9, 3));
    assert_eq!(view.required_size(&ring, 20, 1), (20, 3));
}

#[test]
fn required_size_counts_display_columns() {
    let mut ring = LogRing::new();
    ring.push_back(plain_line("\u{65e5}\u{672c}\u{8a9e}"));
    let view = FlexiLoggerView::new();
    assert_eq!(view.required_size(&ring, 0, 0), (6, 1));
}

#[test]
fn height_counts_line_breaks() {
    let mut ring = LogRing::new();
    ring.push_back(plain_line("a\nb\nc\n"));
    ring.push_back(plain_line("d"));
    let view = FlexiLoggerView::new();
    assert_eq!(view.required_size(&ring, 0, 0).1, 5);
}

#[test]
fn line_ops_from_given_widths() {
    let line = StyledLine {
        segments: vec![
            Segment {
                content: "[A] ".to_string(),
                style: Style::Colored(Color::Red),
            },
            Segment {
                content: "<m:".to_string(),
                style: Style::Plain,
            },
            Segment {
                content: "x\ny".to_string(),
                style: Style::Colored(Color::Red),
            },
        ],
    };
    let ops = line_ops_at(&line, &vec![4, 3], true);
    assert_eq!(
        ops_tuples(&ops),
        vec![
            op(0, 0, "[A] ", Style::Colored(Color::Red)),
            op(4, 0, "<m:", Style::Plain),
            op(7, 0, "x", Style::Colored(Color::Red)),
            op(7, 1, "y", Style::Colored(Color::Red)),
        ]
    );
    let ops = line_ops_at(&line, &vec![4, 3], false);
    assert_eq!(ops[3].x, 0);
    assert_eq!(ops[3].y, 1);
}

#[test]
fn draw_shows_tail() {
    let mut ring = LogRing::new();
    for i in 0..5 {
        ring.push_back(plain_line(&format!("L{}", i)));
    }
    let view = FlexiLoggerView::new();
    let ops = view.draw_ops(&ring, 2);
    assert_eq!(
        ops_tuples(&ops),
        vec![op(0, 0, "L3", Style::Plain), op(0, 1, "L4", Style::Plain)]
    );
    let ops = view.draw_ops(&ring, 10);
    assert_eq!(ops.len(), 5);
    assert_eq!(ops[0].text, "L0");
    assert_eq!(ops[4].y, 4);
    assert!(view.draw_ops(&ring, 0).is_empty());
}

#[test]
fn draw_multi_row_shifts_following_lines() {
    let mut ring = LogRing::new();
    ring.push_back(plain_line("a\nb"));
    ring.push_back(plain_line("c"));
    let ops = FlexiLoggerView::new().draw_ops(&ring, 2);
    assert_eq!(
        ops_tuples(&ops),
        vec![
            op(0, 0, "a", Style::Plain),
            op(0, 1, "b", Style::Plain),
            op(0, 2, "c", Style::Plain),
        ]
    );
}

fn scenario_ring() -> LogRing {
    let items = default_format();
    let mut ring = LogRing::new();
    ring.push_back(format_line(&items, &record(Level::Info, "hello")));
    ring.push_back(format_line(&items, &record(Level::Error, "line1\nline2")));
    ring
}

#[test]
fn scenario_two_records() {
    let ring = scenario_ring();
    assert_eq!(ring.len(), 2);
    let view = FlexiLoggerView::new();
    let (_, height) = view.required_size(&ring, 0, 0);
    assert_eq!(height, 3);

    let ops = view.draw_ops(&ring, 3);
    let green = Style::Colored(Color::Green);
    let red = Style::Colored(Color::Red);
    let blue = Style::Colored(Color::Blue);
    assert_eq!(
        ops_tuples(&ops),
        vec![
            op(0, 0, "12:00:00.000 ", Style::Plain),
            op(13, 0, "[INFO] ", green),
            op(20, 0, "<:", Style::Plain),
            op(22, 0, "0", blue),
            op(23, 0, "> ", Style::Plain),
            op(25, 0, "hello", green),
            op(0, 1, "12:00:00.000 ", Style::Plain),
            op(13, 1, "[ERROR] ", red),
            op(21, 1, "<:", Style::Plain),
            op(23, 1, "0", blue),
            op(24, 1, "> ", Style::Plain),
            op(26, 1, "line1", red),
            op(26, 2, "line2", red),
        ]
    );

    let flat = FlexiLoggerView::new().with_indent(false).draw_ops(&ring, 3);
    let last = &flat[flat.len() - 1];
    assert_eq!((last.x, last.y, last.text.as_str()), (0, 2, "line2"));
    let before = &flat[flat.len() - 2];
    assert_eq!((before.x, before.y, before.text.as_str()), (26, 1, "line1"));

    let (width, _) = view.required_size(&ring, 0, 0);
    assert_eq!(width, 31);
}

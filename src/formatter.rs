//! Turns a log record into one styled line, token by token.
use vstd::prelude::*;
use vstd::string::*;
use crate::style::{
    level_as_str, level_color, level_name, log_level_as_dark_color, Color, Level, Segment, Style,
    StyledLine,
};
use crate::text::{append_decimal, decimal};

verus! {

/// The tokens that a line format is made of; each one adds segments to the line.
#[derive(Clone, Copy, Debug)]
pub enum LogItems<'c> {
    DateTime,
    Thread,
    ModLine,
    File,
    FileLine,
    Level,
    Message,
    Custom(&'c str),
}

impl Default for LogItems<'_> {
    fn default() -> (r: Self)
        ensures
            r is Level,
    {
        LogItems::Level
    }
}

/// What the console needs to know of one log record. The timestamp comes
/// already formatted by the configured pattern.
#[derive(Clone, Debug)]
pub struct LogRecord {
    pub timestamp: String,
    pub level: Level,
    pub thread_name: Option<String>,
    pub module: Option<String>,
    pub file: Option<String>,
    pub line: Option<u32>,
    pub message: String,
}

/// The tokens of the default format: time, level, module and line, message.
pub open spec fn default_items<'c>() -> Seq<LogItems<'c>> {
    seq![LogItems::DateTime, LogItems::Level, LogItems::ModLine, LogItems::Message]
}

/// The default format.
pub fn default_format<'c>() -> (r: Vec<LogItems<'c>>)
    ensures
        r@ == default_items::<'c>(),
{
    let r = vec![LogItems::DateTime, LogItems::Level, LogItems::ModLine, LogItems::Message];
    assert(r@ =~= default_items::<'c>());
    r
}

/// The text of an optional field, empty when it is missing.
pub open spec fn text_or_empty(o: Option<String>) -> Seq<char> {
    match o {
        Some(s) => s@,
        None => Seq::<char>::empty(),
    }
}

/// The record's line number, zero when it is missing.
pub open spec fn line_or_zero(o: Option<u32>) -> nat {
    match o {
        Some(n) => n as nat,
        None => 0,
    }
}

/// The record's thread name, one space when it has none.
pub open spec fn thread_or_space(o: Option<String>) -> Seq<char> {
    match o {
        Some(s) => s@,
        None => seq![' '],
    }
}

/// The style of the record's level color.
pub open spec fn level_style(rec: LogRecord) -> Style {
    Style::Colored(level_color(rec.level))
}

/// The segments that one token adds for `rec`.
pub open spec fn item_segments(item: LogItems, rec: LogRecord) -> Seq<(Seq<char>, Style)> {
    match item {
        LogItems::DateTime => seq![(rec.timestamp@.push(' '), Style::Plain)],
        LogItems::Thread => seq![
            (seq!['['] + thread_or_space(rec.thread_name) + seq![']', ' '], Style::Plain),
        ],
        LogItems::Level => seq![
            (seq!['['] + level_name(rec.level) + seq![']', ' '], level_style(rec)),
        ],
        LogItems::File => seq![
            (seq!['<'] + text_or_empty(rec.file) + seq!['>', ' '], Style::Plain),
        ],
        LogItems::FileLine => seq![
            (
                seq!['<'] + text_or_empty(rec.file) + seq![':'] + decimal(line_or_zero(rec.line))
                    + seq!['>', ' '],
                Style::Plain,
            ),
        ],
        LogItems::ModLine => seq![
            (seq!['<'] + text_or_empty(rec.module) + seq![':'], Style::Plain),
            (decimal(line_or_zero(rec.line)), Style::Colored(Color::Blue)),
            (seq!['>', ' '], Style::Plain),
        ],
        LogItems::Message => seq![(rec.message@, level_style(rec))],
        LogItems::Custom(t) => seq![(t@, level_style(rec))],
    }
}

/// The segments of `items` in order, each token's after the previous one's.
pub open spec fn items_segments(items: Seq<LogItems>, rec: LogRecord) -> Seq<(Seq<char>, Style)>
    decreases items.len(),
{
    if items.len() == 0 {
        Seq::empty()
    } else {
        items_segments(items.drop_last(), rec) + item_segments(items.last(), rec)
    }
}

/// The line that `items` make of `rec`; a format without tokens yields the
/// message segment alone.
pub open spec fn formatted_line(items: Seq<LogItems>, rec: LogRecord) -> Seq<(Seq<char>, Style)> {
    if items.len() == 0 {
        seq![(rec.message@, level_style(rec))]
    } else {
        items_segments(items, rec)
    }
}

/// The styled view of a list of segments.
pub open spec fn segments_view(v: Seq<Segment>) -> Seq<(Seq<char>, Style)> {
    v.map_values(|s: Segment| s@)
}

/// Appends one segment: in `color` when `colored`, plain otherwise.
fn append_line(line: &mut Vec<Segment>, content: String, colored: bool, color: Color)
    ensures
        segments_view(final(line)@) == segments_view(old(line)@).push(
            (content@, if colored { Style::Colored(color) } else { Style::Plain }),
        ),
{
    let style = if colored { Style::Colored(color) } else { Style::Plain };
    line.push(Segment { content, style });
    assert(segments_view(final(line)@) =~= segments_view(old(line)@).push((content@, style)));
}

/// Appends the module path and line number: `<path:` plain, the number in
/// blue, `> ` plain.
fn append_mod_line(line: &mut Vec<Segment>, rec: &LogRecord)
    ensures
        segments_view(final(line)@) == segments_view(old(line)@) + item_segments(
            LogItems::ModLine,
            *rec,
        ),
{
    proof {
        reveal_strlit("<");
        reveal_strlit(":");
        reveal_strlit("> ");
    }
    let mut head = String::from_str("<");
    match &rec.module {
        Some(p) => head.append(p.as_str()),
        None => {},
    }
    head.append(":");
    let mut num = String::new();
    let n: u32 = match rec.line {
        Some(n) => n,
        None => 0,
    };
    append_decimal(&mut num, n);
    assert(head@ =~= seq!['<'] + text_or_empty(rec.module) + seq![':']);
    assert(num@ =~= decimal(line_or_zero(rec.line)));
    let ghost start = segments_view(line@);
    append_line(line, head, false, Color::Blue);
    append_line(line, num, true, Color::Blue);
    let tail = String::from_str("> ");
    assert(tail@ =~= seq!['>', ' ']);
    append_line(line, tail, false, Color::Blue);
    assert(segments_view(line@) =~= start + item_segments(LogItems::ModLine, *rec));
}

/// Appends the segments of one token.
fn append_item(line: &mut Vec<Segment>, item: &LogItems, rec: &LogRecord)
    ensures
        segments_view(final(line)@) == segments_view(old(line)@) + item_segments(*item, *rec),
{
    proof {
        reveal_strlit(" ");
        reveal_strlit("[");
        reveal_strlit("] ");
        reveal_strlit("<");
        reveal_strlit(":");
        reveal_strlit("> ");
    }
    let color = log_level_as_dark_color(&rec.level);
    let ghost start = segments_view(line@);
    match item {
        LogItems::DateTime => {
            let mut s = rec.timestamp.clone();
            s.append(" ");
            assert(s@ =~= item_segments(*item, *rec)[0].0);
            append_line(line, s, false, color);
        },
        LogItems::Thread => {
            let mut s = String::from_str("[");
            match &rec.thread_name {
                Some(t) => s.append(t.as_str()),
                None => s.append(" "),
            }
            s.append("] ");
            assert(s@ =~= item_segments(*item, *rec)[0].0);
            append_line(line, s, false, color);
        },
        LogItems::Level => {
            let mut s = String::from_str("[");
            s.append(level_as_str(&rec.level));
            s.append("] ");
            assert(s@ =~= item_segments(*item, *rec)[0].0);
            append_line(line, s, true, color);
        },
        LogItems::File => {
            let mut s = String::from_str("<");
            match &rec.file {
                Some(f) => s.append(f.as_str()),
                None => {},
            }
            s.append("> ");
            assert(s@ =~= item_segments(*item, *rec)[0].0);
            append_line(line, s, false, color);
        },
        LogItems::FileLine => {
            let mut s = String::from_str("<");
            match &rec.file {
                Some(f) => s.append(f.as_str()),
                None => {},
            }
            s.append(":");
            let n: u32 = match rec.line {
                Some(n) => n,
                None => 0,
            };
            append_decimal(&mut s, n);
            s.append("> ");
            assert(s@ =~= item_segments(*item, *rec)[0].0);
            append_line(line, s, false, color);
        },
        LogItems::ModLine => {
            append_mod_line(line, rec);
        },
        LogItems::Message => {
            append_line(line, rec.message.clone(), true, color);
        },
        LogItems::Custom(t) => {
            append_line(line, String::from_str(t), true, color);
        },
    }
    assert(segments_view(line@) =~= start + item_segments(*item, *rec));
}

/// Formats `rec` by the tokens of `items`, left to right. Each token adds its
/// segments after the previous ones; with no tokens the line is the message
/// alone. The message should be the last token, as the renderer treats the
/// last segment as the message.
pub fn format_line(items: &[LogItems], rec: &LogRecord) -> (r: StyledLine)
    ensures
        r@ == formatted_line(items@, *rec),
        r@.len() >= 1,
{
    let mut line: Vec<Segment> = Vec::new();
    if items.len() == 0 {
        let color = log_level_as_dark_color(&rec.level);
        append_line(&mut line, rec.message.clone(), true, color);
        assert(segments_view(line@) =~= formatted_line(items@, *rec));
    } else {
        let mut i: usize = 0;
        assert(segments_view(line@) =~= items_segments(items@.subrange(0, 0), *rec));
        while i < items.len()
            invariant
                i <= items@.len(),
                segments_view(line@) == items_segments(items@.subrange(0, i as int), *rec),
            decreases items@.len() - i,
        {
            append_item(&mut line, &items[i], rec);
            assert(items@.subrange(0, i + 1).drop_last() =~= items@.subrange(0, i as int));
            i = i + 1;
        }
        assert(items@.subrange(0, items@.len() as int) =~= items@);
        proof { lemma_items_segments_nonempty(items@, *rec); }
    }
    StyledLine { segments: line }
}

/// Every token adds at least one segment.
pub proof fn lemma_items_segments_nonempty(items: Seq<LogItems>, rec: LogRecord)
    requires
        items.len() >= 1,
    ensures
        items_segments(items, rec).len() >= 1,
    decreases items.len(),
{
    assert(item_segments(items.last(), rec).len() >= 1);
}

/// Two records that show the same content: the same fields, as the line
/// format reads them.
pub open spec fn same_content(a: LogRecord, b: LogRecord) -> bool {
    &&& a.timestamp@ == b.timestamp@
    &&& a.level == b.level
    &&& thread_or_space(a.thread_name) == thread_or_space(b.thread_name)
    &&& text_or_empty(a.module) == text_or_empty(b.module)
    &&& text_or_empty(a.file) == text_or_empty(b.file)
    &&& line_or_zero(a.line) == line_or_zero(b.line)
    &&& a.message@ == b.message@
}

/// Determinism: records of the same content, formatted by the same tokens,
/// give the same segments with the same styles.
pub proof fn lemma_format_deterministic(items: Seq<LogItems>, a: LogRecord, b: LogRecord)
    requires
        same_content(a, b),
    ensures
        formatted_line(items, a) == formatted_line(items, b),
{
    lemma_segments_deterministic(items, a, b);
}

proof fn lemma_segments_deterministic(items: Seq<LogItems>, a: LogRecord, b: LogRecord)
    requires
        same_content(a, b),
    ensures
        items_segments(items, a) == items_segments(items, b),
    decreases items.len(),
{
    if items.len() > 0 {
        lemma_segments_deterministic(items.drop_last(), a, b);
        assert(item_segments(items.last(), a) == item_segments(items.last(), b));
    }
}

/// With the default format, the last segment is the record's message as it
/// stands, in the color of its level.
pub proof fn lemma_default_message_last(rec: LogRecord)
    ensures
        formatted_line(default_items(), rec).last() == (rec.message@, level_style(rec)),
{
    let items = default_items();
    assert(items.last() == LogItems::Message);
    assert(item_segments(LogItems::Message, rec) == seq![(rec.message@, level_style(rec))]);
}

} // verus!

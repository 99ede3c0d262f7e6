//! Levels, colors and styled text segments.
use vstd::prelude::*;

verus! {

/// Severity of a log record.
#[derive(Clone, Copy, Debug, PartialEq, Eq, Structural)]
pub enum Level {
    Trace,
    Debug,
    Info,
    Warn,
    Error,
}

/// The dark terminal colors used by the console.
#[derive(Clone, Copy, Debug, PartialEq, Eq, Structural)]
pub enum Color {
    Magenta,
    Cyan,
    Green,
    Yellow,
    Red,
    Blue,
}

/// How a segment is drawn: plain, or in one color.
#[derive(Clone, Copy, Debug, PartialEq, Eq, Structural)]
pub enum Style {
    Plain,
    Colored(Color),
}

/// The color that stands for a level.
pub open spec fn level_color(level: Level) -> Color {
    match level {
        Level::Trace => Color::Magenta,
        Level::Debug => Color::Cyan,
        Level::Info => Color::Green,
        Level::Warn => Color::Yellow,
        Level::Error => Color::Red,
    }
}

/// The upper-case name under which a level is shown.
pub open spec fn level_name(level: Level) -> Seq<char> {
    match level {
        Level::Trace => seq!['T', 'R', 'A', 'C', 'E'],
        Level::Debug => seq!['D', 'E', 'B', 'U', 'G'],
        Level::Info => seq!['I', 'N', 'F', 'O'],
        Level::Warn => seq!['W', 'A', 'R', 'N'],
        Level::Error => seq!['E', 'R', 'R', 'O', 'R'],
    }
}

/// The color in which records of `level` are drawn.
pub fn log_level_as_dark_color(level: &Level) -> (r: Color)
    ensures
        r == level_color(*level),
{
    match level {
        Level::Trace => Color::Magenta,
        Level::Debug => Color::Cyan,
        Level::Info => Color::Green,
        Level::Warn => Color::Yellow,
        Level::Error => Color::Red,
    }
}

/// The name of `level`, as shown between brackets.
pub fn level_as_str(level: &Level) -> (r: &'static str)
    ensures
        r@ == level_name(*level),
{
    match level {
        Level::Trace => {
            proof { reveal_strlit("TRACE"); }
            "TRACE"
        },
        Level::Debug => {
            proof { reveal_strlit("DEBUG"); }
            "DEBUG"
        },
        Level::Info => {
            proof { reveal_strlit("INFO"); }
            "INFO"
        },
        Level::Warn => {
            proof { reveal_strlit("WARN"); }
            "WARN"
        },
        Level::Error => {
            proof { reveal_strlit("ERROR"); }
            "ERROR"
        },
    }
}

/// One run of text drawn in one style.
#[derive(Clone, Debug)]
pub struct Segment {
    pub content: String,
    pub style: Style,
}

impl View for Segment {
    type V = (Seq<char>, Style);

    open spec fn view(&self) -> (Seq<char>, Style) {
        (self.content@, self.style)
    }
}

/// One log entry as drawn: metadata segments followed by the message segment,
/// which comes last.
#[derive(Clone, Debug)]
pub struct StyledLine {
    pub segments: Vec<Segment>,
}

impl View for StyledLine {
    type V = Seq<(Seq<char>, Style)>;

    open spec fn view(&self) -> Seq<(Seq<char>, Style)> {
        self.segments@.map_values(|s: Segment| s@)
    }
}

} // verus!

//! A bounded, continuously updated log console: log records are formatted into
//! styled lines, kept in a fixed-capacity ring, and laid out for a viewport that
//! always shows the newest entries.
pub mod formatter;
pub mod ring;
pub mod style;
pub mod text;
pub mod view;

pub use formatter::{default_format, format_line, LogItems, LogRecord};
pub use ring::{LogRing, LOG_CAPACITY};
pub use style::{level_as_str, log_level_as_dark_color, Color, Level, Segment, Style, StyledLine};
pub use text::{append_decimal, split_newlines};
pub use view::{combine_widths, line_ops_at, FlexiLoggerView, PrintOp};

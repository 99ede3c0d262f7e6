//! Layout of the console: the size its content needs, and where each piece of
//! the visible tail is printed.
use vstd::prelude::*;
use crate::ring::LogRing;
use crate::style::{Style, StyledLine};
use crate::text::{
    count_newlines, display_width, lemma_split_lines_count, lemma_split_lines_shape, split_lines,
    split_newlines, str_width,
};

verus! {

/// The view of a styled line: each segment's text and style.
pub type LineView = Seq<(Seq<char>, Style)>;

/// `x`, or `usize::MAX` where `x` is larger.
pub open spec fn cap(x: int) -> int {
    if x > usize::MAX {
        usize::MAX as int
    } else {
        x
    }
}

/// `x`, raised to `m` where it is smaller.
pub open spec fn at_least(x: int, m: int) -> int {
    if x < m {
        m
    } else {
        x
    }
}

/// The sum of `ws`.
pub open spec fn sum_of(ws: Seq<nat>) -> nat
    decreases ws.len(),
{
    if ws.len() == 0 {
        0
    } else {
        sum_of(ws.drop_last()) + ws.last()
    }
}

/// The largest of `ws`; zero for none.
pub open spec fn max_of(ws: Seq<nat>) -> nat
    decreases ws.len(),
{
    if ws.len() == 0 {
        0
    } else {
        let m = max_of(ws.drop_last());
        if ws.last() > m {
            ws.last()
        } else {
            m
        }
    }
}

/// Machine integers as natural numbers.
pub open spec fn nat_seq(v: Seq<usize>) -> Seq<nat> {
    v.map_values(|w: usize| w as nat)
}

/// How many segments come before the message.
pub open spec fn prefix_count(line: LineView) -> int {
    if line.len() == 0 {
        0
    } else {
        line.len() - 1
    }
}

/// The message: the text of the last segment.
pub open spec fn message_text(line: LineView) -> Seq<char> {
    if line.len() == 0 {
        Seq::<char>::empty()
    } else {
        line.last().0
    }
}

/// The style of the message.
pub open spec fn message_style(line: LineView) -> Style {
    if line.len() == 0 {
        Style::Plain
    } else {
        line.last().1
    }
}

/// The sub-lines of the message, one per row.
pub open spec fn message_parts(line: LineView) -> Seq<Seq<char>> {
    split_lines(message_text(line))
}

/// The display widths of the segments before the message.
pub open spec fn prefix_widths(line: LineView) -> Seq<nat> {
    line.subrange(0, prefix_count(line)).map_values(|s: (Seq<char>, Style)| display_width(s.0))
}

/// The display widths of the message's sub-lines.
pub open spec fn part_widths(line: LineView) -> Seq<nat> {
    message_parts(line).map_values(|p: Seq<char>| display_width(p))
}

/// The columns a line needs: its prefix, then its widest sub-line.
pub open spec fn line_width(line: LineView) -> nat {
    sum_of(prefix_widths(line)) + max_of(part_widths(line))
}

/// The rows a line takes: one per sub-line of its message.
pub open spec fn line_height(line: LineView) -> nat {
    message_parts(line).len()
}

/// The widest of `lines`; zero for none.
pub open spec fn max_line_width(lines: Seq<StyledLine>) -> nat
    decreases lines.len(),
{
    if lines.len() == 0 {
        0
    } else {
        let m = max_line_width(lines.drop_last());
        let w = line_width(lines.last()@);
        if w > m {
            w
        } else {
            m
        }
    }
}

/// The columns that `lines` need; one when there are none.
pub open spec fn content_width(lines: Seq<StyledLine>) -> nat {
    if lines.len() == 0 {
        1
    } else {
        max_line_width(lines)
    }
}

/// The rows that `lines` take together.
pub open spec fn total_height(lines: Seq<StyledLine>) -> nat
    decreases lines.len(),
{
    if lines.len() == 0 {
        0
    } else {
        total_height(lines.drop_last()) + line_height(lines.last()@)
    }
}

/// One text printed at a column and row, in a style.
#[derive(Clone, Debug)]
pub struct PrintOp {
    pub x: usize,
    pub y: usize,
    pub text: String,
    pub style: Style,
}

impl View for PrintOp {
    type V = (int, int, Seq<char>, Style);

    open spec fn view(&self) -> (int, int, Seq<char>, Style) {
        (self.x as int, self.y as int, self.text@, self.style)
    }
}

/// The view of a list of print operations.
pub open spec fn ops_view(v: Seq<PrintOp>) -> Seq<(int, int, Seq<char>, Style)> {
    v.map_values(|o: PrintOp| o@)
}

/// The print operations of one line at row `y`, given the widths `pw` of its
/// prefix segments: the prefix left to right from column 0, then each
/// sub-line of the message on a row of its own. The first sub-line starts
/// where the prefix ends; the others start there too when `indent`, at
/// column 0 otherwise.
pub open spec fn line_ops_given(line: LineView, pw: Seq<nat>, y: int, indent: bool) -> Seq<
    (int, int, Seq<char>, Style),
> {
    let parts = message_parts(line);
    let mx = cap(sum_of(pw) as int);
    Seq::new(
        prefix_count(line) as nat,
        |j: int| (cap(sum_of(pw.subrange(0, j)) as int), y, line[j].0, line[j].1),
    ) + Seq::new(
        parts.len(),
        |i: int|
            (
                if i == 0 || indent {
                    mx
                } else {
                    0
                },
                y + i,
                parts[i],
                message_style(line),
            ),
    )
}

/// The print operations of one line at row `y`.
pub open spec fn line_ops(line: LineView, y: int, indent: bool) -> Seq<
    (int, int, Seq<char>, Style),
> {
    line_ops_given(line, prefix_widths(line), y, indent)
}

/// The rows that lines `a` up to (not including) `b` take.
pub open spec fn rows_between(lines: Seq<StyledLine>, a: int, b: int) -> nat
    decreases b - a,
{
    if b <= a {
        0
    } else {
        rows_between(lines, a, b - 1) + line_height(lines[b - 1]@)
    }
}

/// The print operations of lines `a` up to (not including) `b`, line `a`
/// starting at row 0 and each line below the rows of the ones before it.
pub open spec fn ops_between(lines: Seq<StyledLine>, a: int, b: int, indent: bool) -> Seq<
    (int, int, Seq<char>, Style),
>
    decreases b - a,
{
    if b <= a {
        Seq::empty()
    } else {
        ops_between(lines, a, b - 1, indent) + line_ops(
            lines[b - 1]@,
            rows_between(lines, a, b - 1) as int,
            indent,
        )
    }
}

/// The index of the first line drawn: the tail of `len` lines is shown, as
/// many lines as the viewport has rows.
pub open spec fn first_drawn(len: int, height: int) -> int {
    if len > height {
        len - height
    } else {
        0
    }
}

/// What a viewport of `height` rows draws of `lines`.
pub open spec fn drawn_ops(lines: Seq<StyledLine>, height: int, indent: bool) -> Seq<
    (int, int, Seq<char>, Style),
> {
    ops_between(lines, first_drawn(lines.len() as int, height), lines.len() as int, indent)
}

fn add_capped(a: usize, b: usize) -> (r: usize)
    ensures
        r == cap(a + b),
{
    if a > usize::MAX - b {
        usize::MAX
    } else {
        a + b
    }
}

/// The message of `line` and its style.
fn message_of(line: &StyledLine) -> (r: (&str, Style))
    ensures
        r.0@ == message_text(line@),
        r.1 == message_style(line@),
{
    let n = line.segments.len();
    if n == 0 {
        proof { reveal_strlit(""); }
        ("", Style::Plain)
    } else {
        let last = &line.segments[n - 1];
        (last.content.as_str(), last.style)
    }
}

/// The sub-lines of the message of `line`.
fn message_parts_of(line: &StyledLine) -> (r: Vec<String>)
    ensures
        r@.map_values(|p: String| p@) == message_parts(line@),
{
    let (msg, _style) = message_of(line);
    split_newlines(msg)
}

/// The display widths of the segments of `line` before its message.
fn prefix_widths_of(line: &StyledLine) -> (r: Vec<usize>)
    ensures
        nat_seq(r@) == prefix_widths(line@),
{
    let n = line.segments.len();
    let count: usize = if n == 0 { 0 } else { n - 1 };
    let mut r: Vec<usize> = Vec::new();
    let mut j: usize = 0;
    while j < count
        invariant
            j <= count,
            count == prefix_count(line@),
            n == line.segments@.len(),
            nat_seq(r@) == prefix_widths(line@).subrange(0, j as int),
        decreases count - j,
    {
        let w = str_width(line.segments[j].content.as_str());
        assert(line@[j as int] == line.segments@[j as int]@);
        assert(prefix_widths(line@)[j as int] == w as nat);
        let ghost prev = r@;
        r.push(w);
        assert(r@ =~= prev.push(w));
        assert(nat_seq(r@) =~= nat_seq(prev).push(w as nat));
        assert(nat_seq(r@) =~= prefix_widths(line@).subrange(0, j + 1));
        j = j + 1;
    }
    assert(prefix_widths(line@).subrange(0, count as int) =~= prefix_widths(line@));
    r
}

/// The display widths of `parts`.
fn widths_of(parts: &Vec<String>) -> (r: Vec<usize>)
    ensures
        nat_seq(r@) == parts@.map_values(|p: String| display_width(p@)),
{
    let mut r: Vec<usize> = Vec::new();
    let mut i: usize = 0;
    while i < parts.len()
        invariant
            i <= parts@.len(),
            nat_seq(r@) == parts@.map_values(|p: String| display_width(p@)).subrange(0, i as int),
        decreases parts@.len() - i,
    {
        let w = str_width(parts[i].as_str());
        assert(parts@.map_values(|p: String| display_width(p@))[i as int] == w as nat);
        let ghost prev = r@;
        r.push(w);
        assert(r@ =~= prev.push(w));
        assert(nat_seq(r@) =~= nat_seq(prev).push(w as nat));
        assert(nat_seq(r@) =~= parts@.map_values(|p: String| display_width(p@)).subrange(
            0,
            i + 1,
        ));
        i = i + 1;
    }
    assert(parts@.map_values(|p: String| display_width(p@)).subrange(0, parts@.len() as int)
        =~= parts@.map_values(|p: String| display_width(p@)));
    r
}

/// The width of a line from the widths of its pieces: the prefix widths
/// added up, plus the widest sub-line of the message (sub-lines are stacked,
/// not joined); `usize::MAX` where that is larger.
pub fn combine_widths(prefix: &Vec<usize>, parts: &Vec<usize>) -> (r: usize)
    ensures
        r == cap((sum_of(nat_seq(prefix@)) + max_of(nat_seq(parts@))) as int),
{
    let mut s: usize = 0;
    let mut j: usize = 0;
    while j < prefix.len()
        invariant
            j <= prefix@.len(),
            s == cap(sum_of(nat_seq(prefix@).subrange(0, j as int)) as int),
        decreases prefix@.len() - j,
    {
        assert(nat_seq(prefix@).subrange(0, j + 1).drop_last() =~= nat_seq(prefix@).subrange(
            0,
            j as int,
        ));
        s = add_capped(s, prefix[j]);
        j = j + 1;
    }
    assert(nat_seq(prefix@).subrange(0, prefix@.len() as int) =~= nat_seq(prefix@));
    let mut m: usize = 0;
    let mut i: usize = 0;
    while i < parts.len()
        invariant
            i <= parts@.len(),
            m == max_of(nat_seq(parts@).subrange(0, i as int)),
        decreases parts@.len() - i,
    {
        assert(nat_seq(parts@).subrange(0, i + 1).drop_last() =~= nat_seq(parts@).subrange(
            0,
            i as int,
        ));
        if parts[i] > m {
            m = parts[i];
        }
        i = i + 1;
    }
    assert(nat_seq(parts@).subrange(0, parts@.len() as int) =~= nat_seq(parts@));
    add_capped(s, m)
}

/// The columns and rows that `line` needs.
fn line_extent(line: &StyledLine) -> (r: (usize, usize))
    ensures
        r.0 == cap(line_width(line@) as int),
        r.1 == line_height(line@),
{
    let pw = prefix_widths_of(line);
    let parts = message_parts_of(line);
    let qw = widths_of(&parts);
    assert(nat_seq(qw@) =~= part_widths(line@));
    let w = combine_widths(&pw, &qw);
    (w, parts.len())
}

/// Appends the print operations of `line` at row `y`, given the widths of its
/// prefix segments, and returns the rows it takes.
fn push_line_ops(
    ops: &mut Vec<PrintOp>,
    line: &StyledLine,
    widths: &Vec<usize>,
    y: usize,
    indent: bool,
) -> (h: usize)
    requires
        widths@.len() == prefix_count(line@),
        y <= old(ops)@.len(),
    ensures
        ops_view(final(ops)@) == ops_view(old(ops)@) + line_ops_given(
            line@,
            nat_seq(widths@),
            y as int,
            indent,
        ),
        h == line_height(line@),
        final(ops)@.len() == old(ops)@.len() + prefix_count(line@) + h,
{
    let ghost start = ops_view(ops@);
    let ghost pw = nat_seq(widths@);
    let ghost want = line_ops_given(line@, pw, y as int, indent);
    let n = line.segments.len();
    let count: usize = if n == 0 { 0 } else { n - 1 };
    let mut x: usize = 0;
    let mut j: usize = 0;
    assert(ops_view(ops@) =~= start + want.subrange(0, 0));
    while j < count
        invariant
            j <= count,
            count == prefix_count(line@),
            n == line.segments@.len(),
            widths@.len() == count,
            pw == nat_seq(widths@),
            want == line_ops_given(line@, pw, y as int, indent),
            x == cap(sum_of(pw.subrange(0, j as int)) as int),
            ops_view(ops@) == start + want.subrange(0, j as int),
            ops@.len() == start.len() + j,
            start.len() >= y,
        decreases count - j,
    {
        let seg = &line.segments[j];
        let op = PrintOp { x, y, text: seg.content.clone(), style: seg.style };
        assert(line@[j as int] == (seg.content@, seg.style));
        assert(want[j as int] == op@);
        let ghost prev = ops@;
        ops.push(op);
        assert(ops@ =~= prev.push(op));
        assert(ops_view(ops@) =~= ops_view(prev).push(op@));
        assert(ops_view(ops@) =~= start + want.subrange(0, j + 1));
        assert(pw.subrange(0, j + 1).drop_last() =~= pw.subrange(0, j as int));
        x = add_capped(x, widths[j]);
        j = j + 1;
    }
    assert(pw.subrange(0, count as int) =~= pw);
    let (msg, style) = message_of(line);
    let parts = split_newlines(msg);
    let ghost parts_view = parts@.map_values(|p: String| p@);
    let mut i: usize = 0;
    while i < parts.len()
        invariant
            i <= parts@.len(),
            count == prefix_count(line@),
            parts_view == parts@.map_values(|p: String| p@),
            parts_view == message_parts(line@),
            style == message_style(line@),
            want == line_ops_given(line@, pw, y as int, indent),
            x == cap(sum_of(pw) as int),
            ops_view(ops@) == start + want.subrange(0, count + i),
            ops@.len() == start.len() + count + i,
            start.len() >= y,
        decreases parts@.len() - i,
    {
        let len_now = ops.len();
        let px = if i == 0 || indent { x } else { 0 };
        let op = PrintOp { x: px, y: y + i, text: parts[i].clone(), style };
        assert(parts_view[i as int] == parts@[i as int]@);
        assert(want[count + i] == op@);
        let ghost prev = ops@;
        ops.push(op);
        assert(ops@ =~= prev.push(op));
        assert(ops_view(ops@) =~= ops_view(prev).push(op@));
        assert(ops_view(ops@) =~= start + want.subrange(0, count + i + 1));
        i = i + 1;
    }
    assert(want.subrange(0, count + parts@.len()) =~= want);
    parts.len()
}

/// The print operations of `line` alone, from row 0, given the widths of its
/// prefix segments.
pub fn line_ops_at(line: &StyledLine, widths: &Vec<usize>, indent: bool) -> (r: Vec<PrintOp>)
    requires
        widths@.len() == prefix_count(line@),
    ensures
        ops_view(r@) == line_ops_given(line@, nat_seq(widths@), 0, indent),
{
    let mut ops: Vec<PrintOp> = Vec::new();
    let _h = push_line_ops(&mut ops, line, widths, 0, indent);
    assert(ops_view(Seq::<PrintOp>::empty()) =~= Seq::empty());
    assert(ops_view(ops@) =~= line_ops_given(line@, nat_seq(widths@), 0, indent));
    ops
}

/// The console view: it shows the newest lines of a ring, with the message's
/// continuation rows indented under its first row or not.
#[derive(Clone, Copy, Debug, Default)]
pub struct FlexiLoggerView {
    pub indent: bool,
}

impl FlexiLoggerView {
    /// A view that indents continuation rows.
    pub fn new() -> (r: Self)
        ensures
            r.indent,
    {
        FlexiLoggerView { indent: true }
    }

    /// This view, indenting continuation rows when `indent`.
    pub fn with_indent(self, indent: bool) -> (r: Self)
        ensures
            r.indent == indent,
    {
        FlexiLoggerView { indent }
    }

    /// The size the lines of `logs` need, at least `min_width` columns and
    /// `min_height` rows: as wide as the widest line (one column when there
    /// are none), as high as all their rows together; `usize::MAX` where more.
    pub fn required_size(&self, logs: &LogRing, min_width: usize, min_height: usize) -> (r: (
        usize,
        usize,
    ))
        ensures
            r.0 == at_least(cap(content_width(logs@) as int), min_width as int),
            r.1 == at_least(cap(total_height(logs@) as int), min_height as int),
    {
        let n = logs.len();
        let mut w: usize = 0;
        let mut h: usize = 0;
        let mut i: usize = 0;
        while i < n
            invariant
                i <= n,
                n == logs@.len(),
                w == cap(max_line_width(logs@.subrange(0, i as int)) as int),
                h == cap(total_height(logs@.subrange(0, i as int)) as int),
            decreases n - i,
        {
            assert(logs@.subrange(0, i + 1).drop_last() =~= logs@.subrange(0, i as int));
            match logs.get(i) {
                Some(line) => {
                    let (lw, lh) = line_extent(line);
                    if lw > w {
                        w = lw;
                    }
                    h = add_capped(h, lh);
                },
                None => {},
            }
            i = i + 1;
        }
        assert(logs@.subrange(0, n as int) =~= logs@);
        if n == 0 {
            w = 1;
        }
        let rw = if w < min_width { min_width } else { w };
        let rh = if h < min_height { min_height } else { h };
        (rw, rh)
    }

    /// What a viewport of `height` rows shows of `logs`: the last `height`
    /// lines (all when there are fewer), the first of them from row 0, each
    /// line below the rows of the one before.
    pub fn draw_ops(&self, logs: &LogRing, height: usize) -> (r: Vec<PrintOp>)
        ensures
            ops_view(r@) == drawn_ops(logs@, height as int, self.indent),
    {
        let n = logs.len();
        let first: usize = if n > height { n - height } else { 0 };
        let mut ops: Vec<PrintOp> = Vec::new();
        let mut y: usize = 0;
        let mut i: usize = first;
        assert(ops_view(ops@) =~= Seq::empty());
        while i < n
            invariant
                first <= i <= n,
                n == logs@.len(),
                first == first_drawn(n as int, height as int),
                ops_view(ops@) == ops_between(logs@, first as int, i as int, self.indent),
                y == rows_between(logs@, first as int, i as int),
                y <= ops@.len(),
            decreases n - i,
        {
            match logs.get(i) {
                Some(line) => {
                    let widths = prefix_widths_of(line);
                    assert(widths@.len() == nat_seq(widths@).len());
                    let h = push_line_ops(&mut ops, line, &widths, y, self.indent);
                    let _len_now = ops.len();
                    y = y + h;
                },
                None => {},
            }
            i = i + 1;
        }
        ops
    }
}

/// The largest of `ws` bounds each of them, and is one of them.
pub proof fn lemma_max_of(ws: Seq<nat>)
    ensures
        forall|i: int| 0 <= i < ws.len() ==> ws[i] <= max_of(ws),
        ws.len() > 0 ==> exists|i: int| 0 <= i < ws.len() && ws[i] == max_of(ws),
    decreases ws.len(),
{
    if ws.len() > 0 {
        let init = ws.drop_last();
        lemma_max_of(init);
        assert forall|i: int| 0 <= i < ws.len() implies ws[i] <= max_of(ws) by {
            if i < init.len() {
                assert(ws[i] == init[i]);
            }
        }
        if ws.last() > max_of(init) || init.len() == 0 {
            assert(ws[ws.len() - 1] == max_of(ws));
        } else {
            let k = choose|i: int| 0 <= i < init.len() && init[i] == max_of(init);
            assert(ws[k] == max_of(ws));
        }
    }
}

/// Height: a message with `k` line breaks takes `k + 1` rows, both in the
/// size of the content and in what is drawn, one sub-line per row from the
/// line's first row on.
pub proof fn lemma_height_accounting(line: LineView, y: int, indent: bool)
    ensures
        line_height(line) == count_newlines(message_text(line)) + 1,
        line_ops(line, y, indent).len() == prefix_count(line) + line_height(line),
        forall|i: int|
            0 <= i < line_height(line) ==> #[trigger] line_ops(line, y, indent)[prefix_count(line)
                + i].1 == y + i,
{
    lemma_split_lines_count(message_text(line));
}

/// Width: a line needs its prefix plus its widest sub-line, not the sum of
/// its sub-lines; every sub-line fits, and one of them is that wide.
pub proof fn lemma_width_accounting(line: LineView)
    ensures
        line_width(line) == sum_of(prefix_widths(line)) + max_of(part_widths(line)),
        forall|i: int|
            0 <= i < part_widths(line).len() ==> #[trigger] part_widths(line)[i] <= max_of(
                part_widths(line),
            ),
        exists|i: int|
            0 <= i < part_widths(line).len() && part_widths(line)[i] == max_of(part_widths(line)),
{
    lemma_split_lines_shape(message_text(line));
    lemma_max_of(part_widths(line));
}

/// Rows taken by lines of one row each are as many as the lines.
pub proof fn lemma_rows_of_single_lines(lines: Seq<StyledLine>, a: int, b: int)
    requires
        0 <= a <= b <= lines.len(),
        forall|i: int| a <= i < b ==> line_height(#[trigger] lines[i]@) == 1,
    ensures
        rows_between(lines, a, b) == b - a,
    decreases b - a,
{
    if b > a {
        lemma_rows_of_single_lines(lines, a, b - 1);
    }
}

/// Every line takes at least one row.
pub proof fn lemma_rows_at_least_lines(lines: Seq<StyledLine>, a: int, b: int)
    requires
        0 <= a <= b <= lines.len(),
    ensures
        rows_between(lines, a, b) >= b - a,
    decreases b - a,
{
    if b > a {
        lemma_rows_at_least_lines(lines, a, b - 1);
        lemma_split_lines_shape(message_text(lines[b - 1]@));
    }
}

/// Tail scrolling: on a viewport of `height` rows with more lines than that,
/// the first `len - height` lines are skipped and the rest are drawn from row
/// 0; they take at least `height` rows, exactly `height` when each line is one
/// row.
pub proof fn lemma_tail_scroll(lines: Seq<StyledLine>, height: int, indent: bool)
    requires
        0 <= height < lines.len(),
    ensures
        drawn_ops(lines, height, indent) == ops_between(
            lines,
            lines.len() - height,
            lines.len() as int,
            indent,
        ),
        rows_between(lines, lines.len() - height, lines.len() as int) >= height,
        (forall|i: int| 0 <= i < lines.len() ==> line_height(#[trigger] lines[i]@) == 1)
            ==> rows_between(lines, lines.len() - height, lines.len() as int) == height,
{
    lemma_rows_at_least_lines(lines, lines.len() - height, lines.len() as int);
    if forall|i: int| 0 <= i < lines.len() ==> line_height(#[trigger] lines[i]@) == 1 {
        lemma_rows_of_single_lines(lines, lines.len() - height, lines.len() as int);
    }
}

/// Indentation: the first sub-line starts where the prefix ends; with
/// indentation every later sub-line starts there too, without it at column 0.
pub proof fn lemma_indentation(line: LineView, y: int, indent: bool)
    ensures
        line_ops(line, y, indent)[prefix_count(line)].0 == cap(sum_of(prefix_widths(line)) as int),
        forall|i: int|
            1 <= i < line_height(line) ==> #[trigger] line_ops(line, y, indent)[prefix_count(line)
                + i].0 == if indent {
                cap(sum_of(prefix_widths(line)) as int)
            } else {
                0
            },
{
    lemma_split_lines_shape(message_text(line));
}

} // verus!

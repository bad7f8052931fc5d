//! Segments: pieces of text with one style each, the unit of rendered output.
//!
//! A line is a sequence of segments, a grid a sequence of lines. The functions
//! here split a stream of segments into lines and bring a line to an exact
//! width in cells.
use crate::cells::{
    add_clipped, char_cells, char_width, clip, lemma_width_concat,
    lemma_width_push, lemma_width_spaces, text_width,
};
use crate::strings::{chars_of, repeat_char, repeated, string_of};
use crate::style::{Style, StyleModel};
use vstd::prelude::*;

verus! {

/// A piece of text with its style. A control segment carries codes for the
/// terminal and takes no cells.
#[derive(Debug, PartialEq, Eq)]
pub struct Segment {
    pub text: String,
    pub style: Option<Style>,
    pub control: bool,
}

/// A segment as a plain value.
pub struct SegmentModel {
    pub text: Seq<char>,
    pub style: Option<StyleModel>,
    pub control: bool,
}

/// An optional style as a plain value.
pub open spec fn style_of(s: Option<Style>) -> Option<StyleModel> {
    match s {
        Some(t) => Some(t@),
        None => None,
    }
}

impl View for Segment {
    type V = SegmentModel;

    open spec fn view(&self) -> SegmentModel {
        SegmentModel { text: self.text@, style: style_of(self.style), control: self.control }
    }
}

impl DeepView for Segment {
    type V = SegmentModel;

    open spec fn deep_view(&self) -> SegmentModel {
        self.view()
    }
}

impl SegmentModel {
    /// Cells taken by the segment; none for a control segment.
    pub open spec fn width(self) -> nat {
        if self.control {
            0
        } else {
            text_width(self.text)
        }
    }

    /// A segment of `n` spaces in the given style.
    pub open spec fn spaces(n: nat, style: Option<StyleModel>) -> SegmentModel {
        SegmentModel { text: repeated(' ', n), style, control: false }
    }
}

/// A line of segments.
pub type Line = Seq<SegmentModel>;

/// A grid: lines from top to bottom.
pub type Grid = Seq<Seq<SegmentModel>>;

/// Cells taken by a line: the sum over its segments.
pub open spec fn line_width(line: Line) -> nat
    decreases line.len(),
{
    if line.len() == 0 {
        0
    } else {
        line_width(line.drop_last()) + line.last().width()
    }
}

/// The text of a line: the texts of its segments, control segments left
/// out, joined.
pub open spec fn line_text(line: Line) -> Seq<char>
    decreases line.len(),
{
    if line.len() == 0 {
        Seq::<char>::empty()
    } else if line.last().control {
        line_text(line.drop_last())
    } else {
        line_text(line.drop_last()) + line.last().text
    }
}

/// Whether a grid has exactly `height` lines of exactly `width` cells.
pub open spec fn grid_exact(grid: Grid, width: nat, height: nat) -> bool {
    &&& grid.len() == height
    &&& forall|r: int| 0 <= r < grid.len() ==> line_width(#[trigger] grid[r]) == width
}

/// A copy of an optional style.
pub fn clone_style(s: &Option<Style>) -> (out: Option<Style>)
    ensures
        out == *s,
{
    match s {
        Some(t) => Some(t.clone()),
        None => None,
    }
}

impl Clone for Segment {
    fn clone(&self) -> (out: Segment)
        ensures
            out == *self,
    {
        Segment { text: self.text.clone(), style: clone_style(&self.style), control: self.control }
    }
}

impl Segment {
    /// A segment of `text` in `style`.
    pub fn new(text: &str, style: Option<Style>) -> (s: Segment)
        ensures
            s@ == (SegmentModel { text: text@, style: style_of(style), control: false }),
    {
        Segment { text: String::from_str(text), style, control: false }
    }

    /// A segment of `text` without a style.
    pub fn plain(text: &str) -> (s: Segment)
        ensures
            s@ == (SegmentModel { text: text@, style: None, control: false }),
    {
        Segment { text: String::from_str(text), style: None, control: false }
    }

    /// A segment of `text` in `style`.
    pub fn styled(text: &str, style: Style) -> (s: Segment)
        ensures
            s@ == (SegmentModel { text: text@, style: Some(style@), control: false }),
    {
        Segment { text: String::from_str(text), style: Some(style), control: false }
    }

    /// A control segment that carries `codes`.
    pub fn control(codes: &str) -> (s: Segment)
        ensures
            s@ == (SegmentModel { text: codes@, style: None, control: true }),
    {
        Segment { text: String::from_str(codes), style: None, control: true }
    }

    /// The segment that breaks the line.
    pub fn line() -> (s: Segment)
        ensures
            s@ == (SegmentModel { text: seq!['\n'], style: None, control: false }),
    {
        let mut text = String::new();
        text.push('\n');
        proof {
            assert(Seq::<char>::empty().push('\n') =~= seq!['\n']);
        }
        Segment { text, style: None, control: false }
    }

    /// A segment of `n` spaces in `style`.
    pub fn spaces(n: usize, style: Option<Style>) -> (s: Segment)
        ensures
            s@ == SegmentModel::spaces(n as nat, style_of(style)),
    {
        Segment { text: repeat_char(' ', n), style, control: false }
    }

    /// Whether this is a control segment.
    pub fn is_control(&self) -> (c: bool)
        ensures
            c == self@.control,
    {
        self.control
    }

    /// Cells taken by the segment.
    pub fn cell_length(&self) -> (w: usize)
        ensures
            w == clip(self@.width()),
    {
        if self.control {
            0
        } else {
            crate::cells::cell_len(self.text.as_str())
        }
    }
}

/// A copy of a line.
pub fn clone_line(line: &Vec<Segment>) -> (out: Vec<Segment>)
    ensures
        out@ == line@,
{
    let mut out: Vec<Segment> = Vec::new();
    let mut i: usize = 0;
    while i < line.len()
        invariant
            i <= line.len(),
            out@ == line@.take(i as int),
        decreases line.len() - i,
    {
        out.push(line[i].clone());
        proof {
            assert(line@.take(i + 1) =~= line@.take(i as int).push(line@[i as int]));
        }
        i = i + 1;
    }
    proof {
        assert(line@.take(line.len() as int) =~= line@);
    }
    out
}

/// Adding a segment to a line adds its width.
pub proof fn lemma_line_width_push(line: Line, s: SegmentModel)
    ensures
        line_width(line.push(s)) == line_width(line) + s.width(),
{
    assert(line.push(s).drop_last() =~= line);
}

/// The width of two lines joined is the sum of their widths.
pub proof fn lemma_line_width_concat(a: Line, b: Line)
    ensures
        line_width(a + b) == line_width(a) + line_width(b),
    decreases b.len(),
{
    if b.len() == 0 {
        assert(a + b =~= a);
    } else {
        lemma_line_width_concat(a, b.drop_last());
        assert((a + b).drop_last() =~= a + b.drop_last());
    }
}

/// A segment of spaces takes as many cells as it has spaces.
pub proof fn lemma_spaces_width(n: nat, style: Option<StyleModel>)
    ensures
        SegmentModel::spaces(n, style).width() == n,
{
    lemma_width_spaces(n);
}

/// Cells taken by a line.
pub fn line_cells(line: &Vec<Segment>) -> (w: usize)
    ensures
        w == clip(line_width(line.deep_view())),
{
    let mut w: usize = 0;
    let mut i: usize = 0;
    while i < line.len()
        invariant
            i <= line.len(),
            w == clip(line_width(line.deep_view().take(i as int))),
        decreases line.len() - i,
    {
        proof {
            assert(line.deep_view().take(i + 1).drop_last() =~= line.deep_view().take(i as int));
        }
        w = add_clipped(w, line[i].cell_length());
        i = i + 1;
    }
    proof {
        assert(line.deep_view().take(line.len() as int) =~= line.deep_view());
    }
    w
}

/// Where the leading characters of `text[from..]` that fit into `cells`
/// end: characters are taken in order until one does not fit.
pub open spec fn fitting(text: Seq<char>, from: int, cells: nat) -> int
    decreases text.len() - from,
{
    if from < 0 || from >= text.len() || char_width(text[from]) > cells {
        from
    } else {
        fitting(text, from + 1, (cells - char_width(text[from])) as nat)
    }
}

/// `text` brought to exactly `cells` cells: padded with spaces where it is
/// short; where it is long, cut after the last character that fits, with
/// spaces for the cells that a wider character would have straddled.
pub open spec fn sized(text: Seq<char>, cells: nat) -> Seq<char> {
    let w = text_width(text);
    if w <= cells {
        text + repeated(' ', (cells - w) as nat)
    } else {
        let end = fitting(text, 0, cells);
        text.take(end) + repeated(' ', (cells - text_width(text.take(end))) as nat)
    }
}

/// The characters that fit end inside the text and take no more than the
/// cells given.
pub proof fn lemma_fitting(text: Seq<char>, from: int, cells: nat)
    requires
        0 <= from <= text.len(),
    ensures
        from <= fitting(text, from, cells) <= text.len(),
        text_width(text.subrange(from, fitting(text, from, cells))) <= cells,
    decreases text.len() - from,
{
    if from >= text.len() || char_width(text[from]) > cells {
        assert(text.subrange(from, from) =~= Seq::<char>::empty());
    } else {
        let rest = (cells - char_width(text[from])) as nat;
        lemma_fitting(text, from + 1, rest);
        let end = fitting(text, from + 1, rest);
        assert(text.subrange(from, end) =~= seq![text[from]] + text.subrange(from + 1, end));
        lemma_width_concat(seq![text[from]], text.subrange(from + 1, end));
        assert(seq![text[from]] =~= Seq::<char>::empty().push(text[from]));
        lemma_width_push(Seq::<char>::empty(), text[from]);
    }
}

/// A text brought to a size takes exactly that many cells.
pub proof fn lemma_sized_width(text: Seq<char>, cells: nat)
    ensures
        text_width(sized(text, cells)) == cells,
{
    let w = text_width(text);
    if w <= cells {
        lemma_width_concat(text, repeated(' ', (cells - w) as nat));
        lemma_width_spaces((cells - w) as nat);
    } else {
        lemma_fitting(text, 0, cells);
        let end = fitting(text, 0, cells);
        assert(text.subrange(0, end) =~= text.take(end));
        let pad = (cells - text_width(text.take(end))) as nat;
        lemma_width_concat(text.take(end), repeated(' ', pad));
        lemma_width_spaces(pad);
    }
}

/// The characters of a text that is longer than `cells` go past where the
/// fitting ones end; a text that fits is taken whole.
pub proof fn lemma_fitting_whole(text: Seq<char>, from: int, cells: nat)
    requires
        0 <= from <= text.len(),
    ensures
        text_width(text.skip(from)) <= cells <==> fitting(text, from, cells) == text.len(),
    decreases text.len() - from,
{
    if from >= text.len() {
        assert(text.skip(from) =~= Seq::<char>::empty());
    } else {
        let c = text[from];
        assert(text.skip(from) =~= seq![c] + text.skip(from + 1));
        lemma_width_concat(seq![c], text.skip(from + 1));
        assert(seq![c] =~= Seq::<char>::empty().push(c));
        lemma_width_push(Seq::<char>::empty(), c);
        if char_width(c) <= cells {
            lemma_fitting_whole(text, from + 1, (cells - char_width(c)) as nat);
        }
    }
}

/// Cells taken by the characters in `chars`, if they are no more than
/// `budget`.
pub fn chars_within(chars: &Vec<char>, budget: usize) -> (w: Option<usize>)
    ensures
        match w {
            Some(cells) => cells == text_width(chars@) && cells <= budget,
            None => text_width(chars@) > budget,
        },
{
    let mut used: usize = 0;
    let mut i: usize = 0;
    while i < chars.len() && char_cells(chars[i]) <= budget - used
        invariant
            i <= chars.len(),
            used <= budget,
            used == text_width(chars@.take(i as int)),
            fitting(chars@, i as int, (budget - used) as nat) == fitting(chars@, 0, budget as nat),
        decreases chars.len() - i,
    {
        proof {
            assert(chars@.take(i + 1).drop_last() =~= chars@.take(i as int));
        }
        used = used + char_cells(chars[i]);
        i = i + 1;
    }
    proof {
        assert(chars@.skip(0) =~= chars@);
        lemma_fitting_whole(chars@, 0, budget as nat);
        assert(chars@.take(chars.len() as int) =~= chars@);
    }
    if i == chars.len() {
        Some(used)
    } else {
        None
    }
}

/// Brings `text` to exactly `cells` cells by cutting it or padding it with
/// spaces.
pub fn set_cell_size(text: &str, cells: usize) -> (out: String)
    ensures
        out@ == sized(text@, cells as nat),
{
    let chars = chars_of(text);
    let mut used: usize = 0;
    let mut i: usize = 0;
    while i < chars.len() && char_cells(chars[i]) <= cells - used
        invariant
            i <= chars.len(),
            used <= cells,
            chars@ == text@,
            used == text_width(chars@.take(i as int)),
            fitting(chars@, i as int, (cells - used) as nat) == fitting(chars@, 0, cells as nat),
        decreases chars.len() - i,
    {
        proof {
            assert(chars@.take(i + 1).drop_last() =~= chars@.take(i as int));
        }
        used = used + char_cells(chars[i]);
        i = i + 1;
    }
    let mut out = string_of(&chars, 0, i);
    let pad = repeat_char(' ', cells - used);
    out.append(pad.as_str());
    proof {
        assert(chars@.subrange(0, i as int) =~= chars@.take(i as int));
        assert(chars@.skip(0) =~= chars@);
        lemma_fitting_whole(chars@, 0, cells as nat);
        assert(chars@.take(chars.len() as int) =~= chars@);
    }
    out
}

/// What is kept of `line[from..]` when a line is cut to `length` cells and
/// `used` cells are taken already: segments are kept whole while the line
/// stays short of `length`, control segments always; the first other segment
/// is brought to the size that is left, and ends the line.
pub open spec fn cropped(line: Line, from: int, used: nat, length: nat) -> Line
    decreases line.len() - from,
{
    if from < 0 || from >= line.len() {
        Seq::<SegmentModel>::empty()
    } else {
        let s = line[from];
        if s.control || used + s.width() < length {
            seq![s] + cropped(line, from + 1, used + s.width(), length)
        } else {
            seq![
                SegmentModel {
                    text: sized(s.text, (length - used) as nat),
                    style: s.style,
                    control: false,
                },
            ]
        }
    }
}

/// A line brought to `length` cells: cut where it is longer; where it is
/// shorter, padded with spaces in `style` if `pad` is set, else left as it
/// is.
pub open spec fn adjusted(line: Line, length: nat, style: Option<StyleModel>, pad: bool) -> Line {
    let w = line_width(line);
    if w < length {
        if pad {
            line.push(SegmentModel::spaces((length - w) as nat, style))
        } else {
            line
        }
    } else if w > length {
        cropped(line, 0, 0, length)
    } else {
        line
    }
}

proof fn lemma_line_width_one(s: SegmentModel)
    ensures
        line_width(seq![s]) == s.width(),
{
    assert(seq![s] =~= Seq::<SegmentModel>::empty().push(s));
    lemma_line_width_push(Seq::<SegmentModel>::empty(), s);
}

/// A cut line that had enough cells takes exactly the cells asked for.
pub proof fn lemma_cropped_width(line: Line, from: int, used: nat, length: nat)
    requires
        0 <= from <= line.len(),
        used <= length <= used + line_width(line.skip(from)),
    ensures
        line_width(cropped(line, from, used, length)) == length - used,
    decreases line.len() - from,
{
    if from >= line.len() {
        assert(line.skip(from) =~= Seq::<SegmentModel>::empty());
    } else {
        let s = line[from];
        assert(line.skip(from) =~= seq![s] + line.skip(from + 1));
        lemma_line_width_concat(seq![s], line.skip(from + 1));
        lemma_line_width_one(s);
        if s.control || used + s.width() < length {
            lemma_cropped_width(line, from + 1, used + s.width(), length);
            lemma_line_width_concat(seq![s], cropped(line, from + 1, used + s.width(), length));
        } else {
            let cut = SegmentModel {
                text: sized(s.text, (length - used) as nat),
                style: s.style,
                control: false,
            };
            lemma_sized_width(s.text, (length - used) as nat);
            lemma_line_width_one(cut);
        }
    }
}

/// A line adjusted with padding takes exactly the cells asked for.
pub proof fn lemma_adjusted_width(line: Line, length: nat, style: Option<StyleModel>)
    ensures
        line_width(adjusted(line, length, style, true)) == length,
{
    let w = line_width(line);
    if w < length {
        lemma_line_width_push(line, SegmentModel::spaces((length - w) as nat, style));
        lemma_spaces_width((length - w) as nat, style);
    } else if w > length {
        assert(line.skip(0) =~= line);
        lemma_cropped_width(line, 0, 0, length);
    }
}

/// Cells taken by a segment, if they are no more than `budget`.
pub fn segment_within(seg: &Segment, budget: usize) -> (w: Option<usize>)
    ensures
        match w {
            Some(cells) => cells == seg@.width() && cells <= budget,
            None => seg@.width() > budget,
        },
{
    if seg.control {
        Some(0)
    } else {
        let chars = chars_of(seg.text.as_str());
        chars_within(&chars, budget)
    }
}

/// Cells taken by a line, if they are no more than `budget`.
pub fn line_within(line: &Vec<Segment>, budget: usize) -> (w: Option<usize>)
    ensures
        match w {
            Some(cells) => cells == line_width(line.deep_view()) && cells <= budget,
            None => line_width(line.deep_view()) > budget,
        },
{
    let ghost model = line.deep_view();
    let mut used: usize = 0;
    let mut i: usize = 0;
    while i < line.len()
        invariant
            i <= line.len(),
            used <= budget,
            model == line.deep_view(),
            used == line_width(model.take(i as int)),
        decreases line.len() - i,
    {
        proof {
            assert(model.take(i + 1).drop_last() =~= model.take(i as int));
            assert(model[i as int] == line[i as int]@);
            assert(model =~= model.take(i + 1) + model.skip(i + 1));
            lemma_line_width_concat(model.take(i + 1), model.skip(i + 1));
        }
        match segment_within(&line[i], budget - used) {
            Some(cells) => {
                used = used + cells;
            },
            None => {
                return None;
            },
        }
        i = i + 1;
    }
    proof {
        assert(model.take(line.len() as int) =~= model);
    }
    Some(used)
}

/// Brings `line` to `length` cells: cuts it where it is longer, and where it
/// is shorter pads it with spaces in `style` if `pad` is set.
pub fn adjust_line_length(line: Vec<Segment>, length: usize, style: Option<Style>, pad: bool) -> (out:
    Vec<Segment>)
    ensures
        out.deep_view() == adjusted(line.deep_view(), length as nat, style_of(style), pad),
{
    let ghost model = line.deep_view();
    match line_within(&line, length) {
        Some(w) => {
            let mut out = line;
            if pad && w < length {
                out.push(Segment::spaces(length - w, style));
                proof {
                    assert(out.deep_view() =~= model.push(
                        SegmentModel::spaces((length - w) as nat, style_of(style)),
                    ));
                }
            }
            out
        },
        None => {
            let mut out: Vec<Segment> = Vec::new();
            let mut used: usize = 0;
            let mut i: usize = 0;
            let mut open = true;
            while open && i < line.len()
                invariant
                    i <= line.len(),
                    used <= length,
                    model == line.deep_view(),
                    open ==> out.deep_view() + cropped(
                        model,
                        i as int,
                        used as nat,
                        length as nat,
                    ) == cropped(model, 0, 0, length as nat),
                    !open ==> out.deep_view() == cropped(model, 0, 0, length as nat),
                decreases line.len() - i + if open { 1int } else { 0int },
            {
                let seg = &line[i];
                let ghost before = out.deep_view();
                proof {
                    assert(model[i as int] == seg@);
                }
                let keep = if seg.control {
                    Some(0usize)
                } else if used < length {
                    match segment_within(seg, length - used - 1) {
                        Some(cells) => Some(cells),
                        None => None,
                    }
                } else {
                    None
                };
                match keep {
                    Some(cells) => {
                        out.push(seg.clone());
                        proof {
                            let tail = cropped(
                                model,
                                i + 1,
                                used as nat + seg@.width(),
                                length as nat,
                            );
                            assert(out.deep_view() =~= before.push(seg@));
                            assert(before.push(seg@) + tail =~= before + (seq![seg@] + tail));
                        }
                        used = used + cells;
                        i = i + 1;
                    },
                    None => {
                        let text = set_cell_size(seg.text.as_str(), length - used);
                        out.push(Segment { text, style: clone_style(&seg.style), control: false });
                        proof {
                            let cut = SegmentModel {
                                text: sized(seg@.text, (length - used) as nat),
                                style: seg@.style,
                                control: false,
                            };
                            assert(out.deep_view() =~= before.push(cut));
                            assert(before.push(cut) =~= before + seq![cut]);
                        }
                        open = false;
                    },
                }
            }
            proof {
                if open {
                    assert(out.deep_view() + Seq::<SegmentModel>::empty() =~= out.deep_view());
                }
            }
            out
        },
    }
}

/// Lines under construction: the lines that are finished, and the segments
/// of the line that is still open.
pub struct Lines {
    pub done: Grid,
    pub open: Line,
}

/// Breaks `text[from..]` at its line breaks. `start` is where the piece that
/// is being read began. A piece that is not empty joins the open line; a
/// line break finishes the open line.
pub open spec fn fed_text(
    lines: Lines,
    text: Seq<char>,
    style: Option<StyleModel>,
    from: int,
    start: int,
) -> Lines
    decreases text.len() - from,
{
    if from < 0 || from >= text.len() {
        if start < text.len() {
            Lines {
                done: lines.done,
                open: lines.open.push(
                    SegmentModel {
                        text: text.subrange(start, text.len() as int),
                        style,
                        control: false,
                    },
                ),
            }
        } else {
            lines
        }
    } else if text[from] == '\n' {
        let open = if start < from {
            lines.open.push(
                SegmentModel { text: text.subrange(start, from), style, control: false },
            )
        } else {
            lines.open
        };
        fed_text(
            Lines { done: lines.done.push(open), open: Seq::<SegmentModel>::empty() },
            text,
            style,
            from + 1,
            from + 1,
        )
    } else {
        fed_text(lines, text, style, from + 1, start)
    }
}

/// One more segment: a control segment and a segment without a line break
/// join the open line as they are; any other is broken at its line breaks.
pub open spec fn fed_segment(lines: Lines, s: SegmentModel) -> Lines {
    if s.control || !s.text.contains('\n') {
        Lines { done: lines.done, open: lines.open.push(s) }
    } else {
        fed_text(lines, s.text, s.style, 0, 0)
    }
}

/// The first `n` segments of a stream, fed in order.
pub open spec fn fed(segments: Line, n: int) -> Lines
    decreases n,
{
    if n <= 0 {
        Lines { done: Seq::<Seq<SegmentModel>>::empty(), open: Seq::<SegmentModel>::empty() }
    } else {
        fed_segment(fed(segments, n - 1), segments[n - 1])
    }
}

/// A stream of segments split into lines at its line breaks. The text after
/// the last line break makes a line of its own if there is any.
pub open spec fn split(segments: Line) -> Grid {
    let lines = fed(segments, segments.len() as int);
    if lines.open.len() > 0 {
        lines.done.push(lines.open)
    } else {
        lines.done
    }
}

/// Whether `chars` holds a line break.
fn has_line_break(chars: &Vec<char>) -> (found: bool)
    ensures
        found == chars@.contains('\n'),
{
    let mut i: usize = 0;
    while i < chars.len()
        invariant
            i <= chars.len(),
            forall|k: int| 0 <= k < i ==> chars@[k] != '\n',
        decreases chars.len() - i,
    {
        if chars[i] == '\n' {
            return true;
        }
        i = i + 1;
    }
    false
}

/// Splits a stream of segments into lines at its line breaks.
pub fn split_lines(segments: Vec<Segment>) -> (out: Vec<Vec<Segment>>)
    ensures
        out.deep_view() == split(segments.deep_view()),
{
    let ghost model = segments.deep_view();
    let mut done: Vec<Vec<Segment>> = Vec::new();
    let mut open: Vec<Segment> = Vec::new();
    let mut i: usize = 0;
    while i < segments.len()
        invariant
            i <= segments.len(),
            model == segments.deep_view(),
            done.deep_view() == fed(model, i as int).done,
            open.deep_view() == fed(model, i as int).open,
        decreases segments.len() - i,
    {
        let seg = &segments[i];
        let ghost before = fed(model, i as int);
        proof {
            assert(model[i as int] == seg@);
        }
        let chars = chars_of(seg.text.as_str());
        if seg.control || !has_line_break(&chars) {
            open.push(seg.clone());
            proof {
                assert(open.deep_view() =~= before.open.push(seg@));
            }
        } else {
            let ghost text = seg@.text;
            let ghost style = seg@.style;
            let mut from: usize = 0;
            let mut start: usize = 0;
            while from < chars.len()
                invariant
                    start <= from <= chars.len(),
                    chars@ == text,
                    style == style_of(seg.style),
                    fed_text(
                        Lines { done: done.deep_view(), open: open.deep_view() },
                        text,
                        style,
                        from as int,
                        start as int,
                    ) == fed_text(before, text, style, 0, 0),
                decreases chars.len() - from,
            {
                if chars[from] == '\n' {
                    let ghost was_open = open.deep_view();
                    let ghost was_done = done.deep_view();
                    if start < from {
                        open.push(
                            Segment {
                                text: string_of(&chars, start, from),
                                style: clone_style(&seg.style),
                                control: false,
                            },
                        );
                        proof {
                            assert(open.deep_view() =~= was_open.push(
                                SegmentModel {
                                    text: text.subrange(start as int, from as int),
                                    style,
                                    control: false,
                                },
                            ));
                        }
                    }
                    let ghost line = open.deep_view();
                    done.push(open);
                    open = Vec::new();
                    proof {
                        assert(done.deep_view() =~= was_done.push(line));
                        assert(open.deep_view() =~= Seq::<SegmentModel>::empty());
                    }
                    start = from + 1;
                }
                from = from + 1;
            }
            if start < chars.len() {
                let ghost was_open = open.deep_view();
                open.push(
                    Segment {
                        text: string_of(&chars, start, chars.len()),
                        style: clone_style(&seg.style),
                        control: false,
                    },
                );
                proof {
                    assert(open.deep_view() =~= was_open.push(
                        SegmentModel {
                            text: text.subrange(start as int, text.len() as int),
                            style,
                            control: false,
                        },
                    ));
                }
            }
        }
        i = i + 1;
    }
    if open.len() > 0 {
        let ghost was_done = done.deep_view();
        let ghost line = open.deep_view();
        done.push(open);
        proof {
            assert(done.deep_view() =~= was_done.push(line));
        }
    }
    done
}

} // verus!

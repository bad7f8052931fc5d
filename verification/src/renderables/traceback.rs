//! Traceback: the frames of a failure with source lines around each, and the
//! failure itself.
//!
//! A frame with a file name is shown with the lines of the file around the
//! line of the frame, if the text of the file is given; any other frame is
//! shown in one line.
use crate::segment::{Grid, Segment, SegmentModel};
use crate::strings::{
    chars_of, decimal, lemma_decimal_short, lines_of, push_decimal, repeat_char, repeated,
    split_text_lines, texts_of,
};
use crate::style::StyleModel;
use crate::text::{SpanModel, Text, TextModel};
use vstd::prelude::*;

verus! {

/// A single traceback frame.
#[derive(Debug, PartialEq, Eq)]
pub struct TracebackFrame {
    pub filename: Option<String>,
    pub name: String,
    pub line: usize,
}

/// A frame as a plain value.
pub struct FrameModel {
    /// The file that holds the function, if it is known.
    pub filename: Option<Seq<char>>,
    /// The name of the function.
    pub name: Seq<char>,
    /// The line of the frame, counted from one.
    pub line: usize,
}

impl View for TracebackFrame {
    type V = FrameModel;

    open spec fn view(&self) -> FrameModel {
        FrameModel {
            filename: match self.filename {
                Some(f) => Some(f@),
                None => None,
            },
            name: self.name@,
            line: self.line,
        }
    }
}

impl DeepView for TracebackFrame {
    type V = FrameModel;

    open spec fn deep_view(&self) -> FrameModel {
        self.view()
    }
}

impl Clone for TracebackFrame {
    fn clone(&self) -> (out: TracebackFrame)
        ensures
            out == *self,
    {
        TracebackFrame {
            filename: crate::style::clone_text(&self.filename),
            name: self.name.clone(),
            line: self.line,
        }
    }
}

impl TracebackFrame {
    /// A frame of the function `name` at `line`, without a file name.
    pub fn new(name: &str, line: usize) -> (out: TracebackFrame)
        ensures
            out@ == (FrameModel { filename: None, name: name@, line }),
    {
        TracebackFrame { filename: None, name: String::from_str(name), line }
    }

    /// Set the file that holds the function.
    pub fn filename(self, filename: &str) -> (out: TracebackFrame)
        ensures
            out@ == (FrameModel { filename: Some(filename@), ..self@ }),
    {
        TracebackFrame {
            filename: Some(String::from_str(filename)),
            name: self.name,
            line: self.line,
        }
    }
}

/// Whether a character is white space as Unicode defines it.
pub open spec fn is_whitespace(c: char) -> bool {
    let code = c as u32;
    (0x9 <= code && code <= 0xd) || code == 0x20 || code == 0x85 || code == 0xa0 || code
        == 0x1680 || (0x2000 <= code && code <= 0x200a) || code == 0x2028 || code == 0x2029
        || code == 0x202f || code == 0x205f || code == 0x3000
}

/// Where the white space at the beginning of `s`, read from position `i`
/// on, ends.
pub open spec fn leading_space_end(s: Seq<char>, i: int) -> int
    decreases s.len() - i,
{
    if i < 0 || i >= s.len() || !is_whitespace(s[i]) {
        i
    } else {
        leading_space_end(s, i + 1)
    }
}

/// A number in decimal, with spaces behind it up to `width` characters.
pub open spec fn padded_number(n: nat, width: nat) -> Seq<char> {
    let digits = decimal(n);
    if digits.len() >= width {
        digits
    } else {
        digits + repeated(' ', (width - digits.len()) as nat)
    }
}

/// One line of source as it is shown: a mark in front of the line of the
/// frame, the number of the line, and the code without the white space at
/// its beginning.
pub open spec fn source_line(number: nat, marked: bool, width: nat, code: Seq<char>) -> Seq<char> {
    (if marked {
        seq!['\u{2771}', ' ']
    } else {
        seq![' ', ' ']
    }) + padded_number(number, width) + code.skip(leading_space_end(code, 0))
}

/// The first shown line of a frame at `line` with `extra` lines on either
/// side: never before the first line.
pub open spec fn window_start(line: usize, extra: usize) -> nat {
    if line - extra >= 1 {
        (line - extra) as nat
    } else {
        1
    }
}

/// The last shown line of a frame at `line` with `extra` lines on either
/// side, in a file of `count` lines: never behind the last line.
pub open spec fn window_end(line: usize, extra: usize, count: nat) -> nat {
    if line + extra <= count {
        (line + extra) as nat
    } else {
        count
    }
}

/// The source lines shown for a frame at `line`: none if the file has no
/// such line, else the lines from `extra` before to `extra` behind it, each
/// with its number in a column five wider than the largest number.
pub open spec fn source_window(lines: Seq<Seq<char>>, line: usize, extra: usize) -> Seq<
    Seq<char>,
> {
    if line == 0 || line > lines.len() {
        Seq::<Seq<char>>::empty()
    } else {
        let start = window_start(line, extra);
        let end = window_end(line, extra, lines.len());
        let width = decimal(end).len() + 5;
        Seq::new(
            (end - start + 1) as nat,
            |k: int| source_line((start + k) as nat, start + k == line, width, lines[start + k - 1]),
        )
    }
}

/// The lines shown for a frame. With a file name and the text of the file:
/// the place of the frame, an empty line, and the source lines around it.
/// Else the frame in one line.
pub open spec fn frame_lines(frame: FrameModel, source: Option<Seq<char>>, extra: usize) -> Seq<
    Seq<char>,
> {
    match (frame.filename, source) {
        (Some(file), Some(text)) => seq![
            file + seq![':'] + decimal(frame.line as nat) + " in "@ + frame.name,
            Seq::<char>::empty(),
        ] + source_window(lines_of(text), frame.line, extra),
        _ => seq!["in "@ + frame.name + seq![':'] + decimal(frame.line as nat)],
    }
}

/// Appends one line of source as it is shown.
fn push_source_line(out: &mut String, number: usize, marked: bool, width: usize, code: &Vec<char>)
    ensures
        final(out)@ == old(out)@ + source_line(number as nat, marked, width as nat, code@),
{
    out.push(
        if marked {
            '\u{2771}'
        } else {
            ' '
        },
    );
    out.push(' ');
    let ghost head = out@;
    let mut digits = String::new();
    push_decimal(&mut digits, number as u128);
    proof {
        assert(Seq::<char>::empty() + decimal(number as nat) =~= decimal(number as nat));
    }
    let count = digits.as_str().unicode_len();
    out.append(digits.as_str());
    if count < width {
        let pad = repeat_char(' ', width - count);
        out.append(pad.as_str());
    }
    let ghost numbered = out@;
    let mut i: usize = 0;
    while i < code.len() && is_space(code[i])
        invariant
            i <= code.len(),
            leading_space_end(code@, i as int) == leading_space_end(code@, 0),
        decreases code.len() - i,
    {
        i = i + 1;
    }
    let mut k = i;
    while k < code.len()
        invariant
            i <= k <= code.len(),
            out@ == numbered + code@.subrange(i as int, k as int),
        decreases code.len() - k,
    {
        out.push(code[k]);
        proof {
            assert(code@.subrange(i as int, k + 1) =~= code@.subrange(i as int, k as int).push(
                code@[k as int],
            ));
        }
        k = k + 1;
    }
    proof {
        assert(code@.subrange(i as int, code.len() as int) =~= code@.skip(i as int));
        assert(out@ =~= old(out)@ + source_line(number as nat, marked, width as nat, code@));
    }
}

/// Whether a character is white space as Unicode defines it.
fn is_space(c: char) -> (yes: bool)
    ensures
        yes == is_whitespace(c),
{
    let code = c as u32;
    (0x9 <= code && code <= 0xd) || code == 0x20 || code == 0x85 || code == 0xa0 || code
        == 0x1680 || (0x2000 <= code && code <= 0x200a) || code == 0x2028 || code == 0x2029
        || code == 0x202f || code == 0x205f || code == 0x3000
}

/// The texts of a list of strings.
pub open spec fn strings_of(lines: Seq<String>) -> Seq<Seq<char>> {
    Seq::new(lines.len(), |i: int| lines[i]@)
}

/// The source lines shown for a frame at `line`.
fn window(lines: &Vec<Vec<char>>, line: usize, extra: usize) -> (out: Vec<String>)
    ensures
        strings_of(out@) == source_window(texts_of(lines@), line, extra),
{
    let mut out: Vec<String> = Vec::new();
    let ghost want = source_window(texts_of(lines@), line, extra);
    if line == 0 || line > lines.len() {
        proof {
            assert(strings_of(out@) =~= want);
        }
        return out;
    }
    let start = if line > extra && line - extra >= 1 {
        line - extra
    } else {
        1
    };
    let end = if extra <= lines.len() - line {
        line + extra
    } else {
        lines.len()
    };
    let mut digits = String::new();
    push_decimal(&mut digits, end as u128);
    proof {
        assert(Seq::<char>::empty() + decimal(end as nat) =~= decimal(end as nat));
    }
    let count = digits.as_str().unicode_len();
    proof {
        lemma_decimal_short(end as nat);
    }
    let width = count + 5;
    let mut number = start;
    while number <= end
        invariant
            1 <= start <= number <= end + 1,
            start <= line <= end <= lines.len(),
            start == window_start(line, extra),
            end == window_end(line, extra, lines.len() as nat),
            width == decimal(end as nat).len() + 5,
            want == source_window(texts_of(lines@), line, extra),
            out.len() == number - start,
            forall|k: int| 0 <= k < out.len() ==> (#[trigger] out[k])@ == want[k],
        decreases end + 1 - number,
    {
        let mut text = String::new();
        push_source_line(&mut text, number, number == line, width, &lines[number - 1]);
        proof {
            assert(texts_of(lines@)[number - 1] == lines[number - 1]@);
            assert(Seq::<char>::empty() + source_line(
                number as nat,
                number == line,
                width as nat,
                lines[number - 1]@,
            ) =~= want[number - start]);
        }
        out.push(text);
        if number == end {
            proof {
                assert(strings_of(out@) =~= want);
            }
            return out;
        }
        number = number + 1;
    }
    proof {
        assert(strings_of(out@) =~= want);
    }
    out
}

/// The lines shown for one frame; `source` is the text of the frame's file
/// where it could be read.
pub fn render_frame(frame: &TracebackFrame, source: Option<&str>, extra_lines: usize) -> (out: Vec<
    String,
>)
    ensures
        strings_of(out@) == frame_lines(
            frame@,
            match source {
                Some(text) => Some(text@),
                None => None,
            },
            extra_lines,
        ),
{
    let mut out: Vec<String> = Vec::new();
    match (&frame.filename, source) {
        (Some(file), Some(text)) => {
            let mut place = file.clone();
            place.push(':');
            push_decimal(&mut place, frame.line as u128);
            place.append(" in ");
            place.append(frame.name.as_str());
            proof {
                assert(place@ =~= file@ + seq![':'] + decimal(frame.line as nat) + " in "@
                    + frame.name@);
            }
            out.push(place);
            out.push(String::new());
            proof {
                assert(strings_of(out@) =~= seq![
                    file@ + seq![':'] + decimal(frame.line as nat) + " in "@ + frame.name@,
                    Seq::<char>::empty(),
                ]);
            }
            let chars = chars_of(text);
            let lines = split_text_lines(&chars);
            let mut shown = window(&lines, frame.line, extra_lines);
            let ghost head = strings_of(out@);
            let ghost tail = strings_of(shown@);
            out.append(&mut shown);
            proof {
                assert(strings_of(out@) =~= head + tail);
            }
        },
        _ => {
            let mut place = String::from_str("in ");
            place.append(frame.name.as_str());
            place.push(':');
            push_decimal(&mut place, frame.line as u128);
            proof {
                assert(place@ =~= "in "@ + frame.name@ + seq![':'] + decimal(frame.line as nat));
            }
            out.push(place);
            proof {
                assert(strings_of(out@) =~= seq![
                    "in "@ + frame.name@ + seq![':'] + decimal(frame.line as nat),
                ]);
            }
        },
    }
    out
}

/// A rendered traceback: frames, the kind of the failure and its message.
#[derive(Debug, PartialEq, Eq)]
pub struct Traceback {
    frames: Vec<TracebackFrame>,
    exception_type: String,
    exception_message: String,
    title: Text,
    extra_lines: usize,
}

/// A traceback as a plain value.
pub struct TracebackModel {
    /// The frames, the most recent call last.
    pub frames: Seq<FrameModel>,
    /// The kind of the failure.
    pub exception_type: Seq<char>,
    /// The message of the failure.
    pub exception_message: Seq<char>,
    /// The title shown above the frames.
    pub title: TextModel,
    /// How many source lines are shown on either side of a frame's line.
    pub extra_lines: usize,
}

impl View for Traceback {
    type V = TracebackModel;

    closed spec fn view(&self) -> TracebackModel {
        TracebackModel {
            frames: self.frames.deep_view(),
            exception_type: self.exception_type@,
            exception_message: self.exception_message@,
            title: self.title@,
            extra_lines: self.extra_lines,
        }
    }
}

/// The texts of a list of optional file contents.
pub open spec fn sources_of(sources: Seq<Option<String>>) -> Seq<Option<Seq<char>>> {
    Seq::new(
        sources.len(),
        |i: int|
            match sources[i] {
                Some(text) => Some(text@),
                None => None,
            },
    )
}

impl TracebackModel {
    /// The lines of the first `k` frames; `sources` holds for each frame
    /// the text of its file where it could be read, and frames beyond its
    /// end count as not read.
    pub open spec fn lines(self, sources: Seq<Option<Seq<char>>>, k: int) -> Seq<Seq<char>>
        decreases k,
    {
        if k <= 0 {
            Seq::<Seq<char>>::empty()
        } else {
            self.lines(sources, k - 1) + frame_lines(
                self.frames[k - 1],
                if k - 1 < sources.len() {
                    sources[k - 1]
                } else {
                    None
                },
                self.extra_lines,
            )
        }
    }

    /// The content of the traceback: one line for each line of each frame,
    /// each a single segment without style.
    pub open spec fn content(self, sources: Seq<Option<Seq<char>>>) -> Grid {
        let lines = self.lines(sources, self.frames.len() as int);
        Seq::new(
            lines.len(),
            |i: int| seq![SegmentModel { text: lines[i], style: None, control: false }],
        )
    }

    /// The line that names the failure: its kind, a colon and its message.
    pub open spec fn summary(self) -> Seq<char> {
        self.exception_type + ": "@ + self.exception_message
    }
}

impl Traceback {
    /// Create a new traceback from frames and exception info.
    pub fn new(frames: Vec<TracebackFrame>, exception_type: &str, exception_message: &str) -> (out:
        Traceback)
        ensures
            out@ == (TracebackModel {
                frames: frames.deep_view(),
                exception_type: exception_type@,
                exception_message: exception_message@,
                title: TextModel {
                    plain: "Traceback (most recent call last)"@,
                    spans: Seq::<SpanModel>::empty(),
                    style: StyleModel::plain(),
                },
                extra_lines: 0,
            }),
    {
        Traceback {
            frames,
            exception_type: String::from_str(exception_type),
            exception_message: String::from_str(exception_message),
            title: Text::new("Traceback (most recent call last)"),
            extra_lines: 0,
        }
    }

    /// Override the title shown above the traceback.
    pub fn title(self, title: Text) -> (out: Traceback)
        ensures
            out@ == (TracebackModel { title: title@, ..self@ }),
    {
        Traceback {
            frames: self.frames,
            exception_type: self.exception_type,
            exception_message: self.exception_message,
            title,
            extra_lines: self.extra_lines,
        }
    }

    /// Set how many source lines are shown on either side of a frame's
    /// line.
    pub fn extra_lines(self, extra_lines: usize) -> (out: Traceback)
        ensures
            out@ == (TracebackModel { extra_lines, ..self@ }),
    {
        Traceback {
            frames: self.frames,
            exception_type: self.exception_type,
            exception_message: self.exception_message,
            title: self.title,
            extra_lines,
        }
    }

    /// Push a frame.
    pub fn push_frame(&mut self, frame: TracebackFrame)
        ensures
            final(self)@ == (TracebackModel {
                frames: old(self)@.frames.push(frame@),
                ..old(self)@
            }),
    {
        let ghost before = self.frames.deep_view();
        self.frames.push(frame);
        proof {
            assert(self.frames.deep_view() =~= before.push(frame@));
        }
    }

    /// The title shown above the traceback.
    pub fn heading(&self) -> (out: &Text)
        ensures
            out@ == self@.title,
    {
        &self.title
    }

    /// The files that the frames name, frame by frame.
    pub fn filenames(&self) -> (out: Vec<Option<String>>)
        ensures
            out.len() == self@.frames.len(),
            forall|i: int|
                0 <= i < out.len() ==> sources_of(out@)[i] == (#[trigger] self@.frames[i]).filename,
    {
        let mut out: Vec<Option<String>> = Vec::new();
        let mut i: usize = 0;
        while i < self.frames.len()
            invariant
                i <= self.frames.len(),
                out.len() == i,
                forall|k: int|
                    0 <= k < i ==> sources_of(out@)[k] == (#[trigger] self.frames.deep_view()[k]).filename,
            decreases self.frames.len() - i,
        {
            out.push(crate::style::clone_text(&self.frames[i].filename));
            i = i + 1;
        }
        out
    }

    /// The content of the traceback, line by line; `sources` holds for
    /// each frame the text of its file where it could be read.
    pub fn content(&self, sources: &Vec<Option<String>>) -> (out: Vec<Vec<Segment>>)
        ensures
            out.deep_view() == self@.content(sources_of(sources@)),
    {
        let ghost model = self@;
        let ghost given = sources_of(sources@);
        let mut out: Vec<Vec<Segment>> = Vec::new();
        let ghost mut lines: Seq<Seq<char>> = Seq::empty();
        let mut i: usize = 0;
        while i < self.frames.len()
            invariant
                i <= self.frames.len(),
                model == self@,
                given == sources_of(sources@),
                lines == model.lines(given, i as int),
                out.len() == lines.len(),
                forall|k: int|
                    0 <= k < out.len() ==> (#[trigger] out[k]).deep_view() == seq![
                        SegmentModel { text: lines[k], style: None, control: false },
                    ],
            decreases self.frames.len() - i,
        {
            let source = if i < sources.len() {
                match &sources[i] {
                    Some(text) => Some(text.as_str()),
                    None => None,
                }
            } else {
                None
            };
            let shown = render_frame(&self.frames[i], source, self.extra_lines);
            proof {
                assert(model.frames[i as int] == self.frames[i as int]@);
            }
            let ghost added = strings_of(shown@);
            let ghost before = lines;
            let mut k: usize = 0;
            while k < shown.len()
                invariant
                    k <= shown.len(),
                    added == strings_of(shown@),
                    lines == before + added.take(k as int),
                    out.len() == lines.len(),
                    forall|t: int|
                        0 <= t < out.len() ==> (#[trigger] out[t]).deep_view() == seq![
                            SegmentModel { text: lines[t], style: None, control: false },
                        ],
                decreases shown.len() - k,
            {
                let mut line: Vec<Segment> = Vec::new();
                line.push(Segment::new(shown[k].as_str(), None));
                proof {
                    assert(line.deep_view() =~= seq![
                        SegmentModel { text: shown[k as int]@, style: None, control: false },
                    ]);
                    assert(added[k as int] == shown[k as int]@);
                    assert(before + added.take(k + 1) =~= (before + added.take(k as int)).push(
                        added[k as int],
                    ));
                    lines = lines.push(added[k as int]);
                }
                out.push(line);
                k = k + 1;
            }
            proof {
                assert(added.take(shown.len() as int) =~= added);
            }
            i = i + 1;
        }
        proof {
            assert(out.deep_view() =~= model.content(given));
        }
        out
    }

    /// The line that names the failure: its kind, a colon and its message.
    pub fn summary(&self) -> (out: String)
        ensures
            out@ == self@.summary(),
    {
        let mut out = self.exception_type.clone();
        out.append(": ");
        out.append(self.exception_message.as_str());
        out
    }
}

} // verus!

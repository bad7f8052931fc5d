//! Progress indicators: the characters of a progress bar and spinners.
use crate::renderables::rule::copies;
use crate::segment::{style_of, Line, Segment, SegmentModel};
use crate::strings::{decimal, push_decimal, repeated};
use crate::style::{Style, StyleModel};
use vstd::prelude::*;

verus! {

/// Bar style variants for the progress bar.
#[derive(Debug, Clone, Copy, PartialEq, Eq, Structural)]
pub enum BarStyle {
    /// Standard ASCII bar using # and -
    Ascii,
    /// Unicode block characters
    Block,
    /// Line style
    Line,
    /// Dots style
    Dots,
    /// Shaded gradient style
    Gradient,
}

impl Default for BarStyle {
    fn default() -> (style: BarStyle)
        ensures
            style == BarStyle::Block,
    {
        BarStyle::Block
    }
}

impl BarStyle {
    /// Get the completed character for this style.
    pub fn completed_char(&self) -> (c: &'static str)
        ensures
            c@ == match *self {
                BarStyle::Ascii => "#"@,
                BarStyle::Block => "\u{2588}"@,
                BarStyle::Line => "\u{2501}"@,
                BarStyle::Dots => "\u{25CF}"@,
                BarStyle::Gradient => "\u{2588}"@,
            },
    {
        match self {
            BarStyle::Ascii => "#",
            BarStyle::Block => "\u{2588}",
            BarStyle::Line => "\u{2501}",
            BarStyle::Dots => "\u{25CF}",
            BarStyle::Gradient => "\u{2588}",
        }
    }

    /// Get the remaining character for this style.
    pub fn remaining_char(&self) -> (c: &'static str)
        ensures
            c@ == match *self {
                BarStyle::Ascii => "-"@,
                BarStyle::Block => "\u{2591}"@,
                BarStyle::Line => "\u{2501}"@,
                BarStyle::Dots => "\u{25CB}"@,
                BarStyle::Gradient => "\u{2591}"@,
            },
    {
        match self {
            BarStyle::Ascii => "-",
            BarStyle::Block => "\u{2591}",
            BarStyle::Line => "\u{2501}",
            BarStyle::Dots => "\u{25CB}",
            BarStyle::Gradient => "\u{2591}",
        }
    }

    /// Get the pulse character for this style (edge of completion).
    pub fn pulse_char(&self) -> (c: &'static str)
        ensures
            c@ == match *self {
                BarStyle::Ascii => ">"@,
                BarStyle::Block => "\u{2593}"@,
                BarStyle::Line => "\u{257A}"@,
                BarStyle::Dots => "\u{25CF}"@,
                BarStyle::Gradient => "\u{2593}"@,
            },
    {
        match self {
            BarStyle::Ascii => ">",
            BarStyle::Block => "\u{2593}",
            BarStyle::Line => "\u{257A}",
            BarStyle::Dots => "\u{25CF}",
            BarStyle::Gradient => "\u{2593}",
        }
    }
}

/// Spinner animation frames.
#[derive(Debug)]
pub struct Spinner {
    /// Animation frames.
    frames: Vec<&'static str>,
    /// Current frame index.
    frame_index: usize,
    /// Style for the spinner.
    style: Style,
}

/// A spinner as a plain value.
pub struct SpinnerModel {
    /// The frames, in the order in which they are shown.
    pub frames: Seq<Seq<char>>,
    /// The position of the frame that is shown.
    pub frame_index: usize,
    /// The style in which the frame is drawn.
    pub style: StyleModel,
}

/// The texts of a list of frames.
pub open spec fn frame_texts(frames: Seq<&'static str>) -> Seq<Seq<char>> {
    Seq::new(frames.len(), |i: int| frames[i]@)
}

impl SpinnerModel {
    /// A spinner that stands at its first frame, in a style that decides
    /// nothing.
    pub open spec fn fresh(frames: Seq<Seq<char>>) -> SpinnerModel {
        SpinnerModel { frames, frame_index: 0, style: StyleModel::plain() }
    }

    /// The frame that is shown: a space for a spinner without frames.
    pub open spec fn current(self) -> Seq<char> {
        if self.frames.len() == 0 {
            seq![' ']
        } else {
            self.frames[self.frame_index as int]
        }
    }
}

impl View for Spinner {
    type V = SpinnerModel;

    closed spec fn view(&self) -> SpinnerModel {
        SpinnerModel {
            frames: frame_texts(self.frames@),
            frame_index: self.frame_index,
            style: self.style@,
        }
    }
}

impl Default for Spinner {
    fn default() -> (out: Spinner)
        ensures
            out@ == Spinner::dots_model(),
    {
        Spinner::dots()
    }
}

impl Spinner {
    #[verifier::type_invariant]
    spec fn in_range(&self) -> bool {
        self.frames.len() == 0 || self.frame_index < self.frames.len()
    }

    /// The dots spinner as a plain value.
    pub open spec fn dots_model() -> SpinnerModel {
        SpinnerModel::fresh(
            seq![
                "\u{280b}"@,
                "\u{2819}"@,
                "\u{2839}"@,
                "\u{2838}"@,
                "\u{283c}"@,
                "\u{2834}"@,
                "\u{2826}"@,
                "\u{2827}"@,
                "\u{2807}"@,
                "\u{280f}"@,
            ],
        )
    }

    /// Create a dots spinner.
    pub fn dots() -> (out: Spinner)
        ensures
            out@ == Spinner::dots_model(),
    {
        let frames = vec![
            "\u{280b}",
            "\u{2819}",
            "\u{2839}",
            "\u{2838}",
            "\u{283c}",
            "\u{2834}",
            "\u{2826}",
            "\u{2827}",
            "\u{2807}",
            "\u{280f}",
        ];
        let out = Spinner { frames, frame_index: 0, style: Style::new() };
        proof {
            assert(out@.frames =~= Spinner::dots_model().frames);
        }
        out
    }

    /// Create a line spinner.
    pub fn line() -> (out: Spinner)
        ensures
            out@ == SpinnerModel::fresh(
                seq![
                    "\u{23ba}"@,
                    "\u{23bb}"@,
                    "\u{23bc}"@,
                    "\u{23bd}"@,
                    "\u{23bc}"@,
                    "\u{23bb}"@,
                ],
            ),
    {
        let frames = vec!["\u{23ba}", "\u{23bb}", "\u{23bc}", "\u{23bd}", "\u{23bc}", "\u{23bb}"];
        let out = Spinner { frames, frame_index: 0, style: Style::new() };
        proof {
            assert(out@.frames =~= seq![
                "\u{23ba}"@,
                "\u{23bb}"@,
                "\u{23bc}"@,
                "\u{23bd}"@,
                "\u{23bc}"@,
                "\u{23bb}"@,
            ]);
        }
        out
    }

    /// Create a simple spinner (|/-\).
    pub fn simple() -> (out: Spinner)
        ensures
            out@ == SpinnerModel::fresh(seq!["|"@, "/"@, "-"@, "\\"@]),
    {
        let frames = vec!["|", "/", "-", "\\"];
        let out = Spinner { frames, frame_index: 0, style: Style::new() };
        proof {
            assert(out@.frames =~= seq!["|"@, "/"@, "-"@, "\\"@]);
        }
        out
    }

    /// Create a bouncing ball spinner.
    pub fn bounce() -> (out: Spinner)
        ensures
            out@ == SpinnerModel::fresh(
                seq!["\u{2801}"@, "\u{2802}"@, "\u{2804}"@, "\u{2802}"@],
            ),
    {
        let frames = vec!["\u{2801}", "\u{2802}", "\u{2804}", "\u{2802}"];
        let out = Spinner { frames, frame_index: 0, style: Style::new() };
        proof {
            assert(out@.frames =~= seq!["\u{2801}"@, "\u{2802}"@, "\u{2804}"@, "\u{2802}"@]);
        }
        out
    }

    /// Create a growing dots spinner.
    pub fn growing() -> (out: Spinner)
        ensures
            out@ == SpinnerModel::fresh(
                seq![
                    "\u{28fe}"@,
                    "\u{28fd}"@,
                    "\u{28fb}"@,
                    "\u{28bf}"@,
                    "\u{287f}"@,
                    "\u{28df}"@,
                    "\u{28ef}"@,
                    "\u{28f7}"@,
                ],
            ),
    {
        let frames = vec![
            "\u{28fe}",
            "\u{28fd}",
            "\u{28fb}",
            "\u{28bf}",
            "\u{287f}",
            "\u{28df}",
            "\u{28ef}",
            "\u{28f7}",
        ];
        let out = Spinner { frames, frame_index: 0, style: Style::new() };
        proof {
            assert(out@.frames =~= seq![
                "\u{28fe}"@,
                "\u{28fd}"@,
                "\u{28fb}"@,
                "\u{28bf}"@,
                "\u{287f}"@,
                "\u{28df}"@,
                "\u{28ef}"@,
                "\u{28f7}"@,
            ]);
        }
        out
    }

    /// Create a moon phase spinner.
    pub fn moon() -> (out: Spinner)
        ensures
            out@ == SpinnerModel::fresh(
                seq![
                    "\u{1f311}"@,
                    "\u{1f312}"@,
                    "\u{1f313}"@,
                    "\u{1f314}"@,
                    "\u{1f315}"@,
                    "\u{1f316}"@,
                    "\u{1f317}"@,
                    "\u{1f318}"@,
                ],
            ),
    {
        let frames = vec![
            "\u{1f311}",
            "\u{1f312}",
            "\u{1f313}",
            "\u{1f314}",
            "\u{1f315}",
            "\u{1f316}",
            "\u{1f317}",
            "\u{1f318}",
        ];
        let out = Spinner { frames, frame_index: 0, style: Style::new() };
        proof {
            assert(out@.frames =~= seq![
                "\u{1f311}"@,
                "\u{1f312}"@,
                "\u{1f313}"@,
                "\u{1f314}"@,
                "\u{1f315}"@,
                "\u{1f316}"@,
                "\u{1f317}"@,
                "\u{1f318}"@,
            ]);
        }
        out
    }

    /// Create a clock spinner.
    pub fn clock() -> (out: Spinner)
        ensures
            out@ == SpinnerModel::fresh(
                seq![
                    "\u{1f550}"@,
                    "\u{1f551}"@,
                    "\u{1f552}"@,
                    "\u{1f553}"@,
                    "\u{1f554}"@,
                    "\u{1f555}"@,
                    "\u{1f556}"@,
                    "\u{1f557}"@,
                    "\u{1f558}"@,
                    "\u{1f559}"@,
                    "\u{1f55a}"@,
                    "\u{1f55b}"@,
                ],
            ),
    {
        let frames = vec![
            "\u{1f550}",
            "\u{1f551}",
            "\u{1f552}",
            "\u{1f553}",
            "\u{1f554}",
            "\u{1f555}",
            "\u{1f556}",
            "\u{1f557}",
            "\u{1f558}",
            "\u{1f559}",
            "\u{1f55a}",
            "\u{1f55b}",
        ];
        let out = Spinner { frames, frame_index: 0, style: Style::new() };
        proof {
            assert(out@.frames =~= seq![
                "\u{1f550}"@,
                "\u{1f551}"@,
                "\u{1f552}"@,
                "\u{1f553}"@,
                "\u{1f554}"@,
                "\u{1f555}"@,
                "\u{1f556}"@,
                "\u{1f557}"@,
                "\u{1f558}"@,
                "\u{1f559}"@,
                "\u{1f55a}"@,
                "\u{1f55b}"@,
            ]);
        }
        out
    }

    /// Create a spinner from custom frames.
    pub fn custom(frames: Vec<&'static str>) -> (out: Spinner)
        ensures
            out@ == SpinnerModel::fresh(frame_texts(frames@)),
    {
        Spinner { frames, frame_index: 0, style: Style::new() }
    }

    /// Set the spinner style.
    pub fn style(self, style: Style) -> (out: Spinner)
        ensures
            out@ == (SpinnerModel { style: style@, ..self@ }),
    {
        proof {
            use_type_invariant(&self);
        }
        Spinner { frames: self.frames, frame_index: self.frame_index, style }
    }

    /// Advance to the next frame and return the current frame. Behind the
    /// last frame comes the first.
    pub fn next_frame(&mut self) -> (frame: &'static str)
        ensures
            frame@ == old(self)@.current(),
            final(self)@ == (SpinnerModel {
                frame_index: if old(self)@.frames.len() == 0 {
                    old(self)@.frame_index
                } else if old(self)@.frame_index + 1 == old(self)@.frames.len() {
                    0
                } else {
                    (old(self)@.frame_index + 1) as usize
                },
                ..old(self)@
            }),
    {
        proof {
            use_type_invariant(&*self);
        }
        if self.frames.len() == 0 {
            proof {
                reveal_strlit(" ");
                assert(" "@ =~= seq![' ']);
            }
            return " ";
        }
        let frame = self.frames[self.frame_index];
        self.frame_index = if self.frame_index + 1 == self.frames.len() {
            0
        } else {
            self.frame_index + 1
        };
        frame
    }

    /// Get the current frame without advancing.
    pub fn current_frame(&self) -> (frame: &'static str)
        ensures
            frame@ == self@.current(),
    {
        proof {
            use_type_invariant(self);
        }
        if self.frames.len() == 0 {
            proof {
                reveal_strlit(" ");
                assert(" "@ =~= seq![' ']);
            }
            return " ";
        }
        self.frames[self.frame_index]
    }

    /// Render the current spinner frame as a segment.
    pub fn render(&self) -> (out: Segment)
        ensures
            out@ == (SegmentModel {
                text: self@.current(),
                style: Some(self@.style),
                control: false,
            }),
    {
        Segment::new(self.current_frame(), Some(self.style.clone()))
    }
}

/// A number in decimal with at least two digits: with a zero in front of a
/// single digit.
pub open spec fn two_digits(n: nat) -> Seq<char> {
    if n < 10 {
        seq!['0'] + decimal(n)
    } else {
        decimal(n)
    }
}

/// A duration of `seconds` as a human-readable text: `30s` below a minute,
/// `1:30` below an hour, `1:01:01` from an hour on.
pub open spec fn duration_text(seconds: u64) -> Seq<char> {
    if seconds < 60 {
        decimal(seconds as nat) + seq!['s']
    } else if seconds < 3600 {
        decimal((seconds / 60) as nat) + seq![':'] + two_digits((seconds % 60) as nat)
    } else {
        decimal((seconds / 3600) as nat) + seq![':'] + two_digits(
            ((seconds % 3600) / 60) as nat,
        ) + seq![':'] + two_digits((seconds % 60) as nat)
    }
}

fn push_two_digits(out: &mut String, n: u64)
    ensures
        final(out)@ == old(out)@ + two_digits(n as nat),
{
    if n < 10 {
        out.push('0');
    }
    push_decimal(out, n as u128);
    proof {
        assert(out@ =~= old(out)@ + two_digits(n as nat));
    }
}

/// Format a duration of whole seconds as a human-readable string.
pub fn format_duration(seconds: u64) -> (out: String)
    ensures
        out@ == duration_text(seconds),
{
    let mut out = String::new();
    if seconds < 60 {
        push_decimal(&mut out, seconds as u128);
        out.push('s');
    } else if seconds < 3600 {
        push_decimal(&mut out, (seconds / 60) as u128);
        out.push(':');
        push_two_digits(&mut out, seconds % 60);
    } else {
        push_decimal(&mut out, (seconds / 3600) as u128);
        out.push(':');
        push_two_digits(&mut out, (seconds % 3600) / 60);
        out.push(':');
        push_two_digits(&mut out, seconds % 60);
    }
    proof {
        assert(out@ =~= duration_text(seconds));
    }
    out
}

/// A percentage as it stands behind a bar: the number set to the right of
/// three characters, and a percent sign.
pub open spec fn percent_text(percent: u32) -> Seq<char> {
    let digits = decimal(percent as nat);
    (if digits.len() < 3 {
        repeated(' ', (3 - digits.len()) as nat)
    } else {
        Seq::<char>::empty()
    }) + digits + seq!['%']
}

/// Format a percentage as it stands behind a bar.
pub fn format_percent(percent: u32) -> (out: String)
    ensures
        out@ == percent_text(percent),
{
    let mut digits = String::new();
    push_decimal(&mut digits, percent as u128);
    proof {
        assert(Seq::<char>::empty() + decimal(percent as nat) =~= decimal(percent as nat));
    }
    let count = digits.as_str().unicode_len();
    let mut out = if count < 3 {
        crate::strings::repeat_char(' ', 3 - count)
    } else {
        String::new()
    };
    out.append(digits.as_str());
    out.push('%');
    proof {
        assert(out@ =~= percent_text(percent));
    }
    out
}

/// The parts behind a bar joined by spaces, with a space in front; nothing
/// for no parts.
pub open spec fn suffix_text(parts: Seq<Seq<char>>, k: int) -> Seq<char>
    decreases k,
{
    if k <= 0 {
        Seq::<char>::empty()
    } else {
        suffix_text(parts, k - 1) + seq![' '] + parts[k - 1]
    }
}

/// The texts of a list of strings.
pub open spec fn part_texts(parts: Seq<String>) -> Seq<Seq<char>> {
    Seq::new(parts.len(), |i: int| parts[i]@)
}

/// Joins the parts that stand behind a bar.
pub fn join_suffix(parts: &Vec<String>) -> (out: String)
    ensures
        out@ == suffix_text(part_texts(parts@), parts.len() as int),
{
    let mut out = String::new();
    let mut k: usize = 0;
    while k < parts.len()
        invariant
            k <= parts.len(),
            out@ == suffix_text(part_texts(parts@), k as int),
        decreases parts.len() - k,
    {
        out.push(' ');
        out.append(parts[k].as_str());
        proof {
            assert(part_texts(parts@)[k as int] == parts[k as int]@);
            assert(out@ =~= suffix_text(part_texts(parts@), k as int) + seq![' '] + parts[k as int]@);
        }
        k = k + 1;
    }
    out
}

/// The cells left for the bar itself: what is available less the
/// description, the suffix and the brackets, and no more than the bar's own
/// width.
pub open spec fn bar_cells(
    available: usize,
    used: usize,
    suffix: usize,
    brackets: bool,
    width: usize,
) -> usize {
    let after_used = if available >= used {
        available - used
    } else {
        0
    };
    let after_suffix = if after_used >= suffix {
        after_used - suffix
    } else {
        0
    };
    let after_brackets = if !brackets {
        after_suffix
    } else if after_suffix >= 2 {
        after_suffix - 2
    } else {
        0
    };
    if after_brackets <= width {
        after_brackets as usize
    } else {
        width
    }
}

/// The cells left for the bar itself.
pub fn bar_width(available: usize, used: usize, suffix: usize, brackets: bool, width: usize) -> (out:
    usize)
    ensures
        out == bar_cells(available, used, suffix, brackets, width),
{
    let after_used = if available >= used {
        available - used
    } else {
        0
    };
    let after_suffix = if after_used >= suffix {
        after_used - suffix
    } else {
        0
    };
    let after_brackets = if !brackets {
        after_suffix
    } else if after_suffix >= 2 {
        after_suffix - 2
    } else {
        0
    };
    if after_brackets <= width {
        after_brackets
    } else {
        width
    }
}

/// How a bar is drawn, apart from how far it has come.
pub struct BarLook {
    /// The characters of the bar.
    pub bar_style: BarStyle,
    /// Style of the completed part.
    pub completed_style: Style,
    /// Style of the remaining part.
    pub remaining_style: Style,
    /// Style of the pulse character.
    pub pulse_style: Style,
    /// Whether brackets stand around the bar.
    pub show_brackets: bool,
}

/// The character that a bar style draws its completed part with.
pub open spec fn completed_text(style: BarStyle) -> Seq<char> {
    match style {
        BarStyle::Ascii => "#"@,
        BarStyle::Block => "\u{2588}"@,
        BarStyle::Line => "\u{2501}"@,
        BarStyle::Dots => "\u{25CF}"@,
        BarStyle::Gradient => "\u{2588}"@,
    }
}

/// The character that a bar style draws its remaining part with.
pub open spec fn remaining_text(style: BarStyle) -> Seq<char> {
    match style {
        BarStyle::Ascii => "-"@,
        BarStyle::Block => "\u{2591}"@,
        BarStyle::Line => "\u{2501}"@,
        BarStyle::Dots => "\u{25CB}"@,
        BarStyle::Gradient => "\u{2591}"@,
    }
}

/// The character that a bar style draws at the edge of completion.
pub open spec fn pulse_text(style: BarStyle) -> Seq<char> {
    match style {
        BarStyle::Ascii => ">"@,
        BarStyle::Block => "\u{2593}"@,
        BarStyle::Line => "\u{257A}"@,
        BarStyle::Dots => "\u{25CF}"@,
        BarStyle::Gradient => "\u{2593}"@,
    }
}

/// A segment of `text` in `style`.
pub open spec fn styled_piece(text: Seq<char>, style: Option<StyleModel>) -> SegmentModel {
    SegmentModel { text, style, control: false }
}

/// The segments of a bar of `width` cells of which `completed` are done:
/// an opening bracket, the completed part, the pulse character in place of
/// the first remaining cell where `pulse` is set, the remaining part, a
/// closing bracket, the suffix, and a line break. Parts that are empty are
/// left out.
pub open spec fn bar_line(
    style: BarStyle,
    completed_style: StyleModel,
    remaining_style: StyleModel,
    pulse_style: StyleModel,
    brackets: bool,
    width: usize,
    completed: usize,
    pulse: bool,
    suffix: Seq<char>,
) -> Line {
    let done = if completed <= width {
        completed
    } else {
        width
    };
    let remaining = (width - done) as nat;
    let show_pulse = pulse && remaining > 0;
    (if brackets {
        seq![styled_piece("["@, None)]
    } else {
        Seq::<SegmentModel>::empty()
    }) + (if done > 0 {
        seq![styled_piece(copies(completed_text(style), done as nat), Some(completed_style))]
    } else {
        Seq::<SegmentModel>::empty()
    }) + (if show_pulse {
        seq![styled_piece(pulse_text(style), Some(pulse_style))]
    } else {
        Seq::<SegmentModel>::empty()
    }) + (if show_pulse && remaining > 1 {
        seq![
            styled_piece(copies(remaining_text(style), (remaining - 1) as nat), Some(remaining_style)),
        ]
    } else if !show_pulse && remaining > 0 {
        seq![styled_piece(copies(remaining_text(style), remaining), Some(remaining_style))]
    } else {
        Seq::<SegmentModel>::empty()
    }) + (if brackets {
        seq![styled_piece("]"@, None)]
    } else {
        Seq::<SegmentModel>::empty()
    }) + (if suffix.len() > 0 {
        seq![styled_piece(suffix, None)]
    } else {
        Seq::<SegmentModel>::empty()
    }) + seq![styled_piece(seq!['\n'], None)]
}

/// `n` copies of a text.
fn repeat_text(text: &str, n: usize) -> (out: String)
    ensures
        out@ == copies(text@, n as nat),
{
    let mut out = String::new();
    let mut k: usize = 0;
    while k < n
        invariant
            k <= n,
            out@ == copies(text@, k as nat),
        decreases n - k,
    {
        out.append(text);
        k = k + 1;
    }
    out
}

/// Appends a segment of `text` in `style` to `out` if `wanted` is set.
fn push_part(out: &mut Vec<Segment>, wanted: bool, text: &str, style: Option<Style>)
    ensures
        final(out).deep_view() == old(out).deep_view() + if wanted {
            seq![styled_piece(text@, style_of(style))]
        } else {
            Seq::<SegmentModel>::empty()
        },
{
    if wanted {
        out.push(Segment::new(text, style));
        proof {
            assert(out.deep_view() =~= old(out).deep_view() + seq![
                styled_piece(text@, style_of(style)),
            ]);
        }
    } else {
        proof {
            assert(out.deep_view() =~= old(out).deep_view() + Seq::<SegmentModel>::empty());
        }
    }
}

/// Draws a bar of `width` cells of which `completed` are done, with the
/// pulse character at the edge where `pulse` is set, and `suffix` behind
/// it.
pub fn bar_segments(look: &BarLook, width: usize, completed: usize, pulse: bool, suffix: &str) -> (out:
    Vec<Segment>)
    ensures
        out.deep_view() == bar_line(
            look.bar_style,
            look.completed_style@,
            look.remaining_style@,
            look.pulse_style@,
            look.show_brackets,
            width,
            completed,
            pulse,
            suffix@,
        ),
{
    let done = if completed <= width {
        completed
    } else {
        width
    };
    let remaining = width - done;
    let show_pulse = pulse && remaining > 0;
    let rest = if show_pulse {
        remaining - 1
    } else {
        remaining
    };
    let done_text = repeat_text(look.bar_style.completed_char(), done);
    let rest_text = repeat_text(look.bar_style.remaining_char(), rest);
    let mut out: Vec<Segment> = Vec::new();
    proof {
        assert(out.deep_view() =~= Seq::<SegmentModel>::empty());
    }
    push_part(&mut out, look.show_brackets, "[", None);
    proof {
        assert(Seq::<SegmentModel>::empty() + seq![styled_piece("["@, None)] =~= seq![
            styled_piece("["@, None),
        ]);
        assert(Seq::<SegmentModel>::empty() + Seq::<SegmentModel>::empty() =~= Seq::<
            SegmentModel,
        >::empty());
    }
    push_part(&mut out, done > 0, done_text.as_str(), Some(look.completed_style.clone()));
    push_part(&mut out, show_pulse, look.bar_style.pulse_char(), Some(look.pulse_style.clone()));
    push_part(&mut out, rest > 0, rest_text.as_str(), Some(look.remaining_style.clone()));
    push_part(&mut out, look.show_brackets, "]", None);
    push_part(&mut out, suffix.unicode_len() > 0, suffix, None);
    let ghost before = out.deep_view();
    out.push(Segment::line());
    proof {
        assert(out.deep_view() =~= before + seq![styled_piece(seq!['\n'], None)]);
    }
    out
}

} // verus!

//! Text with styled spans.
use crate::cells::{cell_len, clip, text_width};
use crate::renderables::Renderable;
use crate::segment::{Line, Segment, SegmentModel};
use crate::strings::chars_of;
use crate::style::{Style, StyleModel};
use vstd::prelude::*;

verus! {

/// A style laid over the characters from `start` up to `end`.
#[derive(Debug, PartialEq, Eq)]
pub struct Span {
    pub start: usize,
    pub end: usize,
    pub style: Style,
}

/// A span as a plain value.
pub struct SpanModel {
    pub start: usize,
    pub end: usize,
    pub style: StyleModel,
}

impl View for Span {
    type V = SpanModel;

    open spec fn view(&self) -> SpanModel {
        SpanModel { start: self.start, end: self.end, style: self.style@ }
    }
}

impl DeepView for Span {
    type V = SpanModel;

    open spec fn deep_view(&self) -> SpanModel {
        self.view()
    }
}

impl Clone for Span {
    fn clone(&self) -> (out: Span)
        ensures
            out == *self,
    {
        Span { start: self.start, end: self.end, style: self.style.clone() }
    }
}

/// Characters with a base style and spans of further styles. Positions count
/// characters.
#[derive(Debug, PartialEq, Eq)]
pub struct Text {
    plain: String,
    spans: Vec<Span>,
    style: Style,
}

/// A text as a plain value.
pub struct TextModel {
    pub plain: Seq<char>,
    pub spans: Seq<SpanModel>,
    pub style: StyleModel,
}

impl View for Text {
    type V = TextModel;

    closed spec fn view(&self) -> TextModel {
        TextModel { plain: self.plain@, spans: self.spans.deep_view(), style: self.style@ }
    }
}

impl TextModel {
    /// The base style overlaid with those of the first `k` spans that cover
    /// position `i`, in the order of the spans.
    pub open spec fn style_upto(self, i: int, k: int) -> StyleModel
        decreases k,
    {
        if k <= 0 {
            self.style
        } else {
            let below = self.style_upto(i, k - 1);
            let span = self.spans[k - 1];
            if span.start <= i < span.end {
                below.combined(span.style)
            } else {
                below
            }
        }
    }

    /// The text with `style` laid over the characters from `start` up to
    /// `end`: the same text where the range is empty or starts behind the
    /// text; with a range that ends behind the text cut at its end.
    pub open spec fn stylized(self, start: usize, end: usize, style: StyleModel) -> TextModel {
        if start >= self.plain.len() || end <= start {
            self
        } else {
            TextModel {
                spans: self.spans.push(
                    SpanModel {
                        start,
                        end: if end <= self.plain.len() {
                            end
                        } else {
                            self.plain.len() as usize
                        },
                        style,
                    },
                ),
                ..self
            }
        }
    }

    /// The style in which the character at position `i` is drawn.
    pub open spec fn style_at(self, i: int) -> StyleModel {
        self.style_upto(i, self.spans.len() as int)
    }

    /// The first `k` characters as segments: one segment for each longest
    /// run of characters drawn in one style. A run in the null style has no
    /// style.
    pub open spec fn runs(self, k: int) -> Line
        decreases k,
    {
        if k <= 0 {
            Seq::<SegmentModel>::empty()
        } else {
            let before = self.runs(k - 1);
            let c = self.plain[k - 1];
            if k >= 2 && self.style_at(k - 1) == self.style_at(k - 2) {
                before.drop_last().push(
                    SegmentModel { text: before.last().text.push(c), ..before.last() },
                )
            } else {
                before.push(
                    SegmentModel {
                        text: seq![c],
                        style: piece_style(self.style_at(k - 1)),
                        control: false,
                    },
                )
            }
        }
    }

    /// The text as segments, with `end` behind it if `end` is not empty.
    pub open spec fn segments(self, end: Seq<char>) -> Line {
        let body = self.runs(self.plain.len() as int);
        if end.len() > 0 {
            body.push(SegmentModel { text: end, style: None, control: false })
        } else {
            body
        }
    }
}

/// The style of a segment drawn in `style`: none for the null style.
pub open spec fn piece_style(style: StyleModel) -> Option<StyleModel> {
    if style.null {
        None
    } else {
        Some(style)
    }
}

impl Text {
    /// A text of the characters of `plain`, without spans, in a style that
    /// decides nothing.
    pub fn new(plain: &str) -> (out: Text)
        ensures
            out@ == (TextModel {
                plain: plain@,
                spans: Seq::<SpanModel>::empty(),
                style: StyleModel::plain(),
            }),
    {
        let out = Text { plain: String::from_str(plain), spans: Vec::new(), style: Style::new() };
        proof {
            assert(out.spans.deep_view() =~= Seq::<SpanModel>::empty());
        }
        out
    }

    /// The characters of the text.
    pub fn plain(&self) -> (out: &str)
        ensures
            out@ == self@.plain,
    {
        self.plain.as_str()
    }

    /// The spans of the text.
    pub fn spans(&self) -> (out: &Vec<Span>)
        ensures
            out.deep_view() == self@.spans,
    {
        &self.spans
    }

    /// Sets the base style.
    pub fn set_style(&mut self, style: Style)
        ensures
            final(self)@ == (TextModel { style: style@, ..old(self)@ }),
    {
        self.style = style;
    }

    /// The number of characters.
    pub fn len(&self) -> (n: usize)
        ensures
            n == self@.plain.len(),
    {
        self.plain.as_str().unicode_len()
    }

    /// Cells taken by the text.
    pub fn cell_len(&self) -> (w: usize)
        ensures
            w == clip(text_width(self@.plain)),
    {
        cell_len(self.plain.as_str())
    }

    /// Appends `text` without a style of its own.
    pub fn append(&mut self, text: &str)
        ensures
            final(self)@ == (TextModel { plain: old(self)@.plain + text@, ..old(self)@ }),
    {
        self.plain.append(text);
    }

    /// Appends `text` in `style`. A position that does not fit the machine's
    /// integers ends the span at the largest one.
    pub fn append_styled(&mut self, text: &str, style: Style)
        ensures
            final(self)@ == (TextModel {
                plain: old(self)@.plain + text@,
                spans: old(self)@.spans.push(
                    SpanModel {
                        start: old(self)@.plain.len() as usize,
                        end: clip(old(self)@.plain.len() + text@.len()),
                        style: style@,
                    },
                ),
                ..old(self)@
            }),
    {
        let start = self.len();
        let added = text.unicode_len();
        let end = crate::cells::add_clipped(start, added);
        self.plain.append(text);
        let ghost before = self.spans.deep_view();
        let span = Span { start, end, style };
        self.spans.push(span);
        proof {
            assert(self.spans.deep_view() =~= before.push(span@));
        }
    }

    /// Lays `style` over the characters from `start` up to `end`. Nothing
    /// happens where the range is empty or starts behind the text; a range
    /// that ends behind the text is cut at its end.
    pub fn stylize(&mut self, start: usize, end: usize, style: Style)
        ensures
            final(self)@ == old(self)@.stylized(start, end, style@),
    {
        let length = self.len();
        if start >= length || end <= start {
            return ;
        }
        let end = if end <= length {
            end
        } else {
            length
        };
        let ghost before = self.spans.deep_view();
        let span = Span { start, end, style };
        self.spans.push(span);
        proof {
            assert(self.spans.deep_view() =~= before.push(span@));
        }
    }

    /// The style in which the character at position `i` is drawn.
    fn style_for(&self, i: usize) -> (out: Style)
        ensures
            out@ == self@.style_at(i as int),
    {
        let mut out = self.style.clone();
        let mut k: usize = 0;
        while k < self.spans.len()
            invariant
                k <= self.spans.len(),
                out@ == self@.style_upto(i as int, k as int),
            decreases self.spans.len() - k,
        {
            let span = &self.spans[k];
            proof {
                assert(self@.spans[k as int] == span@);
            }
            if span.start <= i && i < span.end {
                out = out.combine(&span.style);
            }
            k = k + 1;
        }
        out
    }

    /// The text as segments, one for each run of characters in one style,
    /// with `end` behind them if it is not empty.
    pub fn render(&self, end: &str) -> (out: Vec<Segment>)
        ensures
            out.deep_view() == self@.segments(end@),
    {
        let chars = chars_of(self.plain.as_str());
        let mut out: Vec<Segment> = Vec::new();
        let mut last = Style::null();
        let mut i: usize = 0;
        while i < chars.len()
            invariant
                i <= chars.len(),
                chars@ == self@.plain,
                out.deep_view() == self@.runs(i as int),
                i > 0 ==> last@ == self@.style_at(i - 1) && out.len() > 0,
            decreases chars.len() - i,
        {
            let style = self.style_for(i);
            let ghost before = out.deep_view();
            if i > 0 && style.same_as(&last) {
                let mut piece = out.pop().unwrap();
                let ghost was = piece@;
                let ghost head = out.deep_view();
                piece.text.push(chars[i]);
                out.push(piece);
                proof {
                    assert(head =~= before.drop_last());
                    assert(was == before.last());
                    assert(out.deep_view() =~= head.push(
                        SegmentModel { text: was.text.push(chars@[i as int]), ..was },
                    ));
                }
            } else {
                let mut text = String::new();
                text.push(chars[i]);
                let piece = Segment {
                    text,
                    style: if style.is_null() {
                        None
                    } else {
                        Some(style.clone())
                    },
                    control: false,
                };
                out.push(piece);
                proof {
                    assert(Seq::<char>::empty().push(chars@[i as int]) =~= seq![chars@[i as int]]);
                    assert(out.deep_view() =~= before.push(
                        SegmentModel {
                            text: seq![chars@[i as int]],
                            style: piece_style(style@),
                            control: false,
                        },
                    ));
                }
            }
            last = style;
            i = i + 1;
        }
        if end.unicode_len() > 0 {
            let ghost body = out.deep_view();
            out.push(Segment::plain(end));
            proof {
                assert(out.deep_view() =~= body.push(
                    SegmentModel { text: end@, style: None, control: false },
                ));
            }
        }
        out
    }
}

impl Clone for Text {
    fn clone(&self) -> (out: Text)
        ensures
            out@ == self@,
    {
        let mut spans: Vec<Span> = Vec::new();
        let mut k: usize = 0;
        while k < self.spans.len()
            invariant
                k <= self.spans.len(),
                spans.deep_view() == self.spans.deep_view().take(k as int),
            decreases self.spans.len() - k,
        {
            let ghost before = spans.deep_view();
            spans.push(self.spans[k].clone());
            proof {
                assert(spans.deep_view() =~= before.push(self.spans[k as int]@));
                assert(self.spans.deep_view().take(k + 1) =~= self.spans.deep_view().take(
                    k as int,
                ).push(self.spans[k as int]@));
            }
            k = k + 1;
        }
        proof {
            assert(self.spans.deep_view().take(self.spans.len() as int) =~= self.spans.deep_view());
        }
        Text { plain: self.plain.clone(), spans, style: self.style.clone() }
    }
}

impl Renderable for Text {
    open spec fn rendered(&self, width: usize, height: usize) -> Line {
        self@.segments(Seq::<char>::empty())
    }

    /// Draws the text as it is; whoever asks for it cuts and pads it.
    fn render(&self, width: usize, height: usize) -> (out: Vec<Segment>) {
        proof {
            reveal_strlit("");
            assert(""@ =~= Seq::<char>::empty());
        }
        Text::render(self, "")
    }
}

} // verus!

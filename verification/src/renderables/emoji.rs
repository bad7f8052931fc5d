//! A single emoji as renderable content.
use crate::emoji::{get, glyph, EmojiVariant};
use crate::renderables::Renderable;
use crate::segment::{Line, Segment, SegmentModel};
use crate::strings::{debug_quoted, quote};
use crate::style::{Style, StyleModel};
use crate::text::piece_style;
use vstd::prelude::*;

verus! {

/// No emoji is called by the name that was given.
#[derive(Debug, PartialEq, Eq)]
pub struct NoEmoji {
    pub name: String,
}

impl Clone for NoEmoji {
    fn clone(&self) -> (out: NoEmoji)
        ensures
            out == *self,
    {
        NoEmoji { name: self.name.clone() }
    }
}

impl NoEmoji {
    /// What the message of the error is for a name shown as `quoted`.
    pub open spec fn message(quoted: Seq<char>) -> Seq<char> {
        "no emoji called "@ + quoted
    }

    /// The message of an error about a name that is shown as `quoted`.
    pub fn describe(quoted: &str) -> (out: String)
        ensures
            out@ == NoEmoji::message(quoted@),
    {
        let mut out = String::from_str("no emoji called ");
        out.append(quoted);
        out
    }

    /// The message of the error: `no emoji called` and the name in quotes.
    pub fn to_string(&self) -> (out: String)
        ensures
            out@ == NoEmoji::message(debug_quoted(self.name@)),
    {
        let quoted = quote(self.name.as_str());
        NoEmoji::describe(quoted.as_str())
    }
}

/// A single emoji character, optionally with a presentation variant.
#[derive(Debug)]
pub struct Emoji {
    name: String,
    style: Style,
    variant: Option<EmojiVariant>,
}

/// An emoji as a plain value.
pub struct EmojiModel {
    /// The name of the emoji.
    pub name: Seq<char>,
    /// The style in which it is drawn; the null style for none.
    pub style: StyleModel,
    /// The presentation that is asked for, if any.
    pub variant: Option<EmojiVariant>,
}

impl EmojiModel {
    /// What the emoji draws: the character, followed by the selector of its
    /// variant if it has one, in its style. An emoji whose name is not
    /// known draws its code.
    pub open spec fn drawn(self) -> Line {
        match glyph(self.name) {
            None => seq![
                SegmentModel {
                    text: seq![':'] + self.name + seq![':'],
                    style: None,
                    control: false,
                },
            ],
            Some(g) => seq![
                SegmentModel {
                    text: match self.variant {
                        Some(v) => g + v.mark(),
                        None => g,
                    },
                    style: piece_style(self.style),
                    control: false,
                },
            ],
        }
    }
}

impl View for Emoji {
    type V = EmojiModel;

    closed spec fn view(&self) -> EmojiModel {
        EmojiModel { name: self.name@, style: self.style@, variant: self.variant }
    }
}

impl Clone for Emoji {
    fn clone(&self) -> (out: Emoji)
        ensures
            out@ == self@,
    {
        Emoji { name: self.name.clone(), style: self.style.clone(), variant: self.variant }
    }
}

impl Emoji {
    /// Construct an Emoji by name (e.g. `"smile"`).
    ///
    /// Returns an error if the emoji name is not known.
    pub fn new(name: &str) -> (out: Result<Emoji, NoEmoji>)
        ensures
            match out {
                Ok(emoji) => glyph(name@) is Some && emoji@ == (EmojiModel {
                    name: name@,
                    style: StyleModel::null(),
                    variant: None,
                }),
                Err(e) => glyph(name@) is None && e.name@ == name@,
            },
    {
        if get(name).is_none() {
            return Err(NoEmoji { name: String::from_str(name) });
        }
        Ok(Emoji { name: String::from_str(name), style: Style::null(), variant: None })
    }

    /// Set the style for this emoji.
    pub fn style(self, style: Style) -> (out: Emoji)
        ensures
            out@ == (EmojiModel { style: style@, ..self@ }),
    {
        Emoji { name: self.name, style, variant: self.variant }
    }

    /// Set the emoji presentation variant.
    pub fn variant(self, variant: Option<EmojiVariant>) -> (out: Emoji)
        ensures
            out@ == (EmojiModel { variant, ..self@ }),
    {
        Emoji { name: self.name, style: self.style, variant }
    }

    /// Get the emoji name.
    pub fn name(&self) -> (name: &str)
        ensures
            name@ == self@.name,
    {
        self.name.as_str()
    }
}

impl Renderable for Emoji {
    open spec fn rendered(&self, width: usize, height: usize) -> Line {
        self@.drawn()
    }

    /// Draws the emoji: one segment, whatever the size.
    fn render(&self, width: usize, height: usize) -> (out: Vec<Segment>) {
        let mut out: Vec<Segment> = Vec::new();
        match get(self.name.as_str()) {
            None => {
                let mut text = String::new();
                text.push(':');
                text.append(self.name.as_str());
                text.push(':');
                out.push(Segment { text, style: None, control: false });
                proof {
                    assert(out[0]@.text =~= seq![':'] + self@.name + seq![':']);
                    assert(out.deep_view() =~= self@.drawn());
                }
            },
            Some(g) => {
                let mut text = String::from_str(g);
                match self.variant {
                    Some(v) => {
                        text.append(v.selector());
                    },
                    None => {},
                }
                let style = if self.style.is_null() {
                    None
                } else {
                    Some(self.style.clone())
                };
                out.push(Segment { text, style, control: false });
                proof {
                    assert(out.deep_view() =~= self@.drawn());
                }
            },
        }
        out
    }
}

} // verus!

//! Rule: a horizontal line across the width that is given.
use crate::cells::text_width;
use crate::renderables::Renderable;
use crate::segment::{chars_within, set_cell_size, sized, Line, Segment, SegmentModel};
use crate::strings::chars_of;
use crate::style::{Style, StyleModel};
use vstd::prelude::*;

verus! {

/// A horizontal line drawn by repeating a pattern of characters.
#[derive(Debug)]
pub struct Rule {
    character: String,
    style: Style,
}

/// A rule as a plain value.
pub struct RuleModel {
    /// The characters that are repeated.
    pub character: Seq<char>,
    /// The style of the line.
    pub style: StyleModel,
}

impl View for Rule {
    type V = RuleModel;

    closed spec fn view(&self) -> RuleModel {
        RuleModel { character: self.character@, style: self.style@ }
    }
}

/// `n` copies of a text, one after the other.
pub open spec fn copies(pattern: Seq<char>, n: nat) -> Seq<char>
    decreases n,
{
    if n == 0 {
        Seq::<char>::empty()
    } else {
        copies(pattern, (n - 1) as nat) + pattern
    }
}

/// A line of exactly `width` cells made of copies of `pattern`: as many
/// whole copies as fit, and the last copy cut to the cells that are left.
/// A pattern that takes no cells gives a line of spaces.
pub open spec fn rule_line(pattern: Seq<char>, width: usize) -> Seq<char> {
    let cells = text_width(pattern);
    if cells == 0 || cells > width {
        sized(pattern, width as nat)
    } else {
        copies(pattern, (width as nat) / cells) + sized(pattern, (width as nat) % cells)
    }
}

impl Clone for Rule {
    fn clone(&self) -> (out: Rule)
        ensures
            out@ == self@,
    {
        Rule { character: self.character.clone(), style: self.style.clone() }
    }
}

impl Rule {
    /// A rule of box-drawing dashes in a style that decides nothing.
    pub fn new() -> (out: Rule)
        ensures
            out@ == (RuleModel { character: "\u{2500}"@, style: StyleModel::plain() }),
    {
        Rule { character: String::from_str("\u{2500}"), style: Style::new() }
    }

    /// Set the characters that the line is made of.
    pub fn character(self, character: &str) -> (out: Rule)
        ensures
            out@ == (RuleModel { character: character@, ..self@ }),
    {
        Rule { character: String::from_str(character), style: self.style }
    }

    /// Set the style of the line.
    pub fn style(self, style: Style) -> (out: Rule)
        ensures
            out@ == (RuleModel { style: style@, ..self@ }),
    {
        Rule { character: self.character, style }
    }
}

impl Renderable for Rule {
    open spec fn rendered(&self, width: usize, height: usize) -> Line {
        seq![
            SegmentModel {
                text: rule_line(self@.character, width),
                style: Some(self@.style),
                control: false,
            },
            SegmentModel { text: seq!['\n'], style: None, control: false },
        ]
    }

    /// Draws the line over `width` cells, and a line break behind it.
    fn render(&self, width: usize, height: usize) -> (out: Vec<Segment>) {
        let pattern = chars_of(self.character.as_str());
        let text = match chars_within(&pattern, width) {
            Some(cells) => {
                if cells == 0 {
                    set_cell_size(self.character.as_str(), width)
                } else {
                    let n = width / cells;
                    let mut text = String::new();
                    let mut k: usize = 0;
                    while k < n
                        invariant
                            k <= n,
                            text@ == copies(self.character@, k as nat),
                        decreases n - k,
                    {
                        text.append(self.character.as_str());
                        k = k + 1;
                    }
                    let tail = set_cell_size(self.character.as_str(), width % cells);
                    text.append(tail.as_str());
                    text
                }
            },
            None => set_cell_size(self.character.as_str(), width),
        };
        let mut out: Vec<Segment> = Vec::new();
        out.push(Segment { text, style: Some(self.style.clone()), control: false });
        out.push(Segment::line());
        proof {
            assert(out.deep_view() =~= self.rendered(width, height));
        }
        out
    }
}

} // verus!

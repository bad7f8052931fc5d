//! Colours, text attributes and styles.
use crate::strings::{chars_of, same_text, slice_of, string_of, texts_of};
use vstd::prelude::*;

verus! {

/// A terminal colour.
#[derive(Clone, Copy, Debug, PartialEq, Eq, Structural)]
pub enum Color {
    /// The terminal's own default colour.
    Default,
    /// One of the 256 numbered colours.
    Ansi(u8),
    /// A colour given by its red, green and blue parts.
    Rgb(u8, u8, u8),
}

impl Color {
    /// The numbered colour `number`.
    pub fn from_ansi(number: u8) -> (c: Color)
        ensures
            c == Color::Ansi(number),
    {
        Color::Ansi(number)
    }

    /// The colour with the given red, green and blue parts.
    pub fn from_rgb(red: u8, green: u8, blue: u8) -> (c: Color)
        ensures
            c == Color::Rgb(red, green, blue),
    {
        Color::Rgb(red, green, blue)
    }

    /// The number of the standard colour called `name`, if there is one.
    pub open spec fn named(name: Seq<char>) -> Option<u8> {
        if name == "black"@ {
            Some(0u8)
        } else if name == "red"@ {
            Some(1u8)
        } else if name == "green"@ {
            Some(2u8)
        } else if name == "yellow"@ {
            Some(3u8)
        } else if name == "blue"@ {
            Some(4u8)
        } else if name == "magenta"@ {
            Some(5u8)
        } else if name == "cyan"@ {
            Some(6u8)
        } else if name == "white"@ {
            Some(7u8)
        } else if name == "bright_black"@ {
            Some(8u8)
        } else if name == "bright_red"@ {
            Some(9u8)
        } else if name == "bright_green"@ {
            Some(10u8)
        } else if name == "bright_yellow"@ {
            Some(11u8)
        } else if name == "bright_blue"@ {
            Some(12u8)
        } else if name == "bright_magenta"@ {
            Some(13u8)
        } else if name == "bright_cyan"@ {
            Some(14u8)
        } else if name == "bright_white"@ {
            Some(15u8)
        } else {
            None
        }
    }

    /// The colour called `name`: `"default"` or one of the sixteen standard
    /// names.
    pub open spec fn parse_spec(name: Seq<char>) -> Option<Color> {
        if name == "default"@ {
            Some(Color::Default)
        } else {
            match Color::named(name) {
                Some(n) => Some(Color::Ansi(n)),
                None => None,
            }
        }
    }

    /// Reads a colour name: `"default"` or one of the sixteen standard names.
    pub fn parse(name: &str) -> (c: Option<Color>)
        ensures
            c == Color::parse_spec(name@),
    {
        if same_text(name, "default") {
            Some(Color::Default)
        } else if same_text(name, "black") {
            Some(Color::Ansi(0))
        } else if same_text(name, "red") {
            Some(Color::Ansi(1))
        } else if same_text(name, "green") {
            Some(Color::Ansi(2))
        } else if same_text(name, "yellow") {
            Some(Color::Ansi(3))
        } else if same_text(name, "blue") {
            Some(Color::Ansi(4))
        } else if same_text(name, "magenta") {
            Some(Color::Ansi(5))
        } else if same_text(name, "cyan") {
            Some(Color::Ansi(6))
        } else if same_text(name, "white") {
            Some(Color::Ansi(7))
        } else if same_text(name, "bright_black") {
            Some(Color::Ansi(8))
        } else if same_text(name, "bright_red") {
            Some(Color::Ansi(9))
        } else if same_text(name, "bright_green") {
            Some(Color::Ansi(10))
        } else if same_text(name, "bright_yellow") {
            Some(Color::Ansi(11))
        } else if same_text(name, "bright_blue") {
            Some(Color::Ansi(12))
        } else if same_text(name, "bright_magenta") {
            Some(Color::Ansi(13))
        } else if same_text(name, "bright_cyan") {
            Some(Color::Ansi(14))
        } else if same_text(name, "bright_white") {
            Some(Color::Ansi(15))
        } else {
            None
        }
    }
}

impl Default for Color {
    fn default() -> (c: Color)
        ensures
            c == Color::Default,
    {
        Color::Default
    }
}

/// A set of text attributes, one bit each; the constants name the bits.
#[derive(Clone, Copy, Debug, PartialEq, Eq, Structural)]
pub struct Attributes {
    pub bits: u16,
}

impl Attributes {
    pub const BOLD: u16 = 1;

    pub const DIM: u16 = 2;

    pub const ITALIC: u16 = 4;

    pub const UNDERLINE: u16 = 8;

    pub const BLINK: u16 = 16;

    pub const BLINK2: u16 = 32;

    pub const REVERSE: u16 = 64;

    pub const CONCEAL: u16 = 128;

    pub const STRIKE: u16 = 256;

    pub const UNDERLINE2: u16 = 512;

    pub const FRAME: u16 = 1024;

    pub const ENCIRCLE: u16 = 2048;

    pub const OVERLINE: u16 = 4096;

    /// The empty set.
    pub fn empty() -> (a: Attributes)
        ensures
            a.bits == 0,
    {
        Attributes { bits: 0 }
    }

    /// Whether the set holds nothing.
    pub fn is_empty(&self) -> (e: bool)
        ensures
            e == (self.bits == 0),
    {
        self.bits == 0
    }

    /// Whether every attribute of `mask` is in the set.
    pub open spec fn holds(self, mask: u16) -> bool {
        self.bits & mask == mask
    }

    /// Whether every attribute of `mask` is in the set.
    pub fn contains(&self, mask: u16) -> (c: bool)
        ensures
            c == self.holds(mask),
    {
        self.bits & mask == mask
    }

    /// Adds the attributes of `mask`.
    pub fn insert(&mut self, mask: u16)
        ensures
            final(self).bits == old(self).bits | mask,
    {
        self.bits = self.bits | mask;
    }

    /// Takes the attributes of `mask` out.
    pub fn remove(&mut self, mask: u16)
        ensures
            final(self).bits == old(self).bits & !mask,
    {
        self.bits = self.bits & !mask;
    }
}

/// How text is drawn: colours, attributes and a hyperlink.
///
/// `attributes` holds the attributes that are on. `set_attributes` holds
/// those that the style decides at all, on or off; what it leaves undecided
/// is taken from the style it is combined onto. The null style decides
/// nothing and stands for "no style".
#[derive(Debug, PartialEq, Eq)]
pub struct Style {
    pub color: Option<Color>,
    pub bgcolor: Option<Color>,
    pub attributes: Attributes,
    pub set_attributes: Attributes,
    pub link: Option<String>,
    pub link_id: Option<String>,
    pub null: bool,
}

/// A style as a plain value.
pub struct StyleModel {
    pub color: Option<Color>,
    pub bgcolor: Option<Color>,
    pub attributes: u16,
    pub set_attributes: u16,
    pub link: Option<Seq<char>>,
    pub link_id: Option<Seq<char>>,
    pub null: bool,
}

/// The characters of an optional text.
pub open spec fn text_of(s: Option<String>) -> Option<Seq<char>> {
    match s {
        Some(t) => Some(t@),
        None => None,
    }
}

impl View for Style {
    type V = StyleModel;

    open spec fn view(&self) -> StyleModel {
        StyleModel {
            color: self.color,
            bgcolor: self.bgcolor,
            attributes: self.attributes.bits,
            set_attributes: self.set_attributes.bits,
            link: text_of(self.link),
            link_id: text_of(self.link_id),
            null: self.null,
        }
    }
}

impl DeepView for Style {
    type V = StyleModel;

    open spec fn deep_view(&self) -> StyleModel {
        self.view()
    }
}

impl StyleModel {
    /// The style that decides nothing and is not the null style.
    pub open spec fn plain() -> StyleModel {
        StyleModel {
            color: None,
            bgcolor: None,
            attributes: 0,
            set_attributes: 0,
            link: None,
            link_id: None,
            null: false,
        }
    }

    /// The null style.
    pub open spec fn null() -> StyleModel {
        StyleModel { null: true, ..StyleModel::plain() }
    }

    /// The style with the attributes of `mask` switched on.
    pub open spec fn with(self, mask: u16) -> StyleModel {
        StyleModel {
            attributes: self.attributes | mask,
            set_attributes: self.set_attributes | mask,
            null: false,
            ..self
        }
    }

    /// The style with the attributes of `mask` switched off.
    pub open spec fn without(self, mask: u16) -> StyleModel {
        StyleModel {
            attributes: self.attributes & !mask,
            set_attributes: self.set_attributes | mask,
            null: false,
            ..self
        }
    }

    /// `other` laid over this style: what `other` decides wins, the rest
    /// stays. A null style changes nothing.
    pub open spec fn combined(self, other: StyleModel) -> StyleModel {
        if other.null {
            self
        } else if self.null {
            other
        } else {
            StyleModel {
                color: if other.color is Some {
                    other.color
                } else {
                    self.color
                },
                bgcolor: if other.bgcolor is Some {
                    other.bgcolor
                } else {
                    self.bgcolor
                },
                attributes: (self.attributes & !other.set_attributes) | (other.attributes
                    & other.set_attributes),
                set_attributes: self.set_attributes | other.set_attributes,
                link: if other.link is Some {
                    other.link
                } else {
                    self.link
                },
                link_id: if other.link_id is Some {
                    other.link_id
                } else {
                    self.link_id
                },
                null: false,
            }
        }
    }

    /// Whether the style decides nothing.
    pub open spec fn is_blank(self) -> bool {
        &&& self.attributes == 0
        &&& self.set_attributes == 0
        &&& self.color is None
        &&& self.bgcolor is None
        &&& self.link is None
        &&& self.link_id is None
    }
}

/// A copy of an optional text.
pub fn clone_text(s: &Option<String>) -> (out: Option<String>)
    ensures
        out == *s,
{
    match s {
        Some(t) => Some(t.clone()),
        None => None,
    }
}

/// Whether two optional texts hold the same characters.
pub fn same_optional_text(a: &Option<String>, b: &Option<String>) -> (same: bool)
    ensures
        same == (text_of(*a) == text_of(*b)),
{
    match (a, b) {
        (Some(x), Some(y)) => {
            let r = same_text(x.as_str(), y.as_str());
            r
        },
        (None, None) => true,
        _ => false,
    }
}

/// Whether two optional colours are the same.
pub fn same_color(a: &Option<Color>, b: &Option<Color>) -> (same: bool)
    ensures
        same == (*a == *b),
{
    match (a, b) {
        (Some(x), Some(y)) => *x == *y,
        (None, None) => true,
        _ => false,
    }
}

impl Clone for Style {
    fn clone(&self) -> (out: Style)
        ensures
            out == *self,
    {
        Style {
            color: self.color,
            bgcolor: self.bgcolor,
            attributes: self.attributes,
            set_attributes: self.set_attributes,
            link: clone_text(&self.link),
            link_id: clone_text(&self.link_id),
            null: self.null,
        }
    }
}

impl Default for Style {
    fn default() -> (s: Style)
        ensures
            s@ == StyleModel::plain(),
    {
        Style::new()
    }
}

impl Style {
    /// A style that decides nothing.
    pub fn new() -> (s: Style)
        ensures
            s@ == StyleModel::plain(),
    {
        Style {
            color: None,
            bgcolor: None,
            attributes: Attributes::empty(),
            set_attributes: Attributes::empty(),
            link: None,
            link_id: None,
            null: false,
        }
    }

    /// The null style.
    pub fn null() -> (s: Style)
        ensures
            s@ == StyleModel::null(),
    {
        Style {
            color: None,
            bgcolor: None,
            attributes: Attributes::empty(),
            set_attributes: Attributes::empty(),
            link: None,
            link_id: None,
            null: true,
        }
    }

    /// Whether this is the null style.
    pub fn is_null(&self) -> (n: bool)
        ensures
            n == self@.null,
    {
        self.null
    }

    /// Whether two styles are the same in every part.
    pub fn same_as(&self, other: &Style) -> (same: bool)
        ensures
            same == (self@ == other@),
    {
        same_color(&self.color, &other.color) && same_color(&self.bgcolor, &other.bgcolor)
            && self.attributes.bits == other.attributes.bits && self.set_attributes.bits
            == other.set_attributes.bits && same_optional_text(&self.link, &other.link)
            && same_optional_text(&self.link_id, &other.link_id) && self.null == other.null
    }

    /// The style with the attributes of `mask` switched on.
    pub fn attribute(self, mask: u16) -> (s: Style)
        ensures
            s@ == self@.with(mask),
    {
        let mut s = self;
        s.attributes.insert(mask);
        s.set_attributes.insert(mask);
        s.null = false;
        s
    }

    /// The style with the attributes of `mask` switched off.
    pub fn not(self, mask: u16) -> (s: Style)
        ensures
            s@ == self@.without(mask),
    {
        let mut s = self;
        s.attributes.remove(mask);
        s.set_attributes.insert(mask);
        s.null = false;
        s
    }

    /// The style in bold.
    pub fn bold(self) -> (s: Style)
        ensures
            s@ == self@.with(Attributes::BOLD),
    {
        self.attribute(Attributes::BOLD)
    }

    /// The style dimmed.
    pub fn dim(self) -> (s: Style)
        ensures
            s@ == self@.with(Attributes::DIM),
    {
        self.attribute(Attributes::DIM)
    }

    /// The style in italics.
    pub fn italic(self) -> (s: Style)
        ensures
            s@ == self@.with(Attributes::ITALIC),
    {
        self.attribute(Attributes::ITALIC)
    }

    /// The style underlined.
    pub fn underline(self) -> (s: Style)
        ensures
            s@ == self@.with(Attributes::UNDERLINE),
    {
        self.attribute(Attributes::UNDERLINE)
    }

    /// The style with the foreground colour `color`.
    pub fn color(self, color: Color) -> (s: Style)
        ensures
            s@ == (StyleModel { color: Some(color), null: false, ..self@ }),
    {
        let mut s = self;
        s.color = Some(color);
        s.null = false;
        s
    }

    /// The style with the background colour `color`.
    pub fn bgcolor(self, color: Color) -> (s: Style)
        ensures
            s@ == (StyleModel { bgcolor: Some(color), null: false, ..self@ }),
    {
        let mut s = self;
        s.bgcolor = Some(color);
        s.null = false;
        s
    }

    /// The style with the foreground colour called `name`; an error where no
    /// colour has that name.
    pub fn color_str(self, name: &str) -> (r: Result<Style, ColorParseError>)
        ensures
            match r {
                Ok(s) => Color::parse_spec(name@) matches Some(c) && s@ == (StyleModel {
                    color: Some(c),
                    null: false,
                    ..self@
                }),
                Err(e) => Color::parse_spec(name@) is None && e.name@ == name@,
            },
    {
        match Color::parse(name) {
            Some(c) => Ok(self.color(c)),
            None => Err(ColorParseError { name: String::from_str(name) }),
        }
    }

    /// The style with a hyperlink to `url`.
    pub fn link(self, url: String) -> (s: Style)
        ensures
            s@ == (StyleModel { link: Some(url@), null: false, ..self@ }),
    {
        let mut s = self;
        s.link = Some(url);
        s.null = false;
        s
    }

    /// `other` laid over this style.
    pub fn combine(&self, other: &Style) -> (s: Style)
        ensures
            s@ == self@.combined(other@),
    {
        if other.null {
            self.clone()
        } else if self.null {
            other.clone()
        } else {
            Style {
                color: if other.color.is_some() {
                    other.color
                } else {
                    self.color
                },
                bgcolor: if other.bgcolor.is_some() {
                    other.bgcolor
                } else {
                    self.bgcolor
                },
                attributes: Attributes {
                    bits: (self.attributes.bits & !other.set_attributes.bits) | (
                    other.attributes.bits & other.set_attributes.bits),
                },
                set_attributes: Attributes {
                    bits: self.set_attributes.bits | other.set_attributes.bits,
                },
                link: if other.link.is_some() {
                    clone_text(&other.link)
                } else {
                    clone_text(&self.link)
                },
                link_id: if other.link_id.is_some() {
                    clone_text(&other.link_id)
                } else {
                    clone_text(&self.link_id)
                },
                null: false,
            }
        }
    }
}

/// No colour is called by the name that was given.
#[derive(Debug)]
pub struct ColorParseError {
    pub name: String,
}

/// The value of a hexadecimal digit, in either case.
pub open spec fn hex_value(c: char) -> Option<int> {
    if '0' <= c && c <= '9' {
        Some(c as int - '0' as int)
    } else if 'a' <= c && c <= 'f' {
        Some(c as int - 'a' as int + 10)
    } else if 'A' <= c && c <= 'F' {
        Some(c as int - 'A' as int + 10)
    } else {
        None
    }
}

/// The byte that two hexadecimal digits write.
pub open spec fn hex_byte(high: char, low: char) -> Option<u8> {
    match (hex_value(high), hex_value(low)) {
        (Some(h), Some(l)) => Some((h * 16 + l) as u8),
        _ => None,
    }
}

/// The colour that a word stands for: `#` and six hexadecimal digits for
/// red, green and blue, or the name of a colour.
pub open spec fn word_color(word: Seq<char>) -> Option<Color> {
    if word.len() == 7 && word[0] == '#' {
        match (hex_byte(word[1], word[2]), hex_byte(word[3], word[4]), hex_byte(word[5], word[6])) {
            (Some(r), Some(g), Some(b)) => Some(Color::Rgb(r, g, b)),
            _ => None,
        }
    } else {
        Color::parse_spec(word)
    }
}

/// The attribute that a word names.
pub open spec fn word_attribute(word: Seq<char>) -> Option<u16> {
    if word == "bold"@ {
        Some(Attributes::BOLD)
    } else if word == "dim"@ {
        Some(Attributes::DIM)
    } else if word == "italic"@ {
        Some(Attributes::ITALIC)
    } else if word == "underline"@ {
        Some(Attributes::UNDERLINE)
    } else if word == "blink"@ {
        Some(Attributes::BLINK)
    } else if word == "blink2"@ {
        Some(Attributes::BLINK2)
    } else if word == "reverse"@ {
        Some(Attributes::REVERSE)
    } else if word == "conceal"@ {
        Some(Attributes::CONCEAL)
    } else if word == "strike"@ {
        Some(Attributes::STRIKE)
    } else if word == "underline2"@ {
        Some(Attributes::UNDERLINE2)
    } else if word == "frame"@ {
        Some(Attributes::FRAME)
    } else if word == "encircle"@ {
        Some(Attributes::ENCIRCLE)
    } else if word == "overline"@ {
        Some(Attributes::OVERLINE)
    } else {
        None
    }
}

/// The words of a text from position `from` on, behind the words `sofar`;
/// the word that is being read began at `start`. Words are separated by
/// spaces, tabs and line breaks.
pub open spec fn words_from(text: Seq<char>, from: int, start: int, sofar: Seq<Seq<char>>) -> Seq<
    Seq<char>,
>
    decreases text.len() - from,
{
    if from < 0 || from >= text.len() {
        if 0 <= start < text.len() {
            sofar.push(text.subrange(start, text.len() as int))
        } else {
            sofar
        }
    } else if text[from] == ' ' || text[from] == '\t' || text[from] == '\n' || text[from] == '\r' {
        words_from(
            text,
            from + 1,
            from + 1,
            if start < from {
                sofar.push(text.subrange(start, from))
            } else {
                sofar
            },
        )
    } else {
        words_from(text, from + 1, start, sofar)
    }
}

/// The style that the words of a definition from position `i` on make of
/// `style`. An attribute name switches the attribute on, and `not` before
/// it switches it off; a colour sets the foreground, and `on` before it
/// the background. `None` for a word that means nothing, and for `not` or
/// `on` without the word they need behind them.
pub open spec fn words_applied(style: StyleModel, words: Seq<Seq<char>>, i: int) -> Option<StyleModel>
    decreases words.len() - i,
{
    if i < 0 || i >= words.len() {
        Some(style)
    } else if words[i] == "on"@ {
        if i + 1 < words.len() && word_color(words[i + 1]) is Some {
            words_applied(
                StyleModel { bgcolor: word_color(words[i + 1]), null: false, ..style },
                words,
                i + 2,
            )
        } else {
            None
        }
    } else if words[i] == "not"@ {
        if i + 1 < words.len() && word_attribute(words[i + 1]) is Some {
            words_applied(style.without(word_attribute(words[i + 1]).unwrap()), words, i + 2)
        } else {
            None
        }
    } else if word_attribute(words[i]) is Some {
        words_applied(style.with(word_attribute(words[i]).unwrap()), words, i + 1)
    } else if word_color(words[i]) is Some {
        words_applied(
            StyleModel { color: word_color(words[i]), null: false, ..style },
            words,
            i + 1,
        )
    } else {
        None
    }
}

/// The style that a definition such as `"bold white on red"` stands for.
pub open spec fn parsed_style(definition: Seq<char>) -> Option<StyleModel> {
    words_applied(
        StyleModel::plain(),
        words_from(definition, 0, 0, Seq::<Seq<char>>::empty()),
        0,
    )
}

fn hex_digit_value(c: char) -> (out: Option<u8>)
    ensures
        match out {
            Some(v) => hex_value(c) == Some(v as int) && v < 16,
            None => hex_value(c) is None,
        },
{
    if '0' <= c && c <= '9' {
        Some(((c as u32) - ('0' as u32)) as u8)
    } else if 'a' <= c && c <= 'f' {
        Some(((c as u32) - ('a' as u32) + 10) as u8)
    } else if 'A' <= c && c <= 'F' {
        Some(((c as u32) - ('A' as u32) + 10) as u8)
    } else {
        None
    }
}

fn read_hex_byte(high: char, low: char) -> (out: Option<u8>)
    ensures
        out == hex_byte(high, low),
{
    match (hex_digit_value(high), hex_digit_value(low)) {
        (Some(h), Some(l)) => Some(h * 16 + l),
        _ => None,
    }
}

/// Whether `word` holds the characters of `text`.
fn word_is(word: &Vec<char>, text: &str) -> (same: bool)
    ensures
        same == (word@ == text@),
{
    let other = string_of(word, 0, word.len());
    proof {
        assert(word@.subrange(0, word.len() as int) =~= word@);
    }
    same_text(other.as_str(), text)
}

/// The colour that a word stands for.
pub fn read_color(word: &Vec<char>) -> (out: Option<Color>)
    ensures
        out == word_color(word@),
{
    if word.len() == 7 && word[0] == '#' {
        match (
            read_hex_byte(word[1], word[2]),
            read_hex_byte(word[3], word[4]),
            read_hex_byte(word[5], word[6]),
        ) {
            (Some(r), Some(g), Some(b)) => Some(Color::Rgb(r, g, b)),
            _ => None,
        }
    } else {
        let name = string_of(word, 0, word.len());
        proof {
            assert(word@.subrange(0, word.len() as int) =~= word@);
        }
        Color::parse(name.as_str())
    }
}

/// The attribute that a word names.
pub fn read_attribute(word: &Vec<char>) -> (out: Option<u16>)
    ensures
        out == word_attribute(word@),
{
    if word_is(word, "bold") {
        Some(Attributes::BOLD)
    } else if word_is(word, "dim") {
        Some(Attributes::DIM)
    } else if word_is(word, "italic") {
        Some(Attributes::ITALIC)
    } else if word_is(word, "underline") {
        Some(Attributes::UNDERLINE)
    } else if word_is(word, "blink") {
        Some(Attributes::BLINK)
    } else if word_is(word, "blink2") {
        Some(Attributes::BLINK2)
    } else if word_is(word, "reverse") {
        Some(Attributes::REVERSE)
    } else if word_is(word, "conceal") {
        Some(Attributes::CONCEAL)
    } else if word_is(word, "strike") {
        Some(Attributes::STRIKE)
    } else if word_is(word, "underline2") {
        Some(Attributes::UNDERLINE2)
    } else if word_is(word, "frame") {
        Some(Attributes::FRAME)
    } else if word_is(word, "encircle") {
        Some(Attributes::ENCIRCLE)
    } else if word_is(word, "overline") {
        Some(Attributes::OVERLINE)
    } else {
        None
    }
}

/// Splits a text into its words.
pub fn split_words(chars: &Vec<char>) -> (out: Vec<Vec<char>>)
    ensures
        texts_of(out@) == words_from(chars@, 0, 0, Seq::<Seq<char>>::empty()),
{
    let mut out: Vec<Vec<char>> = Vec::new();
    let mut start: usize = 0;
    let mut from: usize = 0;
    proof {
        assert(texts_of(out@) =~= Seq::<Seq<char>>::empty());
    }
    while from < chars.len()
        invariant
            start <= from <= chars.len(),
            words_from(chars@, from as int, start as int, texts_of(out@)) == words_from(
                chars@,
                0,
                0,
                Seq::<Seq<char>>::empty(),
            ),
        decreases chars.len() - from,
    {
        let c = chars[from];
        if c == ' ' || c == '\t' || c == '\n' || c == '\r' {
            if start < from {
                let word = slice_of(chars, start, from);
                let ghost before = texts_of(out@);
                out.push(word);
                proof {
                    assert(texts_of(out@) =~= before.push(word@));
                }
            }
            start = from + 1;
        }
        from = from + 1;
    }
    if start < chars.len() {
        let word = slice_of(chars, start, chars.len());
        let ghost before = texts_of(out@);
        out.push(word);
        proof {
            assert(texts_of(out@) =~= before.push(word@));
        }
    }
    out
}

impl Style {
    /// Reads a style definition such as `"bold white on red"` or
    /// `"dim #94a3b8"`; `None` for a definition that makes no sense.
    pub fn parse(definition: &str) -> (out: Option<Style>)
        ensures
            match out {
                Some(style) => parsed_style(definition@) == Some(style@),
                None => parsed_style(definition@) is None,
            },
    {
        let chars = chars_of(definition);
        let words = split_words(&chars);
        let ghost all = texts_of(words@);
        let mut style = Style::new();
        let mut i: usize = 0;
        while i < words.len()
            invariant
                i <= words.len(),
                all == texts_of(words@),
                words_applied(style@, all, i as int) == parsed_style(definition@),
            decreases words.len() - i,
        {
            proof {
                assert(all[i as int] == words[i as int]@);
                if i + 1 < words.len() {
                    assert(all[i + 1] == words[i + 1]@);
                }
            }
            if word_is(&words[i], "on") {
                if words.len() - i < 2 {
                    return None;
                }
                match read_color(&words[i + 1]) {
                    Some(color) => {
                        style = style.bgcolor(color);
                    },
                    None => {
                        return None;
                    },
                }
                i = i + 2;
            } else if word_is(&words[i], "not") {
                if words.len() - i < 2 {
                    return None;
                }
                match read_attribute(&words[i + 1]) {
                    Some(mask) => {
                        style = style.not(mask);
                    },
                    None => {
                        return None;
                    },
                }
                i = i + 2;
            } else {
                match read_attribute(&words[i]) {
                    Some(mask) => {
                        style = style.attribute(mask);
                    },
                    None => {
                        match read_color(&words[i]) {
                            Some(color) => {
                                style = style.color(color);
                            },
                            None => {
                                return None;
                            },
                        }
                    },
                }
                i = i + 1;
            }
        }
        Some(style)
    }
}

/// Whether a character separates the words of a style definition.
pub open spec fn is_gap(c: char) -> bool {
    c == ' ' || c == '\t' || c == '\n' || c == '\r'
}

/// Whether a text is one word: not empty, and without a character that
/// separates words.
pub open spec fn is_word(w: Seq<char>) -> bool {
    w.len() > 0 && forall|i: int| 0 <= i < w.len() ==> !is_gap(#[trigger] w[i])
}

/// Whether a word is one of the two that announce the word behind them.
pub open spec fn is_keyword(w: Seq<char>) -> bool {
    w == "on"@ || w == "not"@
}

/// The style that switches the attributes of `mask` on and has the given
/// colours.
pub open spec fn accented(mask: u16, color: Option<Color>, bgcolor: Option<Color>) -> StyleModel {
    StyleModel { color, bgcolor, ..StyleModel::plain().with(mask) }
}

/// The style that sets the foreground colour and nothing else.
pub open spec fn tinted(color: Color) -> StyleModel {
    StyleModel { color: Some(color), null: false, ..StyleModel::plain() }
}

proof fn lemma_words_tail(text: Seq<char>, from: int, start: int, sofar: Seq<Seq<char>>)
    requires
        0 <= start <= from <= text.len(),
        start < text.len(),
        forall|i: int| start <= i < text.len() ==> !is_gap(#[trigger] text[i]),
    ensures
        words_from(text, from, start, sofar) == sofar.push(
            text.subrange(start, text.len() as int),
        ),
    decreases text.len() - from,
{
    if from < text.len() {
        assert(!is_gap(text[from]));
        lemma_words_tail(text, from + 1, start, sofar);
    }
}

proof fn lemma_words_word(text: Seq<char>, from: int, start: int, sofar: Seq<Seq<char>>, end: int)
    requires
        0 <= start <= from <= end < text.len(),
        start < end,
        is_gap(text[end]),
        forall|i: int| start <= i < end ==> !is_gap(#[trigger] text[i]),
    ensures
        words_from(text, from, start, sofar) == words_from(
            text,
            end + 1,
            end + 1,
            sofar.push(text.subrange(start, end)),
        ),
    decreases end - from,
{
    if from < end {
        assert(!is_gap(text[from]));
        lemma_words_word(text, from + 1, start, sofar, end);
    }
}

/// A word alone is the one word of its text.
pub proof fn lemma_one_word(a: Seq<char>)
    requires
        is_word(a),
    ensures
        words_from(a, 0, 0, Seq::<Seq<char>>::empty()) == seq![a],
{
    let none = Seq::<Seq<char>>::empty();
    lemma_words_tail(a, 0, 0, none);
    assert(a.subrange(0, a.len() as int) =~= a);
    assert(none.push(a) =~= seq![a]);
}

/// Two words with a space between them are the two words of their text.
pub proof fn lemma_two_words(a: Seq<char>, b: Seq<char>)
    requires
        is_word(a),
        is_word(b),
    ensures
        words_from(a + seq![' '] + b, 0, 0, Seq::<Seq<char>>::empty()) == seq![a, b],
{
    let none = Seq::<Seq<char>>::empty();
    let text = a + seq![' '] + b;
    let n = a.len() as int;
    assert forall|i: int| 0 <= i < n implies !is_gap(#[trigger] text[i]) by {
        assert(text[i] == a[i]);
    }
    assert(text[n] == ' ');
    lemma_words_word(text, 0, 0, none, n);
    assert(text.subrange(0, n) =~= a);
    assert forall|i: int| n + 1 <= i < text.len() implies !is_gap(#[trigger] text[i]) by {
        assert(text[i] == b[i - n - 1]);
    }
    lemma_words_tail(text, n + 1, n + 1, none.push(a));
    assert(text.subrange(n + 1, text.len() as int) =~= b);
    assert(none.push(a).push(b) =~= seq![a, b]);
}

/// Four words with a space between each two are the four words of their
/// text.
pub proof fn lemma_four_words(a: Seq<char>, b: Seq<char>, c: Seq<char>, d: Seq<char>)
    requires
        is_word(a),
        is_word(b),
        is_word(c),
        is_word(d),
    ensures
        words_from(
            a + seq![' '] + b + seq![' '] + c + seq![' '] + d,
            0,
            0,
            Seq::<Seq<char>>::empty(),
        ) == seq![a, b, c, d],
{
    let none = Seq::<Seq<char>>::empty();
    let text = a + seq![' '] + b + seq![' '] + c + seq![' '] + d;
    let n1 = a.len() as int;
    let n2 = n1 + 1 + b.len();
    let n3 = n2 + 1 + c.len();
    assert forall|i: int| 0 <= i < n1 implies !is_gap(#[trigger] text[i]) by {
        assert(text[i] == a[i]);
    }
    assert(text[n1] == ' ');
    lemma_words_word(text, 0, 0, none, n1);
    assert(text.subrange(0, n1) =~= a);
    assert forall|i: int| n1 + 1 <= i < n2 implies !is_gap(#[trigger] text[i]) by {
        assert(text[i] == b[i - n1 - 1]);
    }
    assert(text[n2] == ' ');
    lemma_words_word(text, n1 + 1, n1 + 1, none.push(a), n2);
    assert(text.subrange(n1 + 1, n2) =~= b);
    assert forall|i: int| n2 + 1 <= i < n3 implies !is_gap(#[trigger] text[i]) by {
        assert(text[i] == c[i - n2 - 1]);
    }
    assert(text[n3] == ' ');
    lemma_words_word(text, n2 + 1, n2 + 1, none.push(a).push(b), n3);
    assert(text.subrange(n2 + 1, n3) =~= c);
    assert forall|i: int| n3 + 1 <= i < text.len() implies !is_gap(#[trigger] text[i]) by {
        assert(text[i] == d[i - n3 - 1]);
    }
    lemma_words_tail(text, n3 + 1, n3 + 1, none.push(a).push(b).push(c));
    assert(text.subrange(n3 + 1, text.len() as int) =~= d);
    assert(none.push(a).push(b).push(c).push(d) =~= seq![a, b, c, d]);
}

/// An attribute alone defines the style that switches it on.
pub proof fn lemma_attribute_alone(a: Seq<char>, mask: u16)
    requires
        is_word(a),
        !is_keyword(a),
        word_attribute(a) == Some(mask),
    ensures
        parsed_style(a) == Some(accented(mask, None, None)),
{
    lemma_one_word(a);
    reveal_with_fuel(words_applied, 3);
}

/// A colour alone defines the style that sets it as foreground.
pub proof fn lemma_color_alone(a: Seq<char>, color: Color)
    requires
        is_word(a),
        !is_keyword(a),
        word_attribute(a) is None,
        word_color(a) == Some(color),
    ensures
        parsed_style(a) == Some(tinted(color)),
{
    lemma_one_word(a);
    reveal_with_fuel(words_applied, 3);
}

/// An attribute and a colour define the style with both.
pub proof fn lemma_attribute_and_color(a: Seq<char>, b: Seq<char>, mask: u16, color: Color)
    requires
        is_word(a),
        !is_keyword(a),
        word_attribute(a) == Some(mask),
        is_word(b),
        !is_keyword(b),
        word_attribute(b) is None,
        word_color(b) == Some(color),
    ensures
        parsed_style(a + seq![' '] + b) == Some(accented(mask, Some(color), None)),
{
    lemma_two_words(a, b);
    reveal_with_fuel(words_applied, 4);
}

/// A colour and an attribute define the style with both.
pub proof fn lemma_color_and_attribute(a: Seq<char>, b: Seq<char>, color: Color, mask: u16)
    requires
        is_word(a),
        !is_keyword(a),
        word_attribute(a) is None,
        word_color(a) == Some(color),
        is_word(b),
        !is_keyword(b),
        word_attribute(b) == Some(mask),
    ensures
        parsed_style(a + seq![' '] + b) == Some(accented(mask, Some(color), None)),
{
    lemma_two_words(a, b);
    reveal_with_fuel(words_applied, 4);
}

/// An attribute, a colour, `on` and a second colour define the style with
/// the attribute, the first colour as foreground and the second as
/// background.
pub proof fn lemma_attribute_color_on_color(
    a: Seq<char>,
    b: Seq<char>,
    d: Seq<char>,
    mask: u16,
    color: Color,
    bgcolor: Color,
)
    requires
        is_word(a),
        !is_keyword(a),
        word_attribute(a) == Some(mask),
        is_word(b),
        !is_keyword(b),
        word_attribute(b) is None,
        word_color(b) == Some(color),
        is_word("on"@),
        is_word(d),
        word_color(d) == Some(bgcolor),
    ensures
        parsed_style(a + seq![' '] + b + seq![' '] + "on"@ + seq![' '] + d) == Some(
            accented(mask, Some(color), Some(bgcolor)),
        ),
{
    lemma_four_words(a, b, "on"@, d);
    let words = seq![a, b, "on"@, d];
    let first = StyleModel::plain().with(mask);
    let second = StyleModel { color: Some(color), null: false, ..first };
    let third = StyleModel { bgcolor: Some(bgcolor), null: false, ..second };
    assert(words[0] == a && words[1] == b && words[2] == "on"@ && words[3] == d);
    assert(words_applied(third, words, 4) == Some(third));
    assert(words_applied(second, words, 2) == Some(third));
    assert(words_applied(first, words, 1) == Some(third));
    assert(words_applied(StyleModel::plain(), words, 0) == Some(third));
    assert(third == accented(mask, Some(color), Some(bgcolor)));
}

} // verus!

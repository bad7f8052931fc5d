//! ANSI decoding: terminal output with escape sequences read into styled
//! text.
//!
//! Two kinds of sequences change the style of the text that follows them:
//! SGR sequences (`ESC [ ... m`) set attributes and colours, and OSC 8
//! sequences (`ESC ] 8 ; ... ; url ESC \`) set or clear a hyperlink. Every
//! other sequence is skipped. The decoder is lenient: a sequence that is cut
//! short or makes no sense is passed over.
use crate::cells::clip;
use crate::strings::{chars_of, lines_from, string_of};
use crate::style::{Attributes, Color, Style, StyleModel};
use crate::text::{SpanModel, Text, TextModel};
use vstd::prelude::*;

verus! {

/// The value of a decimal digit; zero for any other character.
pub open spec fn digit_value(c: char) -> int {
    if '0' <= c && c <= '9' {
        c as int - '0' as int
    } else {
        0
    }
}

/// Whether every character is a decimal digit.
pub open spec fn all_digits(s: Seq<char>) -> bool {
    forall|i: int| 0 <= i < s.len() ==> '0' <= #[trigger] s[i] && s[i] <= '9'
}

/// The number that decimal digits write.
pub open spec fn number(s: Seq<char>) -> nat
    decreases s.len(),
{
    if s.len() == 0 {
        0
    } else {
        (number(s.drop_last()) * 10 + digit_value(s.last())) as nat
    }
}

/// A text read as a 16-bit number: decimal digits, at least one, with an
/// optional `+` in front, that write a number of at most 65535.
pub open spec fn parsed_u16(field: Seq<char>) -> Option<u16> {
    let body = if field.len() > 0 && field[0] == '+' {
        field.skip(1)
    } else {
        field
    };
    if body.len() > 0 && all_digits(body) && number(body) <= 65535 {
        Some(number(body) as u16)
    } else {
        None
    }
}

proof fn lemma_number_grows(s: Seq<char>, k: int)
    requires
        0 <= k <= s.len(),
    ensures
        number(s.take(k)) <= number(s),
    decreases s.len() - k,
{
    if k < s.len() {
        lemma_number_grows(s, k + 1);
        assert(s.take(k + 1).drop_last() =~= s.take(k));
    } else {
        assert(s.take(k) =~= s);
    }
}

/// Reads `chars[from..to]` as a 16-bit number.
pub fn parse_u16(chars: &Vec<char>, from: usize, to: usize) -> (out: Option<u16>)
    requires
        from <= to <= chars.len(),
    ensures
        out == parsed_u16(chars@.subrange(from as int, to as int)),
{
    let ghost field = chars@.subrange(from as int, to as int);
    let start = if from < to && chars[from] == '+' {
        from + 1
    } else {
        from
    };
    let ghost body = chars@.subrange(start as int, to as int);
    proof {
        if from < to && chars[from as int] == '+' {
            assert(field[0] == '+');
            assert(field.skip(1) =~= body);
        } else {
            if field.len() > 0 {
                assert(field[0] == chars[from as int]);
            }
            assert(field =~= body);
        }
    }
    if start == to {
        return None;
    }
    let ghost want = parsed_u16(field);
    let mut value: u32 = 0;
    let mut i = start;
    while i < to
        invariant
            start <= i <= to <= chars.len(),
            start < to,
            from <= start,
            body == chars@.subrange(start as int, to as int),
            want == parsed_u16(chars@.subrange(from as int, to as int)),
            want == if all_digits(body) && number(body) <= 65535 {
                Some(number(body) as u16)
            } else {
                None
            },
            all_digits(body.take(i - start)),
            value == number(body.take(i - start)),
            value <= 65535,
        decreases to - i,
    {
        let c = chars[i];
        proof {
            assert(body[i - start] == c);
            assert(body.take(i - start + 1).drop_last() =~= body.take(i - start));
        }
        if !('0' <= c && c <= '9') {
            return None;
        }
        let d = (c as u32) - ('0' as u32);
        value = value * 10 + d;
        if value > 65535 {
            proof {
                lemma_number_grows(body, i - start + 1);
            }
            return None;
        }
        i = i + 1;
    }
    proof {
        assert(body.take(to - start) =~= body);
    }
    Some(value as u16)
}

/// The code that one field of the parameters of an SGR sequence stands for:
/// zero for an empty field, nothing for a field that is no number, and any
/// other number, with 255 for what is above it.
pub open spec fn field_code(field: Seq<char>) -> Seq<u8> {
    if field.len() == 0 {
        seq![0u8]
    } else {
        match parsed_u16(field) {
            Some(v) => seq![
                if v <= 255 {
                    v as u8
                } else {
                    255u8
                },
            ],
            None => Seq::<u8>::empty(),
        }
    }
}

/// The codes of the parameters from position `from` on, behind the codes
/// `sofar`; the field that is being read began at `start`. Fields are
/// separated by `;`.
pub open spec fn codes_from(params: Seq<char>, from: int, start: int, sofar: Seq<u8>) -> Seq<u8>
    decreases params.len() - from,
{
    if from < 0 || from >= params.len() {
        sofar + field_code(params.subrange(start, params.len() as int))
    } else if params[from] == ';' {
        codes_from(params, from + 1, from + 1, sofar + field_code(params.subrange(start, from)))
    } else {
        codes_from(params, from + 1, start, sofar)
    }
}

/// The codes that the parameters of an SGR sequence stand for; empty
/// parameters stand for a reset.
pub open spec fn sgr_codes(params: Seq<char>) -> Seq<u8> {
    codes_from(params, 0, 0, Seq::<u8>::empty())
}

/// The style that switches the attributes of `mask` on and decides nothing
/// else.
pub open spec fn attr_style(mask: u16) -> StyleModel {
    StyleModel::plain().with(mask)
}

/// The style that sets the foreground colour and decides nothing else.
pub open spec fn fg_style(color: Color) -> StyleModel {
    StyleModel { color: Some(color), ..StyleModel::plain() }
}

/// The style that sets the background colour and decides nothing else.
pub open spec fn bg_style(color: Color) -> StyleModel {
    StyleModel { bgcolor: Some(color), ..StyleModel::plain() }
}

/// The attribute that an SGR code switches on, if it switches one on.
pub open spec fn attribute_on(code: u8) -> Option<u16> {
    if code == 1 {
        Some(Attributes::BOLD)
    } else if code == 2 {
        Some(Attributes::DIM)
    } else if code == 3 {
        Some(Attributes::ITALIC)
    } else if code == 4 {
        Some(Attributes::UNDERLINE)
    } else if code == 5 {
        Some(Attributes::BLINK)
    } else if code == 6 {
        Some(Attributes::BLINK2)
    } else if code == 7 {
        Some(Attributes::REVERSE)
    } else if code == 8 {
        Some(Attributes::CONCEAL)
    } else if code == 9 {
        Some(Attributes::STRIKE)
    } else if code == 21 {
        Some(Attributes::UNDERLINE2)
    } else if code == 51 {
        Some(Attributes::FRAME)
    } else if code == 52 {
        Some(Attributes::ENCIRCLE)
    } else if code == 53 {
        Some(Attributes::OVERLINE)
    } else {
        None
    }
}

/// The style after an SGR code that switches attributes off; `None` for a
/// code that does not.
pub open spec fn attributes_off(style: StyleModel, code: u8) -> Option<StyleModel> {
    if code == 22 {
        Some(style.without(Attributes::DIM).without(Attributes::BOLD))
    } else if code == 23 {
        Some(style.without(Attributes::ITALIC))
    } else if code == 24 {
        Some(style.without(Attributes::UNDERLINE).without(Attributes::UNDERLINE2))
    } else if code == 25 {
        Some(style.without(Attributes::BLINK))
    } else if code == 26 {
        Some(style.without(Attributes::BLINK2))
    } else if code == 27 {
        Some(style.without(Attributes::REVERSE))
    } else if code == 28 {
        Some(style.without(Attributes::CONCEAL))
    } else if code == 29 {
        Some(style.without(Attributes::STRIKE))
    } else if code == 54 {
        Some(style.without(Attributes::FRAME).without(Attributes::ENCIRCLE))
    } else if code == 55 {
        Some(style.without(Attributes::OVERLINE))
    } else {
        None
    }
}

/// The colour that an SGR code sets by itself, and whether it is the
/// background that gets it.
pub open spec fn simple_color(code: u8) -> Option<(Color, bool)> {
    if 30 <= code <= 37 {
        Some((Color::Ansi((code - 30) as u8), false))
    } else if code == 39 {
        Some((Color::Default, false))
    } else if 40 <= code <= 47 {
        Some((Color::Ansi((code - 40) as u8), true))
    } else if code == 49 {
        Some((Color::Default, true))
    } else if 90 <= code <= 97 {
        Some((Color::Ansi((code - 90 + 8) as u8), false))
    } else if 100 <= code <= 107 {
        Some((Color::Ansi((code - 100 + 8) as u8), true))
    } else {
        None
    }
}

/// `style` with a colour laid over it, on the background or the foreground.
pub open spec fn colored(style: StyleModel, color: Color, background: bool) -> StyleModel {
    if background {
        style.combined(bg_style(color))
    } else {
        style.combined(fg_style(color))
    }
}

/// The style after the SGR codes from position `i` on.
///
/// Code 0 resets to the null style. Codes 38 and 48 begin an extended
/// colour for the foreground or the background: `5, n` is the numbered
/// colour `n`, and `2, r, g, b` a colour by its parts; where the codes end
/// before the colour is complete, the rest has no effect. Codes that mean
/// nothing are passed over.
pub open spec fn sgr_from(style: StyleModel, codes: Seq<u8>, i: int) -> StyleModel
    decreases codes.len() - i,
{
    if i < 0 || i >= codes.len() {
        style
    } else {
        let code = codes[i];
        if code == 0 {
            sgr_from(StyleModel::null(), codes, i + 1)
        } else if attribute_on(code) is Some {
            sgr_from(style.combined(attr_style(attribute_on(code).unwrap())), codes, i + 1)
        } else if attributes_off(style, code) is Some {
            sgr_from(attributes_off(style, code).unwrap(), codes, i + 1)
        } else if simple_color(code) is Some {
            let (color, background) = simple_color(code).unwrap();
            sgr_from(colored(style, color, background), codes, i + 1)
        } else if code == 38 || code == 48 {
            if i + 1 >= codes.len() {
                style
            } else if codes[i + 1] == 5 {
                if i + 2 < codes.len() {
                    sgr_from(
                        colored(style, Color::Ansi(codes[i + 2]), code == 48),
                        codes,
                        i + 3,
                    )
                } else {
                    style
                }
            } else if codes[i + 1] == 2 {
                if i + 4 < codes.len() {
                    sgr_from(
                        colored(
                            style,
                            Color::Rgb(codes[i + 2], codes[i + 3], codes[i + 4]),
                            code == 48,
                        ),
                        codes,
                        i + 5,
                    )
                } else {
                    style
                }
            } else {
                sgr_from(style, codes, i + 2)
            }
        } else {
            sgr_from(style, codes, i + 1)
        }
    }
}

/// The style after an SGR sequence with the given parameters.
pub open spec fn sgr_applied(style: StyleModel, params: Seq<char>) -> StyleModel {
    sgr_from(style, sgr_codes(params), 0)
}

/// The style that switches the attributes of `attr` on.
pub fn style_with_attr(attr: u16) -> (style: Style)
    ensures
        style@ == attr_style(attr),
{
    let mut style = Style::new();
    style.attributes.insert(attr);
    style.set_attributes.insert(attr);
    style
}

/// The style that sets the foreground colour.
pub fn style_with_fg(color: Color) -> (style: Style)
    ensures
        style@ == fg_style(color),
{
    let mut style = Style::new();
    style.color = Some(color);
    style
}

/// The style that sets the background colour.
pub fn style_with_bg(color: Color) -> (style: Style)
    ensures
        style@ == bg_style(color),
{
    let mut style = Style::new();
    style.bgcolor = Some(color);
    style
}

/// Appends the code of the field `params[start..end]` to `codes`.
fn push_field(codes: &mut Vec<u8>, params: &Vec<char>, start: usize, end: usize)
    requires
        start <= end <= params.len(),
    ensures
        final(codes)@ == old(codes)@ + field_code(params@.subrange(start as int, end as int)),
{
    if start == end {
        codes.push(0);
    } else {
        match parse_u16(params, start, end) {
            Some(v) => {
                codes.push(
                    if v <= 255 {
                        v as u8
                    } else {
                        255
                    },
                );
            },
            None => {},
        }
    }
    proof {
        assert(codes@ =~= old(codes)@ + field_code(params@.subrange(start as int, end as int)));
    }
}

/// The codes of the parameters of an SGR sequence.
pub fn read_codes(params: &Vec<char>) -> (codes: Vec<u8>)
    ensures
        codes@ == sgr_codes(params@),
{
    let mut codes: Vec<u8> = Vec::new();
    let mut start: usize = 0;
    let mut from: usize = 0;
    while from < params.len()
        invariant
            start <= from <= params.len(),
            codes_from(params@, from as int, start as int, codes@) == sgr_codes(params@),
        decreases params.len() - from,
    {
        if params[from] == ';' {
            push_field(&mut codes, params, start, from);
            start = from + 1;
        }
        from = from + 1;
    }
    push_field(&mut codes, params, start, params.len());
    codes
}

/// `style` with `color` laid over it, on the background or the foreground.
fn with_color(style: &Style, color: Color, background: bool) -> (out: Style)
    ensures
        out@ == colored(style@, color, background),
{
    if background {
        style.combine(&style_with_bg(color))
    } else {
        style.combine(&style_with_fg(color))
    }
}

/// The attribute that an SGR code switches on.
fn on_mask(code: u8) -> (mask: Option<u16>)
    ensures
        mask == attribute_on(code),
{
    if code == 1 {
        Some(Attributes::BOLD)
    } else if code == 2 {
        Some(Attributes::DIM)
    } else if code == 3 {
        Some(Attributes::ITALIC)
    } else if code == 4 {
        Some(Attributes::UNDERLINE)
    } else if code == 5 {
        Some(Attributes::BLINK)
    } else if code == 6 {
        Some(Attributes::BLINK2)
    } else if code == 7 {
        Some(Attributes::REVERSE)
    } else if code == 8 {
        Some(Attributes::CONCEAL)
    } else if code == 9 {
        Some(Attributes::STRIKE)
    } else if code == 21 {
        Some(Attributes::UNDERLINE2)
    } else if code == 51 {
        Some(Attributes::FRAME)
    } else if code == 52 {
        Some(Attributes::ENCIRCLE)
    } else if code == 53 {
        Some(Attributes::OVERLINE)
    } else {
        None
    }
}

/// The style after an SGR code that switches attributes off.
fn switched_off(style: &Style, code: u8) -> (out: Option<Style>)
    ensures
        match out {
            Some(s) => attributes_off(style@, code) == Some(s@),
            None => attributes_off(style@, code) is None,
        },
{
    if code == 22 {
        Some(style.clone().not(Attributes::DIM).not(Attributes::BOLD))
    } else if code == 23 {
        Some(style.clone().not(Attributes::ITALIC))
    } else if code == 24 {
        Some(style.clone().not(Attributes::UNDERLINE).not(Attributes::UNDERLINE2))
    } else if code == 25 {
        Some(style.clone().not(Attributes::BLINK))
    } else if code == 26 {
        Some(style.clone().not(Attributes::BLINK2))
    } else if code == 27 {
        Some(style.clone().not(Attributes::REVERSE))
    } else if code == 28 {
        Some(style.clone().not(Attributes::CONCEAL))
    } else if code == 29 {
        Some(style.clone().not(Attributes::STRIKE))
    } else if code == 54 {
        Some(style.clone().not(Attributes::FRAME).not(Attributes::ENCIRCLE))
    } else if code == 55 {
        Some(style.clone().not(Attributes::OVERLINE))
    } else {
        None
    }
}

/// The colour that an SGR code sets by itself.
fn own_color(code: u8) -> (out: Option<(Color, bool)>)
    ensures
        out == simple_color(code),
{
    if 30 <= code && code <= 37 {
        Some((Color::from_ansi(code - 30), false))
    } else if code == 39 {
        Some((Color::Default, false))
    } else if 40 <= code && code <= 47 {
        Some((Color::from_ansi(code - 40), true))
    } else if code == 49 {
        Some((Color::Default, true))
    } else if 90 <= code && code <= 97 {
        Some((Color::from_ansi(code - 90 + 8), false))
    } else if 100 <= code && code <= 107 {
        Some((Color::from_ansi(code - 100 + 8), true))
    } else {
        None
    }
}

/// The style after the SGR codes `codes`.
pub fn apply_codes(style: Style, codes: &Vec<u8>) -> (out: Style)
    ensures
        out@ == sgr_from(style@, codes@, 0),
{
    let ghost want = sgr_from(style@, codes@, 0);
    let mut style = style;
    let mut i: usize = 0;
    let mut open = true;
    while open && i < codes.len()
        invariant
            i <= codes.len(),
            open ==> sgr_from(style@, codes@, i as int) == want,
            !open ==> style@ == want,
        decreases codes.len() - i + if open { 1int } else { 0int },
    {
        let code = codes[i];
        if code == 0 {
            style = Style::null();
            i = i + 1;
        } else if on_mask(code).is_some() {
            style = style.combine(&style_with_attr(on_mask(code).unwrap()));
            i = i + 1;
        } else if switched_off(&style, code).is_some() {
            style = switched_off(&style, code).unwrap();
            i = i + 1;
        } else if own_color(code).is_some() {
            let (color, background) = own_color(code).unwrap();
            style = with_color(&style, color, background);
            i = i + 1;
        } else if code == 38 || code == 48 {
            if codes.len() - i <= 1 {
                open = false;
            } else if codes[i + 1] == 5 {
                if codes.len() - i > 2 {
                    style = with_color(&style, Color::from_ansi(codes[i + 2]), code == 48);
                    i = i + 3;
                } else {
                    open = false;
                }
            } else if codes[i + 1] == 2 {
                if codes.len() - i > 4 {
                    style = with_color(
                        &style,
                        Color::from_rgb(codes[i + 2], codes[i + 3], codes[i + 4]),
                        code == 48,
                    );
                    i = i + 5;
                } else {
                    open = false;
                }
            } else {
                i = i + 2;
            }
        } else {
            i = i + 1;
        }
    }
    style
}

/// Whether a character ends a CSI sequence.
pub open spec fn is_final(c: char) -> bool {
    0x40 <= c as u32 && c as u32 <= 0x7e
}

/// Where the CSI sequence whose parameters are read from position `j` on
/// ends: the position of the first character that ends one.
pub open spec fn csi_end(line: Seq<char>, j: int) -> Option<int>
    decreases line.len() - j,
{
    if j < 0 || j >= line.len() {
        None
    } else if is_final(line[j]) {
        Some(j)
    } else {
        csi_end(line, j + 1)
    }
}

/// The CSI sequence that begins with the escape character at `esc`: the
/// position behind it, the character that ends it, and its parameters.
/// `None` for a sequence that does not end.
pub open spec fn csi_at(line: Seq<char>, esc: int) -> Option<(int, char, Seq<char>)> {
    match csi_end(line, esc + 2) {
        Some(j) => Some((j + 1, line[j], line.subrange(esc + 2, j))),
        None => None,
    }
}

/// Where the content of the OSC sequence that is read from position `j` on
/// ends: the position of the first escape character that a backslash
/// follows.
pub open spec fn osc_end(line: Seq<char>, j: int) -> Option<int>
    decreases line.len() - j,
{
    if j < 0 || j + 1 >= line.len() {
        None
    } else if line[j] == '\u{1b}' && line[j + 1] == '\\' {
        Some(j)
    } else {
        osc_end(line, j + 1)
    }
}

/// The OSC sequence that begins with the escape character at `esc`: the
/// position behind its terminator, and its content. `None` for a sequence
/// without terminator.
pub open spec fn osc_at(line: Seq<char>, esc: int) -> Option<(int, Seq<char>)> {
    match osc_end(line, esc + 2) {
        Some(j) => Some((j + 2, line.subrange(esc + 2, j))),
        None => None,
    }
}

/// A CSI sequence ends behind where its parameters begin.
pub proof fn lemma_csi_end(line: Seq<char>, j: int)
    requires
        0 <= j,
    ensures
        csi_end(line, j) matches Some(end) ==> j <= end < line.len() && is_final(line[end]),
    decreases line.len() - j,
{
    if j < line.len() && !is_final(line[j]) {
        lemma_csi_end(line, j + 1);
    }
}

/// The content of an OSC sequence ends behind where it begins, and its
/// terminator lies inside the line.
pub proof fn lemma_osc_end(line: Seq<char>, j: int)
    requires
        0 <= j,
    ensures
        osc_end(line, j) matches Some(end) ==> j <= end && end + 1 < line.len(),
    decreases line.len() - j,
{
    if j + 1 < line.len() && !(line[j] == '\u{1b}' && line[j + 1] == '\\') {
        lemma_osc_end(line, j + 1);
    }
}

/// The position of the first `;` in `s` from position `from` on.
pub open spec fn first_semicolon(s: Seq<char>, from: int) -> Option<int>
    decreases s.len() - from,
{
    if from < 0 || from >= s.len() {
        None
    } else if s[from] == ';' {
        Some(from)
    } else {
        first_semicolon(s, from + 1)
    }
}

/// A style that decides nothing becomes the null style.
pub open spec fn normalized(style: StyleModel) -> StyleModel {
    if style.is_blank() {
        StyleModel::null()
    } else {
        style
    }
}

/// The style after an OSC sequence with the given content. Only OSC 8 has
/// an effect, `8;params;url`: an empty url clears the hyperlink, any other
/// sets it; the params are not looked at.
pub open spec fn osc_applied(style: StyleModel, content: Seq<char>) -> StyleModel {
    if content.len() >= 2 && content[0] == '8' && content[1] == ';' {
        match first_semicolon(content, 2) {
            None => style,
            Some(k) => {
                let link = content.skip(k + 1);
                if link.len() == 0 {
                    normalized(StyleModel { link: None, link_id: None, ..style })
                } else {
                    StyleModel { link: Some(link), null: false, ..style }
                }
            },
        }
    } else {
        style
    }
}

/// A text with `plain` behind it, drawn in `style`: without a span where
/// the style is the null style, with a span over what was added otherwise.
/// Nothing changes where `plain` is empty.
pub open spec fn appended(text: TextModel, style: StyleModel, plain: Seq<char>) -> TextModel {
    if plain.len() == 0 {
        text
    } else if style.null {
        TextModel { plain: text.plain + plain, ..text }
    } else {
        TextModel {
            plain: text.plain + plain,
            spans: text.spans.push(
                SpanModel {
                    start: text.plain.len() as usize,
                    end: clip(text.plain.len() + plain.len()),
                    style,
                },
            ),
            ..text
        }
    }
}

/// A line being decoded: the style in effect and the text read so far.
pub struct Decoding {
    pub style: StyleModel,
    pub text: TextModel,
}

/// The decoding with the plain text `line[from..to]` added, if there is
/// any.
pub open spec fn flushed(d: Decoding, line: Seq<char>, from: int, to: int) -> Decoding {
    if 0 <= from < to <= line.len() {
        Decoding { style: d.style, text: appended(d.text, d.style, line.subrange(from, to)) }
    } else {
        d
    }
}

/// The decoding of a line from position `i` on; the plain text that is
/// being read began at `plain_start`.
///
/// Plain text runs up to the next escape character. Behind an escape
/// character, `(` skips one more character, `[` begins a CSI sequence, of
/// which those that end in `m` set the style, `]` begins an OSC sequence,
/// and any other character is skipped. A CSI or OSC sequence that does not
/// end is taken as text, without its escape character. An escape character
/// at the very end of the line ends the decoding, and what was plain text
/// before it is added once more, with the escape character.
pub open spec fn decoded_from(d: Decoding, line: Seq<char>, i: int, plain_start: int) -> Decoding
    decreases line.len() - i,
    via decoded_from_decreases
{
    if i < 0 || i >= line.len() {
        flushed(d, line, plain_start, line.len() as int)
    } else if line[i] != '\u{1b}' {
        decoded_from(d, line, i + 1, plain_start)
    } else {
        let d1 = flushed(d, line, plain_start, i);
        if i + 1 >= line.len() {
            flushed(d1, line, plain_start, line.len() as int)
        } else if line[i + 1] == '(' {
            let next = if i + 2 < line.len() {
                i + 3
            } else {
                line.len() as int
            };
            decoded_from(d1, line, next, next)
        } else if line[i + 1] == '[' {
            match csi_at(line, i) {
                None => decoded_from(d1, line, i + 1, i + 1),
                Some((next, last, params)) => {
                    let d2 = if last == 'm' {
                        Decoding { style: sgr_applied(d1.style, params), text: d1.text }
                    } else {
                        d1
                    };
                    decoded_from(d2, line, next, next)
                },
            }
        } else if line[i + 1] == ']' {
            match osc_at(line, i) {
                None => decoded_from(d1, line, i + 1, i + 1),
                Some((next, content)) => decoded_from(
                    Decoding { style: osc_applied(d1.style, content), text: d1.text },
                    line,
                    next,
                    next,
                ),
            }
        } else {
            decoded_from(d1, line, i + 2, i + 2)
        }
    }
}

#[via_fn]
proof fn decoded_from_decreases(d: Decoding, line: Seq<char>, i: int, plain_start: int) {
    if 0 <= i && i + 1 < line.len() {
        lemma_csi_end(line, i + 2);
        lemma_osc_end(line, i + 2);
    }
}

/// What stands behind the last carriage return of a line; the whole line
/// if it has none.
pub open spec fn after_last_return(line: Seq<char>, upto: int) -> Seq<char>
    decreases upto,
{
    if upto <= 0 || upto > line.len() {
        line
    } else if line[upto - 1] == '\r' {
        line.skip(upto)
    } else {
        after_last_return(line, upto - 1)
    }
}

/// A line decoded with `style` in effect at its beginning: the text, and
/// the style in effect at its end. What stands before the last carriage
/// return is dropped.
pub open spec fn decoded_line(style: StyleModel, line: Seq<char>) -> Decoding {
    decoded_from(
        Decoding {
            style,
            text: TextModel {
                plain: Seq::<char>::empty(),
                spans: Seq::<SpanModel>::empty(),
                style: StyleModel::null(),
            },
        },
        after_last_return(line, line.len() as int),
        0,
        0,
    )
}

/// The texts of the first `k` lines, decoded one after the other beginning
/// with `style`, each line beginning with the style in which the one
/// before it ended; and the style in effect behind them.
pub open spec fn decoded_lines(style: StyleModel, lines: Seq<Seq<char>>, k: int) -> (
    Seq<TextModel>,
    StyleModel,
)
    decreases k,
{
    if k <= 0 {
        (Seq::<TextModel>::empty(), style)
    } else {
        let (texts, before) = decoded_lines(style, lines, k - 1);
        let d = decoded_line(before, lines[k - 1]);
        (texts.push(d.text), d.style)
    }
}

/// The texts of a list.
pub open spec fn text_models(texts: Seq<Text>) -> Seq<TextModel> {
    Seq::new(texts.len(), |i: int| texts[i]@)
}

/// Reads the CSI sequence that begins at `esc_pos`: the position behind it,
/// the character that ends it, and its parameters.
pub fn parse_csi(line: &Vec<char>, esc_pos: usize) -> (out: Option<(usize, char, Vec<char>)>)
    requires
        esc_pos + 1 < line.len(),
        line[esc_pos as int] == '\u{1b}',
        line[esc_pos + 1] == '[',
    ensures
        match out {
            Some((next, last, params)) => csi_at(line@, esc_pos as int) == Some(
                (next as int, last, params@),
            ),
            None => csi_at(line@, esc_pos as int) is None,
        },
{
    let mut j = esc_pos + 2;
    while j < line.len()
        invariant
            esc_pos + 2 <= j <= line.len(),
            csi_end(line@, j as int) == csi_end(line@, esc_pos + 2),
        decreases line.len() - j,
    {
        let c = line[j];
        if 0x40 <= c as u32 && c as u32 <= 0x7e {
            let mut params: Vec<char> = Vec::new();
            let mut k = esc_pos + 2;
            while k < j
                invariant
                    esc_pos + 2 <= k <= j < line.len(),
                    params@ == line@.subrange(esc_pos + 2, k as int),
                decreases j - k,
            {
                params.push(line[k]);
                proof {
                    assert(line@.subrange(esc_pos + 2, k + 1) =~= line@.subrange(
                        esc_pos + 2,
                        k as int,
                    ).push(line@[k as int]));
                }
                k = k + 1;
            }
            return Some((j + 1, c, params));
        }
        j = j + 1;
    }
    None
}

/// Reads the OSC sequence that begins at `esc_pos`: the position behind its
/// terminator, and its content.
pub fn parse_osc(line: &Vec<char>, esc_pos: usize) -> (out: Option<(usize, Vec<char>)>)
    requires
        esc_pos + 1 < line.len(),
        line[esc_pos as int] == '\u{1b}',
        line[esc_pos + 1] == ']',
    ensures
        match out {
            Some((next, content)) => osc_at(line@, esc_pos as int) == Some(
                (next as int, content@),
            ),
            None => osc_at(line@, esc_pos as int) is None,
        },
{
    let mut j = esc_pos + 2;
    while j < line.len() && line.len() - j > 1
        invariant
            esc_pos + 2 <= j <= line.len(),
            osc_end(line@, j as int) == osc_end(line@, esc_pos + 2),
        decreases line.len() - j,
    {
        if line[j] == '\u{1b}' && line[j + 1] == '\\' {
            let mut content: Vec<char> = Vec::new();
            let mut k = esc_pos + 2;
            while k < j
                invariant
                    esc_pos + 2 <= k <= j < line.len(),
                    content@ == line@.subrange(esc_pos + 2, k as int),
                decreases j - k,
            {
                content.push(line[k]);
                proof {
                    assert(line@.subrange(esc_pos + 2, k + 1) =~= line@.subrange(
                        esc_pos + 2,
                        k as int,
                    ).push(line@[k as int]));
                }
                k = k + 1;
            }
            return Some((j + 2, content));
        }
        j = j + 1;
    }
    None
}

/// Stateful ANSI decoder: reads lines of terminal output and keeps the
/// style in effect from one line to the next.
#[derive(Debug)]
pub struct AnsiDecoder {
    style: Style,
}

impl Clone for AnsiDecoder {
    fn clone(&self) -> (out: AnsiDecoder)
        ensures
            out@ == self@,
    {
        AnsiDecoder { style: self.style.clone() }
    }
}

impl View for AnsiDecoder {
    type V = StyleModel;

    closed spec fn view(&self) -> StyleModel {
        self.style@
    }
}

impl Default for AnsiDecoder {
    fn default() -> (out: AnsiDecoder)
        ensures
            out@ == StyleModel::null(),
    {
        AnsiDecoder { style: Style::null() }
    }
}

impl AnsiDecoder {
    /// A decoder with the null style in effect.
    pub fn new() -> (out: AnsiDecoder)
        ensures
            out@ == StyleModel::null(),
    {
        AnsiDecoder { style: Style::null() }
    }

    /// Adds `plain` to `text` in the style in effect.
    pub fn append_plain(&self, text: &mut Text, plain: &str)
        ensures
            final(text)@ == appended(old(text)@, self@, plain@),
    {
        if plain.unicode_len() == 0 {
            return ;
        }
        if self.style.is_null() {
            text.append(plain);
        } else {
            text.append_styled(plain, self.style.clone());
        }
    }

    /// Makes the style in effect the null style if it decides nothing.
    pub fn normalize_style_nullness(&mut self)
        ensures
            final(self)@ == normalized(old(self)@),
    {
        if self.style.attributes.is_empty() && self.style.set_attributes.is_empty()
            && self.style.color.is_none() && self.style.bgcolor.is_none()
            && self.style.link.is_none() && self.style.link_id.is_none() {
            self.style = Style::null();
        }
    }

    /// Applies an OSC sequence with the given content to the style in
    /// effect.
    pub fn apply_osc(&mut self, content: &Vec<char>)
        ensures
            final(self)@ == osc_applied(old(self)@, content@),
    {
        if !(content.len() >= 2 && content[0] == '8' && content[1] == ';') {
            return ;
        }
        let mut k: usize = 2;
        while k < content.len() && content[k] != ';'
            invariant
                2 <= k <= content.len(),
                first_semicolon(content@, k as int) == first_semicolon(content@, 2),
            decreases content.len() - k,
        {
            k = k + 1;
        }
        if k == content.len() {
            return ;
        }
        if k + 1 == content.len() {
            proof {
                assert(content@.skip(k + 1) =~= Seq::<char>::empty());
            }
            self.style.link = None;
            self.style.link_id = None;
            self.normalize_style_nullness();
        } else {
            let link = string_of(content, k + 1, content.len());
            proof {
                assert(content@.subrange(k + 1, content.len() as int) =~= content@.skip(k + 1));
            }
            self.style = self.style.clone().link(link);
        }
    }

    /// Applies an SGR sequence with the given parameters to the style in
    /// effect.
    pub fn apply_sgr(&mut self, params: &Vec<char>)
        ensures
            final(self)@ == sgr_applied(old(self)@, params@),
    {
        let codes = read_codes(params);
        self.style = apply_codes(self.style.clone(), &codes);
    }

    /// Adds the plain text `line[from..to]` to `text`, if there is any.
    fn flush(&self, text: &mut Text, line: &Vec<char>, from: usize, to: usize)
        requires
            to <= line.len(),
        ensures
            (Decoding { style: self@, text: final(text)@ }) == flushed(
                Decoding { style: self@, text: old(text)@ },
                line@,
                from as int,
                to as int,
            ),
    {
        if from < to {
            let plain = string_of(line, from, to);
            self.append_plain(text, plain.as_str());
        }
    }

    /// Decode a single line containing ANSI escapes into a text.
    ///
    /// Everything before the last carriage return is dropped. Escape
    /// sequences change the style in effect, and plain text is added in the
    /// style in effect, or without a style under the null style.
    pub fn decode_line(&mut self, line: &str) -> (text: Text)
        ensures
            text@ == decoded_line(old(self)@, line@).text,
            final(self)@ == decoded_line(old(self)@, line@).style,
    {
        let all = chars_of(line);
        let mut cut = all.len();
        while cut > 0 && all[cut - 1] != '\r'
            invariant
                cut <= all.len(),
                after_last_return(all@, cut as int) == after_last_return(
                    all@,
                    all.len() as int,
                ),
            decreases cut,
        {
            cut = cut - 1;
        }
        let mut chars: Vec<char> = Vec::new();
        let mut k = cut;
        while k < all.len()
            invariant
                cut <= k <= all.len(),
                chars@ == all@.subrange(cut as int, k as int),
            decreases all.len() - k,
        {
            chars.push(all[k]);
            proof {
                assert(all@.subrange(cut as int, k + 1) =~= all@.subrange(
                    cut as int,
                    k as int,
                ).push(all@[k as int]));
            }
            k = k + 1;
        }
        proof {
            assert(all@.subrange(cut as int, all.len() as int) =~= all@.skip(cut as int));
            if cut == 0 {
                assert(all@.skip(0) =~= all@);
            }
        }
        let mut text = Text::new("");
        text.set_style(Style::null());
        proof {
            reveal_strlit("");
            assert(""@ =~= Seq::<char>::empty());
        }
        let ghost want = decoded_line(self@, line@);
        let n = chars.len();
        let mut i: usize = 0;
        let mut plain_start: usize = 0;
        let mut open = true;
        while open && i < n
            invariant
                i <= n,
                n == chars.len(),
                open ==> decoded_from(
                    Decoding { style: self@, text: text@ },
                    chars@,
                    i as int,
                    plain_start as int,
                ) == want,
                !open ==> flushed(
                    Decoding { style: self@, text: text@ },
                    chars@,
                    plain_start as int,
                    n as int,
                ) == want,
            decreases n - i + if open { 1int } else { 0int },
        {
            if chars[i] != '\u{1b}' {
                i = i + 1;
            } else {
                self.flush(&mut text, &chars, plain_start, i);
                if n - i <= 1 {
                    open = false;
                } else {
                    let c = chars[i + 1];
                    if c == '(' {
                        i = if n - i > 2 {
                            i + 3
                        } else {
                            n
                        };
                        plain_start = i;
                    } else if c == '[' {
                        proof {
                            lemma_csi_end(chars@, i + 2);
                        }
                        match parse_csi(&chars, i) {
                            None => {
                                i = i + 1;
                                plain_start = i;
                            },
                            Some((next, last, params)) => {
                                if last == 'm' {
                                    self.apply_sgr(&params);
                                }
                                i = next;
                                plain_start = i;
                            },
                        }
                    } else if c == ']' {
                        proof {
                            lemma_osc_end(chars@, i + 2);
                        }
                        match parse_osc(&chars, i) {
                            None => {
                                i = i + 1;
                                plain_start = i;
                            },
                            Some((next, content)) => {
                                self.apply_osc(&content);
                                i = next;
                                plain_start = i;
                            },
                        }
                    } else {
                        i = i + 2;
                        plain_start = i;
                    }
                }
            }
        }
        self.flush(&mut text, &chars, plain_start, n);
        text
    }

    /// Decode a string containing ANSI escapes into a list of texts, one
    /// for each line.
    pub fn decode(&mut self, terminal_text: &str) -> (texts: Vec<Text>)
        ensures
            ({
                let lines = lines_from(terminal_text@, 0, 0, Seq::<Seq<char>>::empty());
                let (want, style) = decoded_lines(old(self)@, lines, lines.len() as int);
                text_models(texts@) == want && final(self)@ == style
            }),
    {
        let chars = chars_of(terminal_text);
        let ghost first = self@;
        let ghost all = lines_from(chars@, 0, 0, Seq::<Seq<char>>::empty());
        let ghost mut seen: Seq<Seq<char>> = Seq::empty();
        let mut texts: Vec<Text> = Vec::new();
        let mut start: usize = 0;
        let mut from: usize = 0;
        while from < chars.len()
            invariant
                start <= from <= chars.len(),
                chars@ == terminal_text@,
                lines_from(chars@, from as int, start as int, seen) == all,
                texts.len() == seen.len(),
                (text_models(texts@), self@) == decoded_lines(first, seen, seen.len() as int),
            decreases chars.len() - from,
        {
            if chars[from] == '\n' {
                let end = if start < from && chars[from - 1] == '\r' {
                    from - 1
                } else {
                    from
                };
                let line = string_of(&chars, start, end);
                proof {
                    let raw = chars@.subrange(start as int, from as int);
                    if raw.len() > 0 && raw.last() == '\r' {
                        assert(raw.drop_last() =~= line@);
                    } else {
                        assert(raw =~= line@);
                    }
                }
                let ghost before = text_models(texts@);
                let ghost was = seen;
                let text = self.decode_line(line.as_str());
                texts.push(text);
                proof {
                    seen = seen.push(line@);
                    assert(decoded_lines(first, seen, seen.len() - 1) == decoded_lines(
                        first,
                        was,
                        was.len() as int,
                    )) by {
                        lemma_decoded_lines_prefix(first, was, seen, was.len() as int);
                    }
                    assert(text_models(texts@) =~= before.push(text@));
                }
                start = from + 1;
            }
            from = from + 1;
        }
        if start < chars.len() {
            let line = string_of(&chars, start, chars.len());
            let ghost before = text_models(texts@);
            let ghost was = seen;
            let text = self.decode_line(line.as_str());
            texts.push(text);
            proof {
                seen = seen.push(line@);
                assert(decoded_lines(first, seen, seen.len() - 1) == decoded_lines(
                    first,
                    was,
                    was.len() as int,
                )) by {
                    lemma_decoded_lines_prefix(first, was, seen, was.len() as int);
                }
                assert(text_models(texts@) =~= before.push(text@));
            }
        }
        texts
    }
}

/// Decoding the first lines of a list does not depend on the lines behind
/// them.
pub proof fn lemma_decoded_lines_prefix(
    style: StyleModel,
    short: Seq<Seq<char>>,
    long: Seq<Seq<char>>,
    k: int,
)
    requires
        0 <= k <= short.len() <= long.len(),
        forall|i: int| 0 <= i < short.len() ==> short[i] == long[i],
    ensures
        decoded_lines(style, short, k) == decoded_lines(style, long, k),
    decreases k,
{
    if k > 0 {
        lemma_decoded_lines_prefix(style, short, long, k - 1);
    }
}

} // verus!

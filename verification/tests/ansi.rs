use rich_rust::ansi::{
    apply_codes, parse_csi, parse_osc, parse_u16, read_codes, style_with_attr, style_with_bg,
    style_with_fg, AnsiDecoder,
};
use rich_rust::style::{Attributes, Color, Style};
use rich_rust::text::Text;

fn chars(s: &str) -> Vec<char> {
    s.chars().collect()
}

#[test]
fn decode_line_plain_text() {
    let mut decoder = AnsiDecoder::new();
    let text = decoder.decode_line("hello");
    assert_eq!(text.plain(), "hello");
}

#[test]
fn decode_line_sgr_bold_red_reset() {
    let mut decoder = AnsiDecoder::new();
    let text = decoder.decode_line("\u{1b}[1;31mHi\u{1b}[0m!");
    let rendered = text.render("");
    // There should be at least one styled segment (the "Hi").
    assert!(rendered.iter().any(|seg| seg.text.contains("Hi")));
    assert_eq!(text.plain(), "Hi!");
}

#[test]
fn decode_line_osc8_link_set_and_clear() {
    let mut decoder = AnsiDecoder::new();
    let s = "\u{1b}]8;;https://example.com\u{1b}\\link\u{1b}]8;;\u{1b}\\";
    let text = decoder.decode_line(s);
    assert_eq!(text.plain(), "link");
    let segments = text.render("");
    assert!(
        segments
            .iter()
            .filter_map(|seg| seg.style.as_ref())
            .any(|style| style.link.as_deref() == Some("https://example.com")),
        "expected a segment style with OSC8 link"
    );
}

#[test]
fn sgr_styles_the_text_behind_it() {
    let mut decoder = AnsiDecoder::new();
    let text = decoder.decode_line("\u{1b}[1;31mHi\u{1b}[0m!");
    let segments = text.render("");
    assert_eq!(segments.len(), 2);
    assert_eq!(segments[0].text, "Hi");
    let style = segments[0].style.as_ref().unwrap();
    assert!(style.attributes.contains(Attributes::BOLD));
    assert_eq!(style.color, Some(Color::Ansi(1)));
    assert_eq!(segments[1].text, "!");
    assert!(segments[1].style.is_none());
    assert_eq!(text.spans().len(), 1);
    assert_eq!((text.spans()[0].start, text.spans()[0].end), (0, 2));
}

#[test]
fn style_carries_over_to_the_next_line() {
    let mut decoder = AnsiDecoder::new();
    let texts = decoder.decode("\u{1b}[3mone\r\ntwo\u{1b}[0m\nthree\n");
    assert_eq!(texts.len(), 3);
    assert_eq!(texts[0].plain(), "one");
    assert_eq!(texts[1].plain(), "two");
    assert_eq!(texts[2].plain(), "three");
    let second = texts[1].render("");
    assert!(second[0].style.as_ref().unwrap().attributes.contains(Attributes::ITALIC));
    assert!(texts[2].spans().is_empty());
    assert!(decoder.decode("").is_empty());
    assert_eq!(decoder.decode("tail\r").len(), 1);
}

#[test]
fn carriage_return_drops_what_is_before_it() {
    let mut decoder = AnsiDecoder::new();
    assert_eq!(decoder.decode_line("progress 10%\rprogress 20%").plain(), "progress 20%");
    assert_eq!(decoder.decode_line("gone\r").plain(), "");
}

#[test]
fn other_sequences_are_skipped() {
    let mut decoder = AnsiDecoder::new();
    assert_eq!(decoder.decode_line("a\u{1b}(Bb").plain(), "ab");
    assert_eq!(decoder.decode_line("a\u{1b}[2Kb").plain(), "ab");
    assert_eq!(decoder.decode_line("a\u{1b}=b").plain(), "ab");
    assert_eq!(decoder.decode_line("a\u{1b}]0;title\u{1b}\\b").plain(), "ab");
    assert_eq!(decoder.decode_line("a\u{1b}(").plain(), "a");
}

#[test]
fn sequences_that_do_not_end_are_text() {
    let mut decoder = AnsiDecoder::new();
    assert_eq!(decoder.decode_line("a\u{1b}[12;3").plain(), "a[12;3");
    assert_eq!(decoder.decode_line("a\u{1b}]8;;x").plain(), "a]8;;x");
}

#[test]
fn escape_at_the_end_repeats_the_plain_text() {
    let mut decoder = AnsiDecoder::new();
    assert_eq!(decoder.decode_line("abc\u{1b}").plain(), "abcabc\u{1b}");
}

#[test]
fn codes_are_read_from_parameters() {
    assert_eq!(read_codes(&chars("")), vec![0]);
    assert_eq!(read_codes(&chars("1;31")), vec![1, 31]);
    assert_eq!(read_codes(&chars("1;;x;300;+7;65536;")), vec![1, 0, 255, 7, 0]);
    assert_eq!(read_codes(&chars("x")), Vec::<u8>::new());
}

#[test]
fn numbers_are_parsed_like_u16() {
    let text = chars("+12a00065535x65536");
    assert_eq!(parse_u16(&text, 0, 3), Some(12));
    assert_eq!(parse_u16(&text, 0, 1), None);
    assert_eq!(parse_u16(&text, 1, 4), None);
    assert_eq!(parse_u16(&text, 4, 12), Some(65535));
    assert_eq!(parse_u16(&text, 13, 18), None);
    assert_eq!(parse_u16(&text, 3, 3), None);
    for n in [0u16, 7, 255, 256, 40000, 65535] {
        let digits = chars(&n.to_string());
        assert_eq!(parse_u16(&digits, 0, digits.len()), Some(n));
    }
}

#[test]
fn extended_colours() {
    let fg = apply_codes(Style::null(), &vec![38, 5, 200]);
    assert_eq!(fg.color, Some(Color::Ansi(200)));
    let bg = apply_codes(Style::null(), &vec![48, 2, 1, 2, 3, 1]);
    assert_eq!(bg.bgcolor, Some(Color::Rgb(1, 2, 3)));
    assert!(bg.attributes.contains(Attributes::BOLD));
    let cut = apply_codes(Style::new().bold(), &vec![38, 2, 1, 2]);
    assert_eq!(cut.color, None);
    assert!(cut.attributes.contains(Attributes::BOLD));
    let unknown = apply_codes(Style::null(), &vec![38, 9, 1]);
    assert!(unknown.attributes.contains(Attributes::BOLD));
    let bright = apply_codes(Style::null(), &vec![91, 104, 39]);
    assert_eq!(bright.color, Some(Color::Default));
    assert_eq!(bright.bgcolor, Some(Color::Ansi(12)));
}

#[test]
fn attributes_switch_on_and_off() {
    let style = apply_codes(Style::null(), &vec![1, 2, 4, 21, 22, 24, 9]);
    assert!(!style.attributes.contains(Attributes::BOLD));
    assert!(!style.attributes.contains(Attributes::DIM));
    assert!(!style.attributes.contains(Attributes::UNDERLINE));
    assert!(style.attributes.contains(Attributes::STRIKE));
    assert!(style.set_attributes.contains(Attributes::BOLD));
    let reset = apply_codes(style, &vec![0]);
    assert!(reset.is_null());
    let framed = apply_codes(Style::null(), &vec![51, 52, 53, 54, 55, 7, 27, 77]);
    assert!(framed.attributes.is_empty());
    assert!(!framed.is_null());
}

#[test]
fn csi_and_osc_are_parsed() {
    let line = chars("x\u{1b}[1;2mrest");
    let (next, last, params) = parse_csi(&line, 1).unwrap();
    assert_eq!((next, last), (7, 'm'));
    assert_eq!(params, chars("1;2"));
    assert!(parse_csi(&chars("\u{1b}[12"), 0).is_none());
    let line = chars("\u{1b}]8;;u\u{1b}\\z");
    let (next, content) = parse_osc(&line, 0).unwrap();
    assert_eq!(next, 8);
    assert_eq!(content, chars("8;;u"));
    assert!(parse_osc(&chars("\u{1b}]8;;u\u{1b}"), 0).is_none());
}

#[test]
fn osc_sets_and_clears_the_link() {
    let mut decoder = AnsiDecoder::new();
    decoder.apply_osc(&chars("8;id=1;http://a"));
    let mut text = Text::new("");
    decoder.append_plain(&mut text, "x");
    assert_eq!(text.spans()[0].style.link.as_deref(), Some("http://a"));
    decoder.apply_osc(&chars("9;;http://b"));
    decoder.apply_osc(&chars("8;http://c"));
    decoder.append_plain(&mut text, "");
    decoder.append_plain(&mut text, "y");
    assert_eq!(text.spans()[1].style.link.as_deref(), Some("http://a"));
    decoder.apply_osc(&chars("8;;"));
    decoder.append_plain(&mut text, "z");
    assert_eq!(text.spans().len(), 2);
    assert_eq!(text.plain(), "xyz");
    decoder.apply_sgr(&chars("1"));
    decoder.apply_osc(&chars("8;;l"));
    decoder.apply_osc(&chars("8;;"));
    decoder.normalize_style_nullness();
    decoder.append_plain(&mut text, "b");
    assert!(text.spans()[2].style.attributes.contains(Attributes::BOLD));
    assert_eq!(text.spans()[2].style.link, None);
}

#[test]
fn single_purpose_styles() {
    let attr = style_with_attr(Attributes::DIM);
    assert!(attr.attributes.contains(Attributes::DIM));
    assert!(attr.set_attributes.contains(Attributes::DIM));
    assert_eq!(style_with_fg(Color::Ansi(3)).color, Some(Color::Ansi(3)));
    assert_eq!(style_with_bg(Color::Default).bgcolor, Some(Color::Default));
    assert!(!style_with_fg(Color::Default).is_null());
}

#[test]
fn decoder_can_be_cloned_and_defaulted() {
    let mut decoder = AnsiDecoder::default();
    decoder.apply_sgr(&chars("4"));
    let mut copy = decoder.clone();
    let text = copy.decode_line("u");
    assert!(text.spans()[0].style.attributes.contains(Attributes::UNDERLINE));
}

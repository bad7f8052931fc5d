use rich_rust::cells::{cell_len, char_cells};
use rich_rust::segment::{adjust_line_length, set_cell_size, split_lines, Segment};
use rich_rust::strings::{decimal_string, repeat_char, same_text};
use rich_rust::style::{Attributes, Color, Style};
use rich_rust::text::Text;

fn texts(line: &[Segment]) -> Vec<&str> {
    line.iter().map(|s| s.text.as_str()).collect()
}

#[test]
fn cell_widths() {
    assert_eq!(char_cells('a'), 1);
    assert_eq!(char_cells(' '), 1);
    assert_eq!(char_cells('\n'), 0);
    assert_eq!(char_cells('\u{4f60}'), 2);
    assert_eq!(char_cells('\u{301}'), 0);
    assert_eq!(cell_len("ab\u{4f60}\u{597d}"), 6);
    assert_eq!(cell_len(""), 0);
}

#[test]
fn set_cell_size_cuts_and_pads() {
    assert_eq!(set_cell_size("abc", 5), "abc  ");
    assert_eq!(set_cell_size("abcdef", 3), "abc");
    assert_eq!(set_cell_size("abc", 3), "abc");
    assert_eq!(set_cell_size("\u{4f60}\u{597d}", 3), "\u{4f60} ");
    assert_eq!(set_cell_size("\u{4f60}", 1), " ");
    assert_eq!(set_cell_size("abc", 0), "");
}

#[test]
fn adjust_line_length_pads_and_crops() {
    let line = vec![Segment::plain("ab"), Segment::plain("cd")];
    let padded = adjust_line_length(line.clone(), 6, None, true);
    assert_eq!(texts(&padded), vec!["ab", "cd", "  "]);
    let unpadded = adjust_line_length(line.clone(), 6, None, false);
    assert_eq!(texts(&unpadded), vec!["ab", "cd"]);
    let cropped = adjust_line_length(line.clone(), 3, None, true);
    assert_eq!(texts(&cropped), vec!["ab", "c"]);
    let same = adjust_line_length(line.clone(), 4, None, true);
    assert_eq!(texts(&same), vec!["ab", "cd"]);
    let none = adjust_line_length(line, 0, None, true);
    assert_eq!(texts(&none), vec![""]);
    let styled = adjust_line_length(vec![], 2, Some(Style::new().bold()), true);
    assert!(styled[0].style.as_ref().unwrap().attributes.contains(Attributes::BOLD));
}

#[test]
fn crop_keeps_control_segments() {
    let line = vec![Segment::plain("ab"), Segment::control("\u{1b}[0m"), Segment::plain("cd")];
    let cropped = adjust_line_length(line, 3, None, true);
    assert_eq!(texts(&cropped), vec!["ab", "\u{1b}[0m", "c"]);
    assert!(cropped[1].is_control());
    assert_eq!(cropped[1].cell_length(), 0);
}

#[test]
fn split_lines_breaks_at_line_feeds() {
    let lines = split_lines(vec![Segment::plain("a\nb"), Segment::plain("c\n"), Segment::line()]);
    let got: Vec<Vec<&str>> = lines.iter().map(|l| texts(l)).collect();
    assert_eq!(got, vec![vec!["a"], vec!["b", "c"], vec![]]);
    assert!(split_lines(vec![]).is_empty());
    assert_eq!(split_lines(vec![Segment::plain("")]).len(), 1);
    assert_eq!(split_lines(vec![Segment::control("x\ny")]).len(), 1);
}

#[test]
fn text_renders_runs_of_one_style() {
    let mut text = Text::new("plain");
    text.append_styled("bold", Style::new().bold());
    text.append("tail");
    let segments = text.render("\n");
    assert_eq!(texts(&segments), vec!["plain", "bold", "tail", "\n"]);
    assert!(segments[1].style.as_ref().unwrap().attributes.contains(Attributes::BOLD));
    assert!(segments[0].style.is_some());
    assert_eq!(text.len(), 13);
    assert_eq!(text.cell_len(), 13);
}

#[test]
fn text_spans_overlay_in_order() {
    let mut text = Text::new("abcdef");
    text.set_style(Style::null());
    text.stylize(1, 4, Style::new().bold());
    text.stylize(3, 99, Style::new().color(Color::Ansi(2)));
    text.stylize(4, 4, Style::new().italic());
    text.stylize(9, 12, Style::new().italic());
    assert_eq!(text.spans().len(), 2);
    assert_eq!(text.spans()[1].end, 6);
    let segments = text.render("");
    assert_eq!(texts(&segments), vec!["a", "bc", "d", "ef"]);
    assert!(segments[0].style.is_none());
    let both = segments[2].style.as_ref().unwrap();
    assert!(both.attributes.contains(Attributes::BOLD));
    assert_eq!(both.color, Some(Color::Ansi(2)));
    assert!(!segments[3].style.as_ref().unwrap().attributes.contains(Attributes::BOLD));
    let copy = text.clone();
    assert_eq!(copy.plain(), "abcdef");
    assert_eq!(copy.spans().len(), 2);
}

#[test]
fn styles_combine() {
    let base = Style::new().bold().color(Color::Ansi(1));
    let over = Style::new().not(Attributes::BOLD).italic().bgcolor(Color::Rgb(1, 2, 3));
    let both = base.combine(&over);
    assert!(!both.attributes.contains(Attributes::BOLD));
    assert!(both.attributes.contains(Attributes::ITALIC));
    assert_eq!(both.color, Some(Color::Ansi(1)));
    assert_eq!(both.bgcolor, Some(Color::Rgb(1, 2, 3)));
    assert!(base.combine(&Style::null()).same_as(&base));
    assert!(Style::null().combine(&over).same_as(&over));
    assert!(!base.same_as(&over));
    assert!(Style::default().same_as(&Style::new()));
    assert!(Style::new().dim().underline().attributes.contains(Attributes::DIM | Attributes::UNDERLINE));
    assert_eq!(Style::new().link("u".to_string()).link.as_deref(), Some("u"));
}

#[test]
fn colours_by_name() {
    assert_eq!(Color::parse("green"), Some(Color::Ansi(2)));
    assert_eq!(Color::parse("bright_white"), Some(Color::Ansi(15)));
    assert_eq!(Color::parse("default"), Some(Color::Default));
    assert_eq!(Color::parse("Green"), None);
    assert_eq!(Color::default(), Color::Default);
    assert_eq!(Style::new().color_str("cyan").unwrap().color, Some(Color::Ansi(6)));
    assert_eq!(Style::new().color_str("nope").unwrap_err().name, "nope");
}

#[test]
fn string_tools() {
    assert_eq!(decimal_string(0), "0");
    assert_eq!(decimal_string(1234567890123), "1234567890123");
    assert_eq!(repeat_char('x', 3), "xxx");
    assert!(same_text("a", "a"));
    assert!(!same_text("a", "b"));
}

#[test]
fn e2e_stylize_range() {
    let mut text = Text::new("Hello World");
    let bold = Style::new().bold();
    text.stylize(0, 5, bold);

    assert_eq!(text.spans().len(), 1, "Should have one span");
    let span = &text.spans()[0];
    assert_eq!(span.start, 0);
    assert_eq!(span.end, 5);
}

use rich_rust::highlighter::{
    GroupMatch, Highlighter, HighlighterRegexError, NullHighlighter, RegexHighlighter,
    ReprHighlighter,
};
use rich_rust::protocol::{cast_step, CastAction, CastKind};
use rich_rust::renderables::progress::{
    bar_segments, bar_width, format_duration, format_percent, join_suffix, BarLook, BarStyle,
};
use rich_rust::style::{Attributes, Color, Style};
use rich_rust::sync::{lock_recover, read_recover, write_recover};
use rich_rust::text::Text;
use rich_rust::theme::Theme;
use std::sync::{Mutex, RwLock};

fn repr_theme() -> Theme {
    let mut theme = Theme::new();
    theme.insert("repr.number", Style::new().bold());
    theme.insert("repr.bool_true", Style::new().italic());
    theme.insert("repr.str", Style::new().color(Color::Ansi(2)));
    theme.insert("repr.number", Style::new().dim());
    theme
}

#[test]
fn test_null_highlighter_noop() {
    let theme = Theme::new();
    let mut text = Text::new("123");
    NullHighlighter.highlight(&theme, &mut text);
    assert!(text.spans().is_empty());
}

#[test]
fn test_repr_highlighter_applies_named_styles() {
    let theme = repr_theme();
    let mut text = Text::new("True False None 123 0xFF 'hi' (x) ...");
    ReprHighlighter::default().highlight(&theme, &mut text);
    let styles: Vec<&Style> = text.spans().iter().map(|s| &s.style).collect();
    assert!(styles.iter().any(|s| s.same_as(&theme.get_style("repr.bool_true"))));
    assert!(styles.iter().any(|s| s.same_as(&theme.get_style("repr.number"))));
    assert!(styles.iter().any(|s| s.same_as(&theme.get_style("repr.str"))));
    assert_eq!(text.plain(), "True False None 123 0xFF 'hi' (x) ...");
}

#[test]
fn regex_highlighter_spans_count_characters() {
    let mut theme = Theme::new();
    theme.insert("t.word", Style::new().bold());
    let highlighter = RegexHighlighter::new("t.", &["(?P<word>b+)|(?P<other>c)"]).unwrap();
    let mut text = Text::new("é😀bb c");
    highlighter.highlight(&theme, &mut text);
    assert_eq!(text.spans().len(), 1);
    assert_eq!((text.spans()[0].start, text.spans()[0].end), (2, 4));
    assert!(text.spans()[0].style.attributes.contains(Attributes::BOLD));
    let mut empty = Text::new("");
    highlighter.highlight(&theme, &mut empty);
    assert!(empty.spans().is_empty());
}

#[test]
fn regex_highlighter_reports_bad_patterns() {
    let error = RegexHighlighter::new("x.", &["(?P<ok>a)", "(unclosed"]).err().unwrap();
    assert_eq!(error.pattern, "(unclosed");
    assert!(!error.message.is_empty());
    assert!(error.to_string().starts_with("highlighter regex error for \"(unclosed\": "));
    assert_eq!(HighlighterRegexError::describe("\"p\"", "bad"), "highlighter regex error for \"p\": bad");
    let mut highlighter = RegexHighlighter::new("x.", &[]).unwrap();
    assert!(highlighter.push("(?P<d>[0-9]+)").is_ok());
    assert_eq!(highlighter.push("[").unwrap_err().pattern, "[");
    let copy = error.clone();
    assert_eq!(copy.pattern, error.pattern);
}

#[test]
fn group_matches_are_checked() {
    let mut theme = Theme::new();
    theme.insert("b.g", Style::new().italic());
    let highlighter = RegexHighlighter::new("b.", &[]).unwrap();
    let mut text = Text::new("aé c");
    let group = |name: Option<&str>, range: Option<(usize, usize)>| GroupMatch {
        name: name.map(|n| n.to_string()),
        range,
    };
    let matches = vec![
        group(None, Some((0, 5))),
        group(Some("g"), Some((1, 3))),
        group(Some("g"), Some((0, 5))),
        group(Some("g"), Some((3, 3))),
        group(None, Some((0, 1))),
        group(Some("g"), Some((4, 9))),
        group(Some("g"), None),
        group(Some("unknown"), Some((0, 1))),
        group(Some("g"), Some((2, 3))),
    ];
    highlighter.apply_matches(&theme, &mut text, &matches, 2);
    let spans: Vec<(usize, usize)> = text.spans().iter().map(|s| (s.start, s.end)).collect();
    assert_eq!(spans, vec![(1, 2)]);
}

#[test]
fn theme_lookup() {
    let theme = repr_theme();
    assert!(theme.get_style("repr.number").attributes.contains(Attributes::BOLD));
    assert!(theme.get_style("missing").same_as(&Style::new()));
}

#[test]
fn lock_recover_normal() {
    let mutex = Mutex::new(42);
    let guard = lock_recover(&mutex);
    assert_eq!(*guard, 42);
}

#[test]
fn read_recover_normal() {
    let rwlock = RwLock::new(42);
    let guard = read_recover(&rwlock);
    assert_eq!(*guard, 42);
}

#[test]
fn write_recover_normal() {
    let rwlock = RwLock::new(42);
    let mut guard = write_recover(&rwlock);
    *guard = 100;
    drop(guard);
    assert_eq!(*read_recover(&rwlock), 100);
}

#[test]
fn cast_goes_on_only_with_new_castable_values() {
    assert_eq!(cast_step(CastKind::Castable, false), CastAction::CastAgain);
    assert_eq!(cast_step(CastKind::Castable, true), CastAction::Finish);
    assert_eq!(cast_step(CastKind::Str, false), CastAction::Finish);
    assert_eq!(cast_step(CastKind::Renderable, false), CastAction::Finish);
}

#[test]
fn test_format_duration() {
    assert_eq!(format_duration(30), "30s");
    assert_eq!(format_duration(90), "1:30");
    assert_eq!(format_duration(3661), "1:01:01");
    assert_eq!(format_duration(0), "0s");
    assert_eq!(format_duration(3599), "59:59");
    assert_eq!(format_duration(360000), "100:00:00");
}

#[test]
fn percent_and_suffix() {
    assert_eq!(format_percent(5), "  5%");
    assert_eq!(format_percent(50), " 50%");
    assert_eq!(format_percent(100), "100%");
    assert_eq!(format_percent(1000), "1000%");
    assert_eq!(join_suffix(&vec![]), "");
    assert_eq!(join_suffix(&vec![" 50%".to_string(), "ETA 5s".to_string()]), "  50% ETA 5s");
}

#[test]
fn bar_width_leaves_room_for_the_rest() {
    assert_eq!(bar_width(80, 0, 5, true, 40), 40);
    assert_eq!(bar_width(30, 12, 5, true, 40), 11);
    assert_eq!(bar_width(30, 12, 5, false, 40), 13);
    assert_eq!(bar_width(10, 12, 5, true, 40), 0);
    assert_eq!(bar_width(8, 0, 7, true, 40), 0);
}

#[test]
fn bar_segments_in_order() {
    let look = BarLook {
        bar_style: BarStyle::Ascii,
        completed_style: Style::new().color(Color::Ansi(2)),
        remaining_style: Style::new().color(Color::Ansi(8)),
        pulse_style: Style::new().color(Color::Ansi(6)),
        show_brackets: true,
    };
    let texts = |segments: Vec<rich_rust::segment::Segment>| -> Vec<String> {
        segments.into_iter().map(|s| s.text).collect()
    };
    assert_eq!(texts(bar_segments(&look, 6, 3, true, " 50%")), vec!["[", "###", ">", "--", "]", " 50%", "\n"]);
    assert_eq!(texts(bar_segments(&look, 4, 0, false, "")), vec!["[", "----", "]", "\n"]);
    assert_eq!(texts(bar_segments(&look, 4, 9, true, "")), vec!["[", "####", "]", "\n"]);
    assert_eq!(texts(bar_segments(&look, 4, 3, true, "")), vec!["[", "###", ">", "]", "\n"]);
    let bare = BarLook { show_brackets: false, bar_style: BarStyle::Block, ..look };
    let drawn = bar_segments(&bare, 2, 1, false, "");
    assert_eq!(drawn[0].text, "\u{2588}");
    assert_eq!(drawn[0].style.as_ref().unwrap().color, Some(Color::Ansi(2)));
    assert_eq!(drawn[1].text, "\u{2591}");
}

use rich_rust::renderables::progress::{BarStyle, Spinner};
use rich_rust::style::Style;

#[test]
fn test_spinner_next_frame() {
    let mut spinner = Spinner::simple();
    assert_eq!(spinner.next_frame(), "|");
    assert_eq!(spinner.next_frame(), "/");
    assert_eq!(spinner.next_frame(), "-");
    assert_eq!(spinner.next_frame(), "\\");
    assert_eq!(spinner.next_frame(), "|"); // Wraps around
}

#[test]
fn test_spinner_current_frame() {
    let spinner = Spinner::simple();
    assert_eq!(spinner.current_frame(), "|");
    assert_eq!(spinner.current_frame(), "|"); // Doesn't advance
}

#[test]
fn test_spinner_render() {
    let spinner = Spinner::dots();
    let segment = spinner.render();
    assert!(!segment.text.is_empty());
}

#[test]
fn test_bar_style_chars() {
    assert_eq!(BarStyle::Ascii.completed_char(), "#");
    assert_eq!(BarStyle::Ascii.remaining_char(), "-");
    assert_eq!(BarStyle::Block.completed_char(), "\u{2588}");
    assert_eq!(BarStyle::Block.remaining_char(), "\u{2591}");
}

#[test]
fn bar_style_pulse_and_default() {
    assert_eq!(BarStyle::default(), BarStyle::Block);
    assert_eq!(BarStyle::Ascii.pulse_char(), ">");
    assert_eq!(BarStyle::Line.pulse_char(), "\u{257A}");
    assert_eq!(BarStyle::Dots.remaining_char(), "\u{25CB}");
    assert_eq!(BarStyle::Gradient.completed_char(), "\u{2588}");
}

#[test]
fn spinner_without_frames_shows_a_space() {
    let mut spinner = Spinner::custom(Vec::new());
    assert_eq!(spinner.current_frame(), " ");
    assert_eq!(spinner.next_frame(), " ");
    assert_eq!(spinner.render().text, " ");
}

#[test]
fn spinner_frame_sets() {
    assert_eq!(Spinner::dots().current_frame(), "\u{280b}");
    assert_eq!(Spinner::default().current_frame(), "\u{280b}");
    assert_eq!(Spinner::line().current_frame(), "\u{23ba}");
    assert_eq!(Spinner::bounce().current_frame(), "\u{2801}");
    assert_eq!(Spinner::growing().current_frame(), "\u{28fe}");
    assert_eq!(Spinner::moon().current_frame(), "\u{1f311}");
    let mut clock = Spinner::clock();
    for _ in 0..12 {
        clock.next_frame();
    }
    assert_eq!(clock.current_frame(), "\u{1f550}");
    let mut custom = Spinner::custom(vec!["a", "b"]).style(Style::new().bold());
    assert_eq!(custom.next_frame(), "a");
    let segment = custom.render();
    assert_eq!(segment.text, "b");
    assert!(segment.style.is_some());
}

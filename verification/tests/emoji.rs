use rich_rust::emoji::{get, replace, try_replace_at, EmojiVariant};
use rich_rust::renderables::emoji::{Emoji, NoEmoji};
use rich_rust::renderables::Renderable;
use rich_rust::style::{Attributes, Style};

#[test]
fn test_replace_basic() {
    assert_eq!(replace("hi :smile:", None), "hi 😄");
}

#[test]
fn test_replace_lowercases_name() {
    assert_eq!(replace("hi :SMILE:", None), "hi 😄");
}

#[test]
fn test_replace_variant_text() {
    assert_eq!(replace(":smile-text:", None), format!("😄{}", EmojiVariant::Text.selector()));
}

#[test]
fn test_replace_variant_emoji() {
    assert_eq!(replace(":smile-emoji:", None), format!("😄{}", EmojiVariant::Emoji.selector()));
}

#[test]
fn test_replace_default_variant() {
    assert_eq!(
        replace(":smile:", Some(EmojiVariant::Emoji)),
        format!("😄{}", EmojiVariant::Emoji.selector())
    );
}

#[test]
fn test_unknown_passthrough() {
    assert_eq!(replace("hi :definitely_not_real:", None), "hi :definitely_not_real:");
}

#[test]
fn test_whitespace_breaks_match() {
    assert_eq!(replace("hi :smile :", None), "hi :smile :");
}

#[test]
fn test_variant_must_be_lowercase() {
    // "-EMOJI" is not recognized as a variant suffix.
    assert_eq!(replace(":smile-EMOJI:", None), ":smile-EMOJI:");
}

#[test]
fn replace_keeps_text_around_several_codes() {
    assert_eq!(replace("a :fire: b :rocket::100:!", None), "a 🔥 b 🚀💯!");
    assert_eq!(replace("no codes here", None), "no codes here");
    assert_eq!(replace("::smile:", None), ":😄");
    assert_eq!(replace(":smile", None), ":smile");
}

#[test]
fn get_is_case_sensitive() {
    assert_eq!(get("smile"), Some("😄"));
    assert_eq!(get("SMILE"), None);
    assert_eq!(get("+1"), Some("👍"));
    assert_eq!(get(""), None);
}

#[test]
fn try_replace_at_reports_the_closing_colon() {
    let text: Vec<char> = "x :star-text: y".chars().collect();
    let (end, replacement) = try_replace_at(&text, 2, "").unwrap();
    assert_eq!(end, 12);
    assert_eq!(replacement, "\u{2b50}\u{fe0e}");
    assert!(try_replace_at(&text, 12, "").is_none());
}

#[test]
fn test_no_emoji_error_display() {
    let err = NoEmoji { name: "unknown_emoji".to_string() };
    assert_eq!(err.to_string(), r#"no emoji called "unknown_emoji""#);
}

#[test]
fn test_no_emoji_error_debug() {
    let err = NoEmoji { name: "test".to_string() };
    let debug_str = format!("{err:?}");
    assert!(debug_str.contains("NoEmoji"));
    assert!(debug_str.contains("test"));
}

#[test]
fn test_no_emoji_error_clone() {
    let err1 = NoEmoji { name: "foo".to_string() };
    let err2 = err1.clone();
    assert_eq!(err1, err2);
}

#[test]
fn test_no_emoji_is_error() {
    let err = NoEmoji { name: "test".to_string() };
    assert!(err.to_string().contains("no emoji"));
}

#[test]
fn test_emoji_new_valid_name() {
    // "+1" is a valid emoji (thumbs up)
    let emoji = Emoji::new("+1").expect("should create emoji");
    assert_eq!(emoji.name(), "+1");
}

#[test]
fn test_emoji_new_valid_name_smile() {
    let emoji = Emoji::new("smile").expect("should create emoji");
    assert_eq!(emoji.name(), "smile");
}

#[test]
fn test_emoji_new_invalid_name() {
    let result = Emoji::new("this_does_not_exist_12345");
    assert!(result.is_err());
    let err = result.unwrap_err();
    assert_eq!(err.name, "this_does_not_exist_12345");
}

#[test]
fn test_emoji_new_empty_string() {
    let result = Emoji::new("");
    assert!(result.is_err());
}

#[test]
fn test_emoji_new_accepts_string() {
    let name = String::from("+1");
    let emoji = Emoji::new(&name).expect("should accept String");
    assert_eq!(emoji.name(), "+1");
}

#[test]
fn test_emoji_style_method() {
    let emoji = Emoji::new("+1").expect("should create emoji").style(Style::new().bold());
    // The style should be set (we can verify via render)
    let segments = emoji.render(80, 25);
    assert_eq!(segments.len(), 1);
    // Styled segment should have a style
    assert!(segments[0].style.is_some());
}

#[test]
fn test_emoji_variant_method() {
    let emoji =
        Emoji::new("+1").expect("should create emoji").variant(Some(EmojiVariant::Emoji));
    let segments = emoji.render(80, 25);
    assert_eq!(segments.len(), 1);
    // With variant, the output should include the variant selector
    let text = &segments[0].text;
    assert!(text.contains('\u{FE0F}'), "should contain emoji variant selector");
}

#[test]
fn test_emoji_variant_text() {
    let emoji = Emoji::new("+1").expect("should create emoji").variant(Some(EmojiVariant::Text));
    let segments = emoji.render(80, 25);
    let text = &segments[0].text;
    assert!(text.contains('\u{FE0E}'), "should contain text variant selector");
}

#[test]
fn test_emoji_variant_none() {
    let emoji = Emoji::new("+1").expect("should create emoji").variant(None);
    let segments = emoji.render(80, 25);
    let text = &segments[0].text;
    assert!(!text.contains('\u{FE0F}'));
    assert!(!text.contains('\u{FE0E}'));
}

#[test]
fn test_emoji_name_getter() {
    let emoji = Emoji::new("100").expect("should create emoji");
    assert_eq!(emoji.name(), "100");
}

#[test]
fn test_emoji_render_basic() {
    let emoji = Emoji::new("+1").expect("should create emoji");
    let segments = emoji.render(80, 25);
    assert_eq!(segments.len(), 1);
    assert_eq!(&segments[0].text, "👍");
}

#[test]
fn test_emoji_render_100() {
    let emoji = Emoji::new("100").expect("should create emoji");
    let segments = emoji.render(80, 25);
    assert_eq!(segments.len(), 1);
    assert_eq!(&segments[0].text, "💯");
}

#[test]
fn test_emoji_render_without_style() {
    let emoji = Emoji::new("+1").expect("should create emoji");
    let segments = emoji.render(80, 25);
    // Without explicit style, segment should have no style
    assert!(segments[0].style.is_none() || segments[0].style.as_ref().is_some_and(Style::is_null));
}

#[test]
fn test_emoji_render_with_style() {
    let emoji =
        Emoji::new("+1").expect("should create emoji").style(Style::new().bold().italic());
    let segments = emoji.render(80, 25);
    let style = segments[0].style.as_ref().expect("should have style");
    assert!(style.attributes.contains(Attributes::BOLD));
    assert!(style.attributes.contains(Attributes::ITALIC));
}

#[test]
fn test_emoji_render_with_emoji_variant() {
    let emoji =
        Emoji::new("+1").expect("should create emoji").variant(Some(EmojiVariant::Emoji));
    let segments = emoji.render(80, 25);
    // Should be emoji + variant selector
    assert_eq!(&segments[0].text, "👍\u{FE0F}");
}

#[test]
fn test_emoji_render_with_text_variant() {
    let emoji = Emoji::new("+1").expect("should create emoji").variant(Some(EmojiVariant::Text));
    let segments = emoji.render(80, 25);
    // Should be emoji + text variant selector
    assert_eq!(&segments[0].text, "👍\u{FE0E}");
}

#[test]
fn test_emoji_clone() {
    let emoji1 = Emoji::new("+1").expect("should create emoji").style(Style::new().bold());
    let emoji2 = emoji1.clone();
    assert_eq!(emoji1.name(), emoji2.name());
}

#[test]
fn test_emoji_debug() {
    let emoji = Emoji::new("+1").expect("should create emoji");
    let debug_str = format!("{emoji:?}");
    assert!(debug_str.contains("Emoji"));
    assert!(debug_str.contains("+1"));
}

#[test]
fn no_emoji_message_escapes_the_name() {
    let err = NoEmoji { name: "a\"b".to_string() };
    assert_eq!(err.to_string(), "no emoji called \"a\\\"b\"");
    assert_eq!(NoEmoji::describe("x"), "no emoji called x");
}

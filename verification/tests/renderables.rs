use rich_rust::measure::{Measurement, RichMeasure};
use rich_rust::renderables::constrain::{Constrain, ConstrainChild};
use rich_rust::renderables::json::{
    escape_json_string, expand_tabs_at_col0, key_le, order_entries, Json, JsonIndent,
    JsonOptions, JsonTheme, JsonValue,
};
use rich_rust::renderables::layout::Layout;
use rich_rust::renderables::rule::Rule;
use rich_rust::renderables::traceback::{render_frame, Traceback, TracebackFrame};
use rich_rust::renderables::Renderable;
use rich_rust::segment::Segment;
use rich_rust::style::{Attributes, Color, Style};
use rich_rust::text::Text;

fn plain(segments: &[Segment]) -> String {
    segments.iter().filter(|s| !s.is_control()).map(|s| s.text.as_str()).collect()
}

fn number(n: i64) -> JsonValue {
    JsonValue::Number(n.to_string())
}

fn text(s: &str) -> JsonValue {
    JsonValue::Text(s.to_string())
}

fn object(entries: Vec<(&str, JsonValue)>) -> JsonValue {
    JsonValue::Object(entries.into_iter().map(|(k, v)| (k.to_string(), v)).collect())
}

#[test]
fn constrain_none_is_passthrough() {
    let rule = Rule::new().character("─").style(Style::new());

    let constrained = Constrain::new(rule.clone(), None);
    assert_eq!(constrained.render(30, 1), Renderable::render(&rule, 30, 1));
}

#[test]
fn constrain_limits_width_for_render() {
    let rule = Rule::new().character("─").style(Style::new());

    let constrained = Constrain::new(rule, Some(10));
    let segments = constrained.render(30, 1);
    let plain: String =
        segments.iter().filter(|s| !s.is_control()).map(|s| s.text.as_str()).collect();
    assert_eq!(plain, "──────────\n");
}

#[test]
fn constrain_never_widens() {
    let constrained = Constrain::new_boxed(Box::new(Rule::new().character("=")), Some(50));
    assert_eq!(plain(&constrained.render(4, 1)), "====\n");
    let cleared = constrained.width(None);
    assert_eq!(plain(&cleared.render(6, 1)), "======\n");
}

struct Fixed(usize);

impl RichMeasure for Fixed {
    fn rich_measure(&self, _max_width: usize) -> Measurement {
        Measurement::new(self.0, self.0 + 2)
    }
}

#[test]
fn constrain_measures_what_can_be_measured() {
    let measurable = Constrain::new_measurable(Fixed(4), Some(5));
    assert_eq!(measurable.rich_measure(80), Measurement::new(4, 5));
    let unlimited = Constrain::new_measurable(Fixed(4), None);
    assert_eq!(unlimited.rich_measure(80), Measurement::new(4, 6));
    let opaque = Constrain::new(Fixed(4), Some(7));
    assert_eq!(opaque.rich_measure(80), Measurement::new(0, 7));
    let child = ConstrainChild::Renderable(Fixed(1));
    assert!(child.as_measurable().is_none());
    assert_eq!(child.as_renderable().0, 1);
    assert_eq!(ConstrainChild::Measurable(Fixed(2)).as_measurable().unwrap().0, 2);
}

#[test]
fn measurements() {
    assert_eq!(Measurement::exact(3), Measurement { minimum: 3, maximum: 3 });
    assert_eq!(Measurement::new(2, 9).with_maximum(5), Measurement::new(2, 5));
    assert_eq!(Measurement::new(7, 9).with_maximum(5), Measurement::new(5, 5));
    assert_eq!(Measurement::get(10, None::<&Fixed>), Measurement::new(0, 10));
    assert_eq!(Measurement::get(5, Some(&Fixed(9))), Measurement::new(5, 5));
    let layout: Layout<Text> = Layout::default();
    assert_eq!(layout.rich_measure(33), Measurement::exact(33));
}

#[test]
fn rule_fills_the_width() {
    assert_eq!(plain(&Rule::new().render(3, 1)), "───\n");
    assert_eq!(plain(&Rule::new().character("ab").render(5, 1)), "ababa\n");
    assert_eq!(plain(&Rule::new().character("\u{4f60}").render(5, 1)), "\u{4f60}\u{4f60} \n");
    assert_eq!(plain(&Rule::new().character("").render(2, 1)), "  \n");
    assert_eq!(plain(&Rule::new().render(0, 1)), "\n");
    let styled = Rule::new().style(Style::new().bold()).render(2, 1);
    assert!(styled[0].style.as_ref().unwrap().attributes.contains(Attributes::BOLD));
}

#[test]
fn traceback_frame_without_source() {
    let frame = TracebackFrame::new("main", 7);
    assert_eq!(render_frame(&frame, None, 2), vec!["in main:7".to_string()]);
    assert_eq!(render_frame(&frame, Some("text"), 2), vec!["in main:7".to_string()]);
    let named = TracebackFrame::new("main", 7).filename("src/main.rs");
    assert_eq!(render_frame(&named, None, 2), vec!["in main:7".to_string()]);
    assert_eq!(named.filename.as_deref(), Some("src/main.rs"));
}

#[test]
fn traceback_frame_with_source_window() {
    let source = "fn main() {\n    let a = 1;\r\n\tlet b = 2;\n    boom();\n}\n";
    let frame = TracebackFrame::new("main", 3).filename("m.rs");
    let lines = render_frame(&frame, Some(source), 1);
    assert_eq!(
        lines,
        vec![
            "m.rs:3 in main".to_string(),
            "".to_string(),
            "  2     let a = 1;".to_string(),
            "\u{2771} 3     let b = 2;".to_string(),
            "  4     boom();".to_string(),
        ]
    );
    let first = render_frame(&TracebackFrame::new("f", 1).filename("m.rs"), Some(source), 9);
    assert_eq!(first.len(), 2 + 5);
    assert_eq!(first[2], "\u{2771} 1     fn main() {");
    let outside = render_frame(&TracebackFrame::new("f", 6).filename("m.rs"), Some(source), 1);
    assert_eq!(outside, vec!["m.rs:6 in f".to_string(), "".to_string()]);
    let zero = render_frame(&TracebackFrame::new("f", 0).filename("m.rs"), Some(source), 1);
    assert_eq!(zero.len(), 2);
}

#[test]
fn traceback_content_and_summary() {
    let mut traceback = Traceback::new(
        vec![TracebackFrame::new("outer", 1).filename("a.rs")],
        "ValueError",
        "bad value",
    )
    .extra_lines(0)
    .title(Text::new("Oops"));
    traceback.push_frame(TracebackFrame::new("inner", 2));
    assert_eq!(traceback.heading().plain(), "Oops");
    assert_eq!(traceback.filenames(), vec![Some("a.rs".to_string()), None]);
    let content = traceback.content(&vec![Some("  first line".to_string())]);
    let lines: Vec<String> = content.iter().map(|l| plain(l)).collect();
    assert_eq!(
        lines,
        vec![
            "a.rs:1 in outer".to_string(),
            "".to_string(),
            "\u{2771} 1     first line".to_string(),
            "in inner:2".to_string(),
        ]
    );
    assert_eq!(traceback.summary(), "ValueError: bad value");
    let same = Traceback::new(Vec::new(), "E", "m");
    assert_eq!(same, Traceback::new(Vec::new(), "E", "m"));
    assert_eq!(same.heading().plain(), "Traceback (most recent call last)");
}

#[test]
fn test_escape_json_string() {
    assert_eq!(escape_json_string("hello", false), "hello");
    assert_eq!(escape_json_string("say \"hi\"", false), "say \\\"hi\\\"");
    assert_eq!(escape_json_string("a\\b", false), "a\\\\b");
    assert_eq!(escape_json_string("line1\nline2", false), "line1\\nline2");
    assert_eq!(escape_json_string("tab\there", false), "tab\\there");
    assert_eq!(escape_json_string("\u{0008}", false), "\\b");
    assert_eq!(escape_json_string("\u{000c}", false), "\\f");
}

#[test]
fn escape_json_unicode() {
    assert_eq!(escape_json_string("😀", true), "\\ud83d\\ude00");
    assert_eq!(escape_json_string("é", true), "\\u00e9");
    assert_eq!(escape_json_string("é", false), "é");
    assert_eq!(escape_json_string("\u{1}\u{7f}\u{9f}\r", false), "\\u0001\\u007f\\u009f\\r");
    assert_eq!(escape_json_string("\u{ffff}\u{10000}", true), "\\uffff\\ud800\\udc00");
}

#[test]
fn tabs_are_expanded() {
    assert_eq!(expand_tabs_at_col0("\ta\t", 2), "  a  ");
    assert_eq!(expand_tabs_at_col0("\ta", 0), "\ta");
    assert_eq!(expand_tabs_at_col0("abc", 4), "abc");
}

#[test]
fn test_json_null() {
    assert_eq!(plain(&Json::new(JsonValue::Null).render()), "null");
}

#[test]
fn test_json_bool_true() {
    assert_eq!(plain(&Json::new(JsonValue::Bool(true)).render()), "true");
}

#[test]
fn test_json_bool_false() {
    assert_eq!(plain(&Json::new(JsonValue::Bool(false)).render()), "false");
}

#[test]
fn test_json_number_int() {
    assert_eq!(plain(&Json::new(number(42)).render()), "42");
}

#[test]
fn test_json_string() {
    assert_eq!(plain(&Json::new(text("hello")).render()), "\"hello\"");
}

#[test]
fn test_json_string_escaped() {
    assert_eq!(plain(&Json::new(text("line1\nline2")).render()), "\"line1\\nline2\"");
}

#[test]
fn test_json_string_ensure_ascii_surrogate_pair() {
    let json = Json::new(text("😀")).ensure_ascii(true);
    assert_eq!(json.to_plain_string(), "\"\\ud83d\\ude00\"");
}

#[test]
fn test_json_empty_array() {
    assert_eq!(plain(&Json::new(JsonValue::Array(vec![])).render()), "[]");
}

#[test]
fn test_json_simple_array() {
    let json = Json::new(JsonValue::Array(vec![number(1), number(2), number(3)])).indent(2);
    assert_eq!(json.to_plain_string(), "[\n  1,\n  2,\n  3\n]");
}

#[test]
fn test_json_empty_object() {
    assert_eq!(plain(&Json::new(object(vec![])).render()), "{}");
}

#[test]
fn test_json_simple_object() {
    let json = Json::new(object(vec![("name", text("Alice"))])).indent(2);
    assert_eq!(json.to_plain_string(), "{\n  \"name\": \"Alice\"\n}");
}

#[test]
fn test_json_compact_object_has_spaces() {
    let json = Json::new(object(vec![("age", number(30)), ("name", text("Alice"))])).compact();
    assert_eq!(json.to_plain_string(), "{\"age\": 30, \"name\": \"Alice\"}");
}

#[test]
fn test_json_nested_object() {
    let json = Json::new(object(vec![(
        "person",
        object(vec![("name", text("Alice")), ("age", number(30))]),
    )]))
    .indent(2);
    assert_eq!(
        json.to_plain_string(),
        "{\n  \"person\": {\n    \"name\": \"Alice\",\n    \"age\": 30\n  }\n}"
    );
}

#[test]
fn test_json_sort_keys() {
    let json =
        Json::new(object(vec![("z", number(1)), ("a", number(2)), ("m", number(3))]))
            .sort_keys(true);
    let text = json.to_plain_string();
    let pos_a = text.find("\"a\"").unwrap();
    let pos_m = text.find("\"m\"").unwrap();
    let pos_z = text.find("\"z\"").unwrap();
    assert!(pos_a < pos_m);
    assert!(pos_m < pos_z);
    let unsorted = Json::new(object(vec![("z", number(1)), ("a", number(2))])).compact();
    assert_eq!(unsorted.to_plain_string(), "{\"z\": 1, \"a\": 2}");
}

#[test]
fn test_json_no_highlight() {
    let json = Json::new(text("test")).highlight(false);
    assert!(json.render().iter().all(|s| s.style.is_none()));
}

#[test]
fn test_json_with_highlight() {
    let json = Json::new(text("test")).highlight(true);
    let segments = json.render();
    assert!(segments.iter().any(|s| s.style.is_some()));
    assert_eq!(segments[0].style.as_ref().unwrap().color, Some(Color::Ansi(2)));
}

#[test]
fn test_json_custom_indent() {
    let json = Json::new(JsonValue::Array(vec![number(1)])).indent(4);
    assert_eq!(json.to_plain_string(), "[\n    1\n]");
    let tabs = Json::new(JsonValue::Array(vec![JsonValue::Array(vec![number(1)])]))
        .indent_str("\t-");
    assert_eq!(tabs.render_with_tab_size(2).iter().map(|s| s.text.as_str()).collect::<String>(),
        "[\n  -[\n  -  -1\n  -]\n]");
}

#[test]
fn test_json_mixed_array() {
    let json = Json::new(JsonValue::Array(vec![
        number(1),
        text("two"),
        JsonValue::Bool(true),
        JsonValue::Null,
    ]))
    .compact();
    assert_eq!(json.to_plain_string(), "[1, \"two\", true, null]");
}

#[test]
fn test_json_custom_theme() {
    let theme = JsonTheme {
        key: Style::new().color_str("red").unwrap_or_default(),
        string: Style::new().color_str("blue").unwrap_or_default(),
        number: Style::new().color_str("green").unwrap_or_default(),
        bool_true: Style::new().color_str("yellow").unwrap_or_default(),
        bool_false: Style::new().color_str("yellow").unwrap_or_default(),
        null: Style::new().color_str("white").unwrap_or_default(),
        bracket: Style::new().color_str("cyan").unwrap_or_default(),
        punctuation: Style::new().color_str("magenta").unwrap_or_default(),
    };
    let json = Json::new(object(vec![("key", text("value"))])).theme(theme);
    let segments = json.render();
    assert!(segments.iter().any(|s| s.style.is_some()));
    let key = segments.iter().find(|s| s.text == "\"key\"").unwrap();
    assert_eq!(key.style.as_ref().unwrap().color, Some(Color::Ansi(1)));
}

#[test]
fn json_options_and_depth_limit() {
    let options = JsonOptions {
        indent: JsonIndent::Compact,
        highlight: false,
        sort_keys: true,
        ensure_ascii: true,
    };
    let json =
        Json::with_options(object(vec![("b", text("é")), ("a", JsonValue::Null)]), options.clone());
    assert_eq!(json.to_plain_string(), "{\"a\": null, \"b\": \"\\u00e9\"}");
    assert_eq!(JsonIndent::default(), JsonIndent::Spaces(2));
    assert!(JsonOptions::default().highlight);
    let mut deep = JsonValue::Array(vec![]);
    for _ in 0..25 {
        deep = JsonValue::Array(vec![deep]);
    }
    let shown = Json::new(deep).compact().to_plain_string();
    assert_eq!(shown, format!("{}[...]{}", "[".repeat(21), "]".repeat(21)));
    let mut nested = object(vec![]);
    for _ in 0..22 {
        nested = object(vec![("k", nested)]);
    }
    assert!(Json::new(nested).compact().to_plain_string().contains("{...}"));
    let as_content = Layout::from_renderable(Json::new(number(7)).highlight(false));
    assert_eq!(plain(&as_content.render(3, 1)), "7  ");
}

#[test]
fn keys_are_ordered_like_strings() {
    assert!(key_le("a", "ab"));
    assert!(!key_le("ab", "a"));
    assert!(key_le("", ""));
    assert!(key_le("Z", "a"));
    assert!(!key_le("é", "z"));
    let entries = vec![
        ("b".to_string(), JsonValue::Null),
        ("a".to_string(), JsonValue::Null),
        ("b".to_string(), JsonValue::Bool(true)),
        ("".to_string(), JsonValue::Null),
    ];
    assert_eq!(order_entries(&entries, true), vec![3, 1, 0, 2]);
    assert_eq!(order_entries(&entries, false), vec![0, 1, 2, 3]);
}

#[test]
fn test_json_number_float() {
    let json = Json::new(JsonValue::Number("1.23".to_string()));
    assert_eq!(plain(&json.render()), "1.23");
}

#[test]
fn test_json_complex() {
    let json = Json::new(object(vec![
        (
            "users",
            JsonValue::Array(vec![
                object(vec![("name", text("Alice")), ("active", JsonValue::Bool(true))]),
                object(vec![("name", text("Bob")), ("active", JsonValue::Bool(false))]),
            ]),
        ),
        ("count", number(2)),
        ("meta", JsonValue::Null),
    ]))
    .sort_keys(true);

    let text = json.to_plain_string();
    assert!(text.contains("\"users\""));
    assert!(text.contains("\"count\""));
    assert!(text.contains("\"meta\""));
    assert!(text.contains("\"Alice\""));
    assert!(text.contains("\"Bob\""));
    assert!(text.contains("true"));
    assert!(text.contains("false"));
    assert!(text.contains("null"));
    assert!(text.contains('2'));
    assert!(text.starts_with("{\n  \"count\": 2,\n  \"meta\": null,\n  \"users\": [\n    {\n      \"active\": true,"));
}

use rich_rust::demo_showcase::theme::{demo_style_definitions, demo_theme};
use rich_rust::demo_showcase::typography::{hint_text, scene_subtitle, scene_title, section_title};
use rich_rust::style::{Attributes, Color, Style};
use rich_rust::theme::Theme;

#[test]
fn theme_contains_expected_keys() {
    let theme = demo_theme().expect("demo_showcase theme definitions must parse");
    for key in [
        "brand.title",
        "brand.subtitle",
        "status.ok",
        "status.warn",
        "status.err",
        "section.rule",
        "panel.title",
        "table.header",
        "log.info",
    ] {
        assert!(!theme.get_style(key).same_as(&Style::new()), "missing theme key {key:?}");
    }
    assert_eq!(demo_style_definitions().len(), 26);
    let badge = theme.get_style("status.err.badge");
    assert!(badge.attributes.contains(Attributes::BOLD));
    assert_eq!(badge.color, Some(Color::Ansi(7)));
    assert_eq!(badge.bgcolor, Some(Color::Ansi(1)));
    assert_eq!(theme.get_style("brand.title").color, Some(Color::Rgb(0xa7, 0x8b, 0xfa)));
}

#[test]
fn style_definitions_are_parsed() {
    let style = Style::parse("bold  not italic\tred on #0A0b0C").unwrap();
    assert!(style.attributes.contains(Attributes::BOLD));
    assert!(!style.attributes.contains(Attributes::ITALIC));
    assert!(style.set_attributes.contains(Attributes::ITALIC));
    assert_eq!(style.color, Some(Color::Ansi(1)));
    assert_eq!(style.bgcolor, Some(Color::Rgb(10, 11, 12)));
    assert!(Style::parse("").unwrap().same_as(&Style::new()));
    assert!(Style::parse("   ").unwrap().same_as(&Style::new()));
    assert_eq!(Style::parse("default").unwrap().color, Some(Color::Default));
    for bad in ["on", "not", "not red", "on bold", "#12345", "#12345g", "bolder", "red on"] {
        assert!(Style::parse(bad).is_none(), "{bad:?} should not parse");
    }
}

#[test]
fn theme_from_definitions_reports_the_first_bad_one() {
    let error =
        Theme::from_style_definitions(&[("a", "bold"), ("b", "nope"), ("c", "also nope")])
            .unwrap_err();
    assert_eq!(error.name, "b");
    assert_eq!(error.definition, "nope");
    let theme = Theme::from_style_definitions(&[("a", "dim"), ("a", "bold")]).unwrap();
    assert!(theme.get_style("a").attributes.contains(Attributes::DIM));
    assert!(!theme.get_style("a").attributes.contains(Attributes::BOLD));
}

#[test]
fn markup_of_titles_and_hints() {
    assert_eq!(section_title("Tables"), "[section.title]Tables[/]");
    assert_eq!(scene_title("Nebula"), "[brand.title]Nebula[/]");
    assert_eq!(scene_subtitle("deploy"), "[brand.subtitle]deploy[/]");
    assert_eq!(hint_text("press q"), "[hint]press q[/]");
}

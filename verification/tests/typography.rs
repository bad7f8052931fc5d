use rich_rust::demo_showcase::keys::{map_key_event, should_quit, Key, KeyAction};
use rich_rust::demo_showcase::traceback_scene::{generate_source_context, TracebackScene};
use rich_rust::demo_showcase::typography::{
    badge, brand_accent, kv_row, kv_row_styled, muted, status_badge, status_text, PANEL_PADDING,
    SECTION_SPACING,
};

#[test]
fn test_status_badge_formatting() {
    assert_eq!(status_badge("OK", "ok"), "[status.ok.badge] OK [/]");
    assert_eq!(status_badge("WARN", "warn"), "[status.warn.badge] WARN [/]");
    assert_eq!(status_badge("FAIL", "err"), "[status.err.badge] FAIL [/]");
}

#[test]
fn test_status_text_formatting() {
    assert_eq!(status_text("Passed", "ok"), "[status.ok]Passed[/]");
    assert_eq!(status_text("Warning", "warn"), "[status.warn]Warning[/]");
}

#[test]
fn test_brand_accent_formatting() {
    assert_eq!(brand_accent("highlight"), "[brand.accent]highlight[/]");
}

#[test]
fn test_muted_formatting() {
    assert_eq!(muted("subtle"), "[brand.muted]subtle[/]");
}

#[test]
fn test_padding_constants_are_reasonable() {
    let (top, right, bottom, left) = PANEL_PADDING;
    assert!(top <= 3, "panel padding top should be modest");
    assert!(right <= 4, "panel padding right should be modest");
    assert!(bottom <= 3, "panel padding bottom should be modest");
    assert!(left <= 4, "panel padding left should be modest");
}

#[test]
fn test_section_spacing_is_reasonable() {
    assert!(SECTION_SPACING >= 1);
    assert!(SECTION_SPACING <= 3);
}

#[test]
fn test_kv_row_formatting() {
    assert_eq!(kv_row("Name", "Alice"), "[dim]Name:[/] Alice");
    assert_eq!(kv_row("Version", "1.0.0"), "[dim]Version:[/] 1.0.0");
}

#[test]
fn test_kv_row_styled_formatting() {
    assert_eq!(
        kv_row_styled("Status", "bold", "Running", "status.ok"),
        "[bold]Status:[/] [status.ok]Running[/]"
    );
}

#[test]
fn test_badge_formatting() {
    assert_eq!(badge("NEW", "brand.accent"), "[brand.accent] NEW [/]");
    assert_eq!(badge("INFO", "status.info"), "[status.info] INFO [/]");
}

#[test]
fn key_action_variants() {
    assert_ne!(KeyAction::Quit, KeyAction::NoAction);
    assert_ne!(KeyAction::Pause, KeyAction::NoAction);
    assert_ne!(KeyAction::Quit, KeyAction::Pause);
}

#[test]
fn map_quit_keys() {
    assert_eq!(map_key_event(Key::Char('q'), false), KeyAction::Quit);
    assert_eq!(map_key_event(Key::Esc, false), KeyAction::Quit);
    assert_eq!(map_key_event(Key::Char('c'), true), KeyAction::Quit);
}

#[test]
fn map_pause_keys() {
    assert_eq!(map_key_event(Key::Char('p'), false), KeyAction::Pause);
    assert_eq!(map_key_event(Key::Char(' '), false), KeyAction::Pause);
}

#[test]
fn map_unknown_keys() {
    assert_eq!(map_key_event(Key::Char('a'), false), KeyAction::NoAction);
    assert_eq!(map_key_event(Key::Char('c'), false), KeyAction::NoAction);
    assert_eq!(map_key_event(Key::Other, true), KeyAction::NoAction);
}

#[test]
fn quit_only_on_quit_action() {
    assert!(should_quit(KeyAction::Quit));
    assert!(!should_quit(KeyAction::Pause));
    assert!(!should_quit(KeyAction::NoAction));
}

#[test]
fn traceback_scene_has_correct_name() {
    let scene = TracebackScene::new();
    assert_eq!(scene.name(), "traceback");
}

#[test]
fn source_context_is_chosen_by_function_name() {
    assert!(generate_source_context("db::pool::connect").contains("pool.connect().await?"));
    assert!(generate_source_context("run").starts_with("    info!(\"Starting stage: {}\""));
    assert!(generate_source_context("a::mark_complete").ends_with("    Ok(())"));
    assert_eq!(
        generate_source_context("x::other"),
        "    // Function: other\n    let result = operation()?;\n    process(result)?;\n    Ok(())"
    );
    assert!(generate_source_context("a:::b").contains("// Function: :b\n"));
}

//! Typography and spacing patterns of the showcase: markup snippets that give
//! all scenes the same look.
use vstd::prelude::*;

verus! {

/// Standard vertical spacing between major sections.
pub const SECTION_SPACING: usize = 1;

/// Standard padding inside panels (top, right, bottom, left).
pub const PANEL_PADDING: (usize, usize, usize, usize) = (1, 2, 1, 2);

/// Standard margin around major blocks (top, right, bottom, left).
pub const BLOCK_MARGIN: (usize, usize, usize, usize) = (0, 1, 0, 1);

/// Create a styled status badge text: `status_badge("OK", "ok")` is
/// `"[status.ok.badge] OK [/]"`.
pub fn status_badge(text: &str, status: &str) -> (out: String)
    ensures
        out@ == "[status."@ + status@ + ".badge] "@ + text@ + " [/]"@,
{
    let mut out = String::from_str("[status.");
    out.append(status);
    out.append(".badge] ");
    out.append(text);
    out.append(" [/]");
    out
}

/// Create styled status text (without badge background).
pub fn status_text(text: &str, status: &str) -> (out: String)
    ensures
        out@ == "[status."@ + status@ + "]"@ + text@ + "[/]"@,
{
    let mut out = String::from_str("[status.");
    out.append(status);
    out.append("]");
    out.append(text);
    out.append("[/]");
    out
}

/// Create a brand accent markup string.
pub fn brand_accent(text: &str) -> (out: String)
    ensures
        out@ == "[brand.accent]"@ + text@ + "[/]"@,
{
    let mut out = String::from_str("[brand.accent]");
    out.append(text);
    out.append("[/]");
    out
}

/// Create a muted text markup string.
pub fn muted(text: &str) -> (out: String)
    ensures
        out@ == "[brand.muted]"@ + text@ + "[/]"@,
{
    let mut out = String::from_str("[brand.muted]");
    out.append(text);
    out.append("[/]");
    out
}

/// Create a key-value row suitable for panels or lists: the key as a dim
/// label, the value as it is.
pub fn kv_row(key: &str, value: &str) -> (out: String)
    ensures
        out@ == "[dim]"@ + key@ + ":[/] "@ + value@,
{
    let mut out = String::from_str("[dim]");
    out.append(key);
    out.append(":[/] ");
    out.append(value);
    out
}

/// Create a key-value row with custom key and value styles.
pub fn kv_row_styled(key: &str, key_style: &str, value: &str, value_style: &str) -> (out: String)
    ensures
        out@ == "["@ + key_style@ + "]"@ + key@ + ":[/] ["@ + value_style@ + "]"@ + value@
            + "[/]"@,
{
    let mut out = String::from_str("[");
    out.append(key_style);
    out.append("]");
    out.append(key);
    out.append(":[/] [");
    out.append(value_style);
    out.append("]");
    out.append(value);
    out.append("[/]");
    out
}

/// Generic badge helper that wraps text with a style.
pub fn badge(text: &str, style: &str) -> (out: String)
    ensures
        out@ == "["@ + style@ + "] "@ + text@ + " [/]"@,
{
    let mut out = String::from_str("[");
    out.append(style);
    out.append("] ");
    out.append(text);
    out.append(" [/]");
    out
}

/// The markup of the title of a section.
pub fn section_title(title: &str) -> (out: String)
    ensures
        out@ == "[section.title]"@ + title@ + "[/]"@,
{
    let mut out = String::from_str("[section.title]");
    out.append(title);
    out.append("[/]");
    out
}

/// The markup of the title of a scene.
pub fn scene_title(title: &str) -> (out: String)
    ensures
        out@ == "[brand.title]"@ + title@ + "[/]"@,
{
    let mut out = String::from_str("[brand.title]");
    out.append(title);
    out.append("[/]");
    out
}

/// The markup of the subtitle of a scene.
pub fn scene_subtitle(subtitle: &str) -> (out: String)
    ensures
        out@ == "[brand.subtitle]"@ + subtitle@ + "[/]"@,
{
    let mut out = String::from_str("[brand.subtitle]");
    out.append(subtitle);
    out.append("[/]");
    out
}

/// The markup of a muted hint or instruction line.
pub fn hint_text(text: &str) -> (out: String)
    ensures
        out@ == "[hint]"@ + text@ + "[/]"@,
{
    let mut out = String::from_str("[hint]");
    out.append(text);
    out.append("[/]");
    out
}

} // verus!

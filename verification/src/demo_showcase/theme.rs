//! The styles of the showcase, by name.
use crate::style::{
    accented, hex_byte, is_keyword, is_word, lemma_attribute_alone, lemma_attribute_and_color,
    lemma_attribute_color_on_color, lemma_color_alone, lemma_color_and_attribute, parsed_style,
    tinted, word_attribute, word_color, Attributes, Color, StyleModel,
};
use crate::theme::{lemma_all_defined, StyleDefinitionError, Theme};
use vstd::prelude::*;

verus! {

/// The style definition of the showcase at position `i`: a name and what
/// defines its style.
pub open spec fn demo_definition(i: int) -> (&'static str, &'static str) {
    if i == 0 {
        ("brand.title", "bold #a78bfa")
    } else if i == 1 {
        ("brand.subtitle", "dim #c4b5fd")
    } else if i == 2 {
        ("brand.accent", "bold #38bdf8")
    } else if i == 3 {
        ("brand.muted", "dim #94a3b8")
    } else if i == 4 {
        ("status.ok", "bold green")
    } else if i == 5 {
        ("status.warn", "bold yellow")
    } else if i == 6 {
        ("status.err", "bold red")
    } else if i == 7 {
        ("status.info", "bold cyan")
    } else if i == 8 {
        ("status.ok.badge", "bold white on green")
    } else if i == 9 {
        ("status.warn.badge", "bold black on yellow")
    } else if i == 10 {
        ("status.err.badge", "bold white on red")
    } else if i == 11 {
        ("section.rule", "dim #38bdf8")
    } else if i == 12 {
        ("section.title", "bold #38bdf8")
    } else if i == 13 {
        ("section.muted", "dim #94a3b8")
    } else if i == 14 {
        ("panel.title", "bold #38bdf8")
    } else if i == 15 {
        ("panel.subtitle", "dim #94a3b8")
    } else if i == 16 {
        ("table.header", "bold #e2e8f0")
    } else if i == 17 {
        ("table.caption", "dim #94a3b8")
    } else if i == 18 {
        ("table.border", "dim #64748b")
    } else if i == 19 {
        ("log.trace", "dim #64748b")
    } else if i == 20 {
        ("log.debug", "blue dim")
    } else if i == 21 {
        ("log.info", "green")
    } else if i == 22 {
        ("log.warn", "yellow")
    } else if i == 23 {
        ("log.error", "bold red")
    } else if i == 24 {
        ("hint", "dim cyan")
    } else {
        ("dim", "dim")
    }
}

/// The named style definitions of the showcase: each a name and what
/// defines its style.
pub open spec fn demo_definitions() -> Seq<(&'static str, &'static str)> {
    Seq::new(26, |i: int| demo_definition(i))
}

/// The style of the showcase at position `i`, with its name: what the
/// definition at that position stands for.
pub open spec fn demo_style(i: int) -> (Seq<char>, StyleModel) {
    if i == 0 {
        ("brand.title"@, accented(Attributes::BOLD, Some(Color::Rgb(0xa7, 0x8b, 0xfa)), None))
    } else if i == 1 {
        ("brand.subtitle"@, accented(Attributes::DIM, Some(Color::Rgb(0xc4, 0xb5, 0xfd)), None))
    } else if i == 2 {
        ("brand.accent"@, accented(Attributes::BOLD, Some(Color::Rgb(0x38, 0xbd, 0xf8)), None))
    } else if i == 3 {
        ("brand.muted"@, accented(Attributes::DIM, Some(Color::Rgb(0x94, 0xa3, 0xb8)), None))
    } else if i == 4 {
        ("status.ok"@, accented(Attributes::BOLD, Some(Color::Ansi(2)), None))
    } else if i == 5 {
        ("status.warn"@, accented(Attributes::BOLD, Some(Color::Ansi(3)), None))
    } else if i == 6 {
        ("status.err"@, accented(Attributes::BOLD, Some(Color::Ansi(1)), None))
    } else if i == 7 {
        ("status.info"@, accented(Attributes::BOLD, Some(Color::Ansi(6)), None))
    } else if i == 8 {
        ("status.ok.badge"@, accented(Attributes::BOLD, Some(Color::Ansi(7)), Some(Color::Ansi(2))))
    } else if i == 9 {
        ("status.warn.badge"@, accented(Attributes::BOLD, Some(Color::Ansi(0)), Some(Color::Ansi(3))))
    } else if i == 10 {
        ("status.err.badge"@, accented(Attributes::BOLD, Some(Color::Ansi(7)), Some(Color::Ansi(1))))
    } else if i == 11 {
        ("section.rule"@, accented(Attributes::DIM, Some(Color::Rgb(0x38, 0xbd, 0xf8)), None))
    } else if i == 12 {
        ("section.title"@, accented(Attributes::BOLD, Some(Color::Rgb(0x38, 0xbd, 0xf8)), None))
    } else if i == 13 {
        ("section.muted"@, accented(Attributes::DIM, Some(Color::Rgb(0x94, 0xa3, 0xb8)), None))
    } else if i == 14 {
        ("panel.title"@, accented(Attributes::BOLD, Some(Color::Rgb(0x38, 0xbd, 0xf8)), None))
    } else if i == 15 {
        ("panel.subtitle"@, accented(Attributes::DIM, Some(Color::Rgb(0x94, 0xa3, 0xb8)), None))
    } else if i == 16 {
        ("table.header"@, accented(Attributes::BOLD, Some(Color::Rgb(0xe2, 0xe8, 0xf0)), None))
    } else if i == 17 {
        ("table.caption"@, accented(Attributes::DIM, Some(Color::Rgb(0x94, 0xa3, 0xb8)), None))
    } else if i == 18 {
        ("table.border"@, accented(Attributes::DIM, Some(Color::Rgb(0x64, 0x74, 0x8b)), None))
    } else if i == 19 {
        ("log.trace"@, accented(Attributes::DIM, Some(Color::Rgb(0x64, 0x74, 0x8b)), None))
    } else if i == 20 {
        ("log.debug"@, accented(Attributes::DIM, Some(Color::Ansi(4)), None))
    } else if i == 21 {
        ("log.info"@, tinted(Color::Ansi(2)))
    } else if i == 22 {
        ("log.warn"@, tinted(Color::Ansi(3)))
    } else if i == 23 {
        ("log.error"@, accented(Attributes::BOLD, Some(Color::Ansi(1)), None))
    } else if i == 24 {
        ("hint"@, accented(Attributes::DIM, Some(Color::Ansi(6)), None))
    } else {
        ("dim"@, accented(Attributes::DIM, None, None))
    }
}

/// The styles of the showcase, by name: what the definitions of
/// [`demo_definitions`] stand for.
pub open spec fn demo_styles() -> Seq<(Seq<char>, StyleModel)> {
    Seq::new(26, |i: int| demo_style(i))
}

/// The named style definitions of the showcase. Scenes refer to these
/// names in their markup, as in `[brand.title]Nebula Deploy[/]`.
pub fn demo_style_definitions() -> (out: Vec<(&'static str, &'static str)>)
    ensures
        out@ == demo_definitions(),
{
    let out = vec![
        ("brand.title", "bold #a78bfa"),
        ("brand.subtitle", "dim #c4b5fd"),
        ("brand.accent", "bold #38bdf8"),
        ("brand.muted", "dim #94a3b8"),
        ("status.ok", "bold green"),
        ("status.warn", "bold yellow"),
        ("status.err", "bold red"),
        ("status.info", "bold cyan"),
        ("status.ok.badge", "bold white on green"),
        ("status.warn.badge", "bold black on yellow"),
        ("status.err.badge", "bold white on red"),
        ("section.rule", "dim #38bdf8"),
        ("section.title", "bold #38bdf8"),
        ("section.muted", "dim #94a3b8"),
        ("panel.title", "bold #38bdf8"),
        ("panel.subtitle", "dim #94a3b8"),
        ("table.header", "bold #e2e8f0"),
        ("table.caption", "dim #94a3b8"),
        ("table.border", "dim #64748b"),
        ("log.trace", "dim #64748b"),
        ("log.debug", "blue dim"),
        ("log.info", "green"),
        ("log.warn", "yellow"),
        ("log.error", "bold red"),
        ("hint", "dim cyan"),
        ("dim", "dim"),
    ];
    proof {
        assert(out@ =~= demo_definitions());
    }
    out
}

/// The theme of the showcase: the styles of [`demo_style_definitions`].
/// Every definition of the showcase makes sense, so there is always a
/// theme.
pub fn demo_theme() -> (out: Result<Theme, StyleDefinitionError>)
    ensures
        out matches Ok(theme) && theme@ == demo_styles(),
{
    let definitions = demo_style_definitions();
    proof {
        lemma_demo_definitions();
        lemma_all_defined(definitions@, demo_styles(), 26);
        assert(demo_styles().take(26) =~= demo_styles());
    }
    Theme::from_style_definitions(definitions.as_slice())
}

/// The reserved words of style definitions, letter by letter.
proof fn lemma_reserved()
    ensures
        "on"@ == seq!['o', 'n'],
        "not"@ == seq!['n', 'o', 't'],
        "bold"@ == seq!['b', 'o', 'l', 'd'],
        "dim"@ == seq!['d', 'i', 'm'],
        "italic"@ == seq!['i', 't', 'a', 'l', 'i', 'c'],
        "underline"@ == seq!['u', 'n', 'd', 'e', 'r', 'l', 'i', 'n', 'e'],
        "blink"@ == seq!['b', 'l', 'i', 'n', 'k'],
        "blink2"@ == seq!['b', 'l', 'i', 'n', 'k', '2'],
        "reverse"@ == seq!['r', 'e', 'v', 'e', 'r', 's', 'e'],
        "conceal"@ == seq!['c', 'o', 'n', 'c', 'e', 'a', 'l'],
        "strike"@ == seq!['s', 't', 'r', 'i', 'k', 'e'],
        "underline2"@ == seq!['u', 'n', 'd', 'e', 'r', 'l', 'i', 'n', 'e', '2'],
        "frame"@ == seq!['f', 'r', 'a', 'm', 'e'],
        "encircle"@ == seq!['e', 'n', 'c', 'i', 'r', 'c', 'l', 'e'],
        "overline"@ == seq!['o', 'v', 'e', 'r', 'l', 'i', 'n', 'e'],
{
    reveal_strlit("on");
    assert("on"@ =~= seq!['o', 'n']);
    reveal_strlit("not");
    assert("not"@ =~= seq!['n', 'o', 't']);
    reveal_strlit("bold");
    assert("bold"@ =~= seq!['b', 'o', 'l', 'd']);
    reveal_strlit("dim");
    assert("dim"@ =~= seq!['d', 'i', 'm']);
    reveal_strlit("italic");
    assert("italic"@ =~= seq!['i', 't', 'a', 'l', 'i', 'c']);
    reveal_strlit("underline");
    assert("underline"@ =~= seq!['u', 'n', 'd', 'e', 'r', 'l', 'i', 'n', 'e']);
    reveal_strlit("blink");
    assert("blink"@ =~= seq!['b', 'l', 'i', 'n', 'k']);
    reveal_strlit("blink2");
    assert("blink2"@ =~= seq!['b', 'l', 'i', 'n', 'k', '2']);
    reveal_strlit("reverse");
    assert("reverse"@ =~= seq!['r', 'e', 'v', 'e', 'r', 's', 'e']);
    reveal_strlit("conceal");
    assert("conceal"@ =~= seq!['c', 'o', 'n', 'c', 'e', 'a', 'l']);
    reveal_strlit("strike");
    assert("strike"@ =~= seq!['s', 't', 'r', 'i', 'k', 'e']);
    reveal_strlit("underline2");
    assert("underline2"@ =~= seq!['u', 'n', 'd', 'e', 'r', 'l', 'i', 'n', 'e', '2']);
    reveal_strlit("frame");
    assert("frame"@ =~= seq!['f', 'r', 'a', 'm', 'e']);
    reveal_strlit("encircle");
    assert("encircle"@ =~= seq!['e', 'n', 'c', 'i', 'r', 'c', 'l', 'e']);
    reveal_strlit("overline");
    assert("overline"@ =~= seq!['o', 'v', 'e', 'r', 'l', 'i', 'n', 'e']);
}

/// The names of the colours up to white, letter by letter.
proof fn lemma_color_names()
    ensures
        "default"@ == seq!['d', 'e', 'f', 'a', 'u', 'l', 't'],
        "black"@ == seq!['b', 'l', 'a', 'c', 'k'],
        "red"@ == seq!['r', 'e', 'd'],
        "green"@ == seq!['g', 'r', 'e', 'e', 'n'],
        "yellow"@ == seq!['y', 'e', 'l', 'l', 'o', 'w'],
        "blue"@ == seq!['b', 'l', 'u', 'e'],
        "magenta"@ == seq!['m', 'a', 'g', 'e', 'n', 't', 'a'],
        "cyan"@ == seq!['c', 'y', 'a', 'n'],
        "white"@ == seq!['w', 'h', 'i', 't', 'e'],
{
    reveal_strlit("default");
    assert("default"@ =~= seq!['d', 'e', 'f', 'a', 'u', 'l', 't']);
    reveal_strlit("black");
    assert("black"@ =~= seq!['b', 'l', 'a', 'c', 'k']);
    reveal_strlit("red");
    assert("red"@ =~= seq!['r', 'e', 'd']);
    reveal_strlit("green");
    assert("green"@ =~= seq!['g', 'r', 'e', 'e', 'n']);
    reveal_strlit("yellow");
    assert("yellow"@ =~= seq!['y', 'e', 'l', 'l', 'o', 'w']);
    reveal_strlit("blue");
    assert("blue"@ =~= seq!['b', 'l', 'u', 'e']);
    reveal_strlit("magenta");
    assert("magenta"@ =~= seq!['m', 'a', 'g', 'e', 'n', 't', 'a']);
    reveal_strlit("cyan");
    assert("cyan"@ =~= seq!['c', 'y', 'a', 'n']);
    reveal_strlit("white");
    assert("white"@ =~= seq!['w', 'h', 'i', 't', 'e']);
}

proof fn lemma_word_on()
    ensures
        is_word("on"@),
{
    lemma_reserved();
}

proof fn lemma_word_bold()
    ensures
        is_word("bold"@),
        !is_keyword("bold"@),
        word_attribute("bold"@) == Some(Attributes::BOLD),
{
    lemma_reserved();
}

proof fn lemma_word_dim()
    ensures
        is_word("dim"@),
        !is_keyword("dim"@),
        word_attribute("dim"@) == Some(Attributes::DIM),
{
    lemma_reserved();
}

proof fn lemma_color_black()
    ensures
        is_word("black"@),
        !is_keyword("black"@),
        word_attribute("black"@) is None,
        word_color("black"@) == Some(Color::Ansi(0)),
{
    lemma_reserved();
    lemma_color_names();
    assert(!is_keyword("black"@));
    assert(word_attribute("black"@) is None);
}

proof fn lemma_color_blue()
    ensures
        is_word("blue"@),
        !is_keyword("blue"@),
        word_attribute("blue"@) is None,
        word_color("blue"@) == Some(Color::Ansi(4)),
{
    lemma_reserved();
    lemma_color_names();
    assert(!is_keyword("blue"@));
    assert(word_attribute("blue"@) is None);
}

proof fn lemma_color_cyan()
    ensures
        is_word("cyan"@),
        !is_keyword("cyan"@),
        word_attribute("cyan"@) is None,
        word_color("cyan"@) == Some(Color::Ansi(6)),
{
    lemma_reserved();
    lemma_color_names();
    assert(!is_keyword("cyan"@));
    assert(word_attribute("cyan"@) is None);
}

proof fn lemma_color_green()
    ensures
        is_word("green"@),
        !is_keyword("green"@),
        word_attribute("green"@) is None,
        word_color("green"@) == Some(Color::Ansi(2)),
{
    lemma_reserved();
    lemma_color_names();
    assert(!is_keyword("green"@));
    assert(word_attribute("green"@) is None);
}

proof fn lemma_color_red()
    ensures
        is_word("red"@),
        !is_keyword("red"@),
        word_attribute("red"@) is None,
        word_color("red"@) == Some(Color::Ansi(1)),
{
    lemma_reserved();
    lemma_color_names();
    assert(!is_keyword("red"@));
    assert(word_attribute("red"@) is None);
}

proof fn lemma_color_white()
    ensures
        is_word("white"@),
        !is_keyword("white"@),
        word_attribute("white"@) is None,
        word_color("white"@) == Some(Color::Ansi(7)),
{
    lemma_reserved();
    lemma_color_names();
    assert(!is_keyword("white"@));
    assert(word_attribute("white"@) is None);
}

proof fn lemma_color_yellow()
    ensures
        is_word("yellow"@),
        !is_keyword("yellow"@),
        word_attribute("yellow"@) is None,
        word_color("yellow"@) == Some(Color::Ansi(3)),
{
    lemma_reserved();
    lemma_color_names();
    assert(!is_keyword("yellow"@));
    assert(word_attribute("yellow"@) is None);
}

/// A `#` and six hexadecimal digits are a word that stands for the colour
/// with those parts, and for nothing else.
proof fn lemma_hex_word(w: Seq<char>, red: u8, green: u8, blue: u8)
    requires
        w.len() == 7,
        w[0] == '#',
        hex_byte(w[1], w[2]) == Some(red),
        hex_byte(w[3], w[4]) == Some(green),
        hex_byte(w[5], w[6]) == Some(blue),
    ensures
        is_word(w),
        !is_keyword(w),
        word_attribute(w) is None,
        word_color(w) == Some(Color::Rgb(red, green, blue)),
{
    lemma_reserved();
    assert(!is_keyword(w));
    assert(word_attribute(w) is None);
}

proof fn lemma_hex_38bdf8()
    ensures
        is_word("#38bdf8"@),
        !is_keyword("#38bdf8"@),
        word_attribute("#38bdf8"@) is None,
        word_color("#38bdf8"@) == Some(Color::Rgb(0x38, 0xbd, 0xf8)),
{
    reveal_strlit("#38bdf8");
    lemma_hex_word("#38bdf8"@, 0x38, 0xbd, 0xf8);
}

proof fn lemma_hex_64748b()
    ensures
        is_word("#64748b"@),
        !is_keyword("#64748b"@),
        word_attribute("#64748b"@) is None,
        word_color("#64748b"@) == Some(Color::Rgb(0x64, 0x74, 0x8b)),
{
    reveal_strlit("#64748b");
    lemma_hex_word("#64748b"@, 0x64, 0x74, 0x8b);
}

proof fn lemma_hex_94a3b8()
    ensures
        is_word("#94a3b8"@),
        !is_keyword("#94a3b8"@),
        word_attribute("#94a3b8"@) is None,
        word_color("#94a3b8"@) == Some(Color::Rgb(0x94, 0xa3, 0xb8)),
{
    reveal_strlit("#94a3b8");
    lemma_hex_word("#94a3b8"@, 0x94, 0xa3, 0xb8);
}

proof fn lemma_hex_a78bfa()
    ensures
        is_word("#a78bfa"@),
        !is_keyword("#a78bfa"@),
        word_attribute("#a78bfa"@) is None,
        word_color("#a78bfa"@) == Some(Color::Rgb(0xa7, 0x8b, 0xfa)),
{
    reveal_strlit("#a78bfa");
    lemma_hex_word("#a78bfa"@, 0xa7, 0x8b, 0xfa);
}

proof fn lemma_hex_c4b5fd()
    ensures
        is_word("#c4b5fd"@),
        !is_keyword("#c4b5fd"@),
        word_attribute("#c4b5fd"@) is None,
        word_color("#c4b5fd"@) == Some(Color::Rgb(0xc4, 0xb5, 0xfd)),
{
    reveal_strlit("#c4b5fd");
    lemma_hex_word("#c4b5fd"@, 0xc4, 0xb5, 0xfd);
}

proof fn lemma_hex_e2e8f0()
    ensures
        is_word("#e2e8f0"@),
        !is_keyword("#e2e8f0"@),
        word_attribute("#e2e8f0"@) is None,
        word_color("#e2e8f0"@) == Some(Color::Rgb(0xe2, 0xe8, 0xf0)),
{
    reveal_strlit("#e2e8f0");
    lemma_hex_word("#e2e8f0"@, 0xe2, 0xe8, 0xf0);
}

proof fn lemma_def_bold_xa78bfa()
    ensures
        parsed_style("bold #a78bfa"@) == Some(accented(Attributes::BOLD, Some(Color::Rgb(0xa7, 0x8b, 0xfa)), None)),
{
    reveal_strlit("bold #a78bfa");
    reveal_strlit("bold");
    reveal_strlit("#a78bfa");
    lemma_hex_a78bfa();
    lemma_word_bold();
    assert("bold #a78bfa"@ =~= "bold"@ + seq![' '] + "#a78bfa"@);
    lemma_attribute_and_color("bold"@, "#a78bfa"@, Attributes::BOLD, Color::Rgb(0xa7, 0x8b, 0xfa));
}

proof fn lemma_def_dim_xc4b5fd()
    ensures
        parsed_style("dim #c4b5fd"@) == Some(accented(Attributes::DIM, Some(Color::Rgb(0xc4, 0xb5, 0xfd)), None)),
{
    reveal_strlit("dim #c4b5fd");
    reveal_strlit("dim");
    reveal_strlit("#c4b5fd");
    lemma_hex_c4b5fd();
    lemma_word_dim();
    assert("dim #c4b5fd"@ =~= "dim"@ + seq![' '] + "#c4b5fd"@);
    lemma_attribute_and_color("dim"@, "#c4b5fd"@, Attributes::DIM, Color::Rgb(0xc4, 0xb5, 0xfd));
}

proof fn lemma_def_bold_x38bdf8()
    ensures
        parsed_style("bold #38bdf8"@) == Some(accented(Attributes::BOLD, Some(Color::Rgb(0x38, 0xbd, 0xf8)), None)),
{
    reveal_strlit("bold #38bdf8");
    reveal_strlit("bold");
    reveal_strlit("#38bdf8");
    lemma_hex_38bdf8();
    lemma_word_bold();
    assert("bold #38bdf8"@ =~= "bold"@ + seq![' '] + "#38bdf8"@);
    lemma_attribute_and_color("bold"@, "#38bdf8"@, Attributes::BOLD, Color::Rgb(0x38, 0xbd, 0xf8));
}

proof fn lemma_def_dim_x94a3b8()
    ensures
        parsed_style("dim #94a3b8"@) == Some(accented(Attributes::DIM, Some(Color::Rgb(0x94, 0xa3, 0xb8)), None)),
{
    reveal_strlit("dim #94a3b8");
    reveal_strlit("dim");
    reveal_strlit("#94a3b8");
    lemma_hex_94a3b8();
    lemma_word_dim();
    assert("dim #94a3b8"@ =~= "dim"@ + seq![' '] + "#94a3b8"@);
    lemma_attribute_and_color("dim"@, "#94a3b8"@, Attributes::DIM, Color::Rgb(0x94, 0xa3, 0xb8));
}

proof fn lemma_def_bold_green()
    ensures
        parsed_style("bold green"@) == Some(accented(Attributes::BOLD, Some(Color::Ansi(2)), None)),
{
    reveal_strlit("bold green");
    reveal_strlit("bold");
    reveal_strlit("green");
    lemma_color_green();
    lemma_word_bold();
    assert("bold green"@ =~= "bold"@ + seq![' '] + "green"@);
    lemma_attribute_and_color("bold"@, "green"@, Attributes::BOLD, Color::Ansi(2));
}

proof fn lemma_def_bold_yellow()
    ensures
        parsed_style("bold yellow"@) == Some(accented(Attributes::BOLD, Some(Color::Ansi(3)), None)),
{
    reveal_strlit("bold yellow");
    reveal_strlit("bold");
    reveal_strlit("yellow");
    lemma_color_yellow();
    lemma_word_bold();
    assert("bold yellow"@ =~= "bold"@ + seq![' '] + "yellow"@);
    lemma_attribute_and_color("bold"@, "yellow"@, Attributes::BOLD, Color::Ansi(3));
}

proof fn lemma_def_bold_red()
    ensures
        parsed_style("bold red"@) == Some(accented(Attributes::BOLD, Some(Color::Ansi(1)), None)),
{
    reveal_strlit("bold red");
    reveal_strlit("bold");
    reveal_strlit("red");
    lemma_color_red();
    lemma_word_bold();
    assert("bold red"@ =~= "bold"@ + seq![' '] + "red"@);
    lemma_attribute_and_color("bold"@, "red"@, Attributes::BOLD, Color::Ansi(1));
}

proof fn lemma_def_bold_cyan()
    ensures
        parsed_style("bold cyan"@) == Some(accented(Attributes::BOLD, Some(Color::Ansi(6)), None)),
{
    reveal_strlit("bold cyan");
    reveal_strlit("bold");
    reveal_strlit("cyan");
    lemma_color_cyan();
    lemma_word_bold();
    assert("bold cyan"@ =~= "bold"@ + seq![' '] + "cyan"@);
    lemma_attribute_and_color("bold"@, "cyan"@, Attributes::BOLD, Color::Ansi(6));
}

proof fn lemma_def_bold_white_on_green()
    ensures
        parsed_style("bold white on green"@) == Some(accented(Attributes::BOLD, Some(Color::Ansi(7)), Some(Color::Ansi(2)))),
{
    reveal_strlit("bold white on green");
    reveal_strlit("bold");
    reveal_strlit("white");
    reveal_strlit("on");
    reveal_strlit("green");
    lemma_color_green();
    lemma_color_white();
    lemma_word_bold();
    lemma_word_on();
    assert("bold white on green"@ =~= "bold"@ + seq![' '] + "white"@ + seq![' '] + "on"@ + seq![' '] + "green"@);
    lemma_attribute_color_on_color("bold"@, "white"@, "green"@, Attributes::BOLD, Color::Ansi(7), Color::Ansi(2));
}

proof fn lemma_def_bold_black_on_yellow()
    ensures
        parsed_style("bold black on yellow"@) == Some(accented(Attributes::BOLD, Some(Color::Ansi(0)), Some(Color::Ansi(3)))),
{
    reveal_strlit("bold black on yellow");
    reveal_strlit("bold");
    reveal_strlit("black");
    reveal_strlit("on");
    reveal_strlit("yellow");
    lemma_color_black();
    lemma_color_yellow();
    lemma_word_bold();
    lemma_word_on();
    assert("bold black on yellow"@ =~= "bold"@ + seq![' '] + "black"@ + seq![' '] + "on"@ + seq![' '] + "yellow"@);
    lemma_attribute_color_on_color("bold"@, "black"@, "yellow"@, Attributes::BOLD, Color::Ansi(0), Color::Ansi(3));
}

proof fn lemma_def_bold_white_on_red()
    ensures
        parsed_style("bold white on red"@) == Some(accented(Attributes::BOLD, Some(Color::Ansi(7)), Some(Color::Ansi(1)))),
{
    reveal_strlit("bold white on red");
    reveal_strlit("bold");
    reveal_strlit("white");
    reveal_strlit("on");
    reveal_strlit("red");
    lemma_color_red();
    lemma_color_white();
    lemma_word_bold();
    lemma_word_on();
    assert("bold white on red"@ =~= "bold"@ + seq![' '] + "white"@ + seq![' '] + "on"@ + seq![' '] + "red"@);
    lemma_attribute_color_on_color("bold"@, "white"@, "red"@, Attributes::BOLD, Color::Ansi(7), Color::Ansi(1));
}

proof fn lemma_def_dim_x38bdf8()
    ensures
        parsed_style("dim #38bdf8"@) == Some(accented(Attributes::DIM, Some(Color::Rgb(0x38, 0xbd, 0xf8)), None)),
{
    reveal_strlit("dim #38bdf8");
    reveal_strlit("dim");
    reveal_strlit("#38bdf8");
    lemma_hex_38bdf8();
    lemma_word_dim();
    assert("dim #38bdf8"@ =~= "dim"@ + seq![' '] + "#38bdf8"@);
    lemma_attribute_and_color("dim"@, "#38bdf8"@, Attributes::DIM, Color::Rgb(0x38, 0xbd, 0xf8));
}

proof fn lemma_def_bold_xe2e8f0()
    ensures
        parsed_style("bold #e2e8f0"@) == Some(accented(Attributes::BOLD, Some(Color::Rgb(0xe2, 0xe8, 0xf0)), None)),
{
    reveal_strlit("bold #e2e8f0");
    reveal_strlit("bold");
    reveal_strlit("#e2e8f0");
    lemma_hex_e2e8f0();
    lemma_word_bold();
    assert("bold #e2e8f0"@ =~= "bold"@ + seq![' '] + "#e2e8f0"@);
    lemma_attribute_and_color("bold"@, "#e2e8f0"@, Attributes::BOLD, Color::Rgb(0xe2, 0xe8, 0xf0));
}

proof fn lemma_def_dim_x64748b()
    ensures
        parsed_style("dim #64748b"@) == Some(accented(Attributes::DIM, Some(Color::Rgb(0x64, 0x74, 0x8b)), None)),
{
    reveal_strlit("dim #64748b");
    reveal_strlit("dim");
    reveal_strlit("#64748b");
    lemma_hex_64748b();
    lemma_word_dim();
    assert("dim #64748b"@ =~= "dim"@ + seq![' '] + "#64748b"@);
    lemma_attribute_and_color("dim"@, "#64748b"@, Attributes::DIM, Color::Rgb(0x64, 0x74, 0x8b));
}

proof fn lemma_def_blue_dim()
    ensures
        parsed_style("blue dim"@) == Some(accented(Attributes::DIM, Some(Color::Ansi(4)), None)),
{
    reveal_strlit("blue dim");
    reveal_strlit("blue");
    reveal_strlit("dim");
    lemma_color_blue();
    lemma_word_dim();
    assert("blue dim"@ =~= "blue"@ + seq![' '] + "dim"@);
    lemma_color_and_attribute("blue"@, "dim"@, Color::Ansi(4), Attributes::DIM);
}

proof fn lemma_def_green()
    ensures
        parsed_style("green"@) == Some(tinted(Color::Ansi(2))),
{
    lemma_color_green();
    lemma_color_alone("green"@, Color::Ansi(2));
}

proof fn lemma_def_yellow()
    ensures
        parsed_style("yellow"@) == Some(tinted(Color::Ansi(3))),
{
    lemma_color_yellow();
    lemma_color_alone("yellow"@, Color::Ansi(3));
}

proof fn lemma_def_dim_cyan()
    ensures
        parsed_style("dim cyan"@) == Some(accented(Attributes::DIM, Some(Color::Ansi(6)), None)),
{
    reveal_strlit("dim cyan");
    reveal_strlit("dim");
    reveal_strlit("cyan");
    lemma_color_cyan();
    lemma_word_dim();
    assert("dim cyan"@ =~= "dim"@ + seq![' '] + "cyan"@);
    lemma_attribute_and_color("dim"@, "cyan"@, Attributes::DIM, Color::Ansi(6));
}

proof fn lemma_def_dim()
    ensures
        parsed_style("dim"@) == Some(accented(Attributes::DIM, None, None)),
{
    lemma_word_dim();
    lemma_attribute_alone("dim"@, Attributes::DIM);
}

/// Every definition of the showcase stands for its style.
pub proof fn lemma_demo_definitions()
    ensures
        demo_definitions().len() == 26,
        demo_styles().len() == 26,
        forall|i: int|
            0 <= i < 26 ==> parsed_style((#[trigger] demo_definitions()[i]).1@) == Some(
                demo_styles()[i].1,
            ) && demo_styles()[i].0 == demo_definitions()[i].0@,
{
    assert forall|i: int| 0 <= i < 26 implies parsed_style((#[trigger] demo_definitions()[i]).1@)
        == Some(demo_styles()[i].1) && demo_styles()[i].0 == demo_definitions()[i].0@ by {
        lemma_demo_definition(i);
    }
}

/// The definition of the showcase at position `i` stands for the style at
/// that position.
proof fn lemma_demo_definition(i: int)
    requires
        0 <= i < 26,
    ensures
        parsed_style(demo_definition(i).1@) == Some(demo_style(i).1),
        demo_style(i).0 == demo_definition(i).0@,
{
    lemma_def_bold_xa78bfa();
    lemma_def_dim_xc4b5fd();
    lemma_def_bold_x38bdf8();
    lemma_def_dim_x94a3b8();
    lemma_def_bold_green();
    lemma_def_bold_yellow();
    lemma_def_bold_red();
    lemma_def_bold_cyan();
    lemma_def_bold_white_on_green();
    lemma_def_bold_black_on_yellow();
    lemma_def_bold_white_on_red();
    lemma_def_dim_x38bdf8();
    lemma_def_bold_xe2e8f0();
    lemma_def_dim_x64748b();
    lemma_def_blue_dim();
    lemma_def_green();
    lemma_def_yellow();
    lemma_def_dim_cyan();
    lemma_def_dim();
}

} // verus!

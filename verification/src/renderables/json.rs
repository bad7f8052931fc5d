//! JSON: pretty-printed JSON with syntax highlighting.
//!
//! A JSON value is rendered into segments: keys, strings, numbers, booleans
//! and nulls each in the style that the theme gives them, brackets and
//! punctuation in theirs. In pretty mode every element stands on a line of
//! its own, indented by its depth; in compact mode everything stands on one
//! line, with `", "` and `": "` as separators.
use crate::cells::clip;
use crate::segment::{Line, Segment, SegmentModel};
use crate::renderables::rule::copies;
use crate::renderables::Renderable;
use crate::strings::{chars_of, repeat_char, repeated};
use crate::style::{Attributes, Color, Style, StyleModel};
use vstd::prelude::*;

verus! {

/// Theme colors for JSON syntax highlighting.
#[derive(Debug)]
pub struct JsonTheme {
    /// Style for object keys.
    pub key: Style,
    /// Style for string values.
    pub string: Style,
    /// Style for number values.
    pub number: Style,
    /// Style for boolean `true`.
    pub bool_true: Style,
    /// Style for boolean `false`.
    pub bool_false: Style,
    /// Style for null values.
    pub null: Style,
    /// Style for brackets and braces.
    pub bracket: Style,
    /// Style for colons and commas.
    pub punctuation: Style,
}

/// A theme as a plain value.
pub struct ThemeModel {
    pub key: StyleModel,
    pub string: StyleModel,
    pub number: StyleModel,
    pub bool_true: StyleModel,
    pub bool_false: StyleModel,
    pub null: StyleModel,
    pub bracket: StyleModel,
    pub punctuation: StyleModel,
}

impl View for JsonTheme {
    type V = ThemeModel;

    open spec fn view(&self) -> ThemeModel {
        ThemeModel {
            key: self.key@,
            string: self.string@,
            number: self.number@,
            bool_true: self.bool_true@,
            bool_false: self.bool_false@,
            null: self.null@,
            bracket: self.bracket@,
            punctuation: self.punctuation@,
        }
    }
}

/// The style that sets the numbered colour `n` as foreground.
pub open spec fn in_color(n: u8) -> StyleModel {
    StyleModel { color: Some(Color::Ansi(n)), ..StyleModel::plain() }
}

impl ThemeModel {
    /// The default theme: keys bold blue, strings green, numbers bold cyan,
    /// `true` bright green italic, `false` bright red italic, null magenta
    /// italic, brackets bold, punctuation plain.
    pub open spec fn standard() -> ThemeModel {
        ThemeModel {
            key: in_color(4).with(Attributes::BOLD),
            string: in_color(2),
            number: in_color(6).with(Attributes::BOLD),
            bool_true: in_color(10).with(Attributes::ITALIC),
            bool_false: in_color(9).with(Attributes::ITALIC),
            null: in_color(5).with(Attributes::ITALIC),
            bracket: StyleModel::plain().with(Attributes::BOLD),
            punctuation: StyleModel::plain(),
        }
    }
}

impl Clone for JsonTheme {
    fn clone(&self) -> (out: JsonTheme)
        ensures
            out@ == self@,
    {
        JsonTheme {
            key: self.key.clone(),
            string: self.string.clone(),
            number: self.number.clone(),
            bool_true: self.bool_true.clone(),
            bool_false: self.bool_false.clone(),
            null: self.null.clone(),
            bracket: self.bracket.clone(),
            punctuation: self.punctuation.clone(),
        }
    }
}

impl Default for JsonTheme {
    fn default() -> (out: JsonTheme)
        ensures
            out@ == ThemeModel::standard(),
    {
        JsonTheme {
            key: Style::new().color(Color::from_ansi(4)).bold(),
            string: Style::new().color(Color::from_ansi(2)),
            number: Style::new().color(Color::from_ansi(6)).bold(),
            bool_true: Style::new().color(Color::from_ansi(10)).italic(),
            bool_false: Style::new().color(Color::from_ansi(9)).italic(),
            null: Style::new().color(Color::from_ansi(5)).italic(),
            bracket: Style::new().bold(),
            punctuation: Style::new(),
        }
    }
}

/// JSON indentation configuration.
#[derive(Debug, PartialEq, Eq)]
pub enum JsonIndent {
    /// Compact mode: no newlines; still uses `": "` and `", "` separators.
    Compact,
    /// Indent using N spaces.
    Spaces(usize),
    /// Indent using the given string. Tabs in it are expanded to spaces.
    Unit(String),
}

/// An indentation as a plain value.
pub enum IndentModel {
    Compact,
    Spaces(usize),
    Unit(Seq<char>),
}

impl View for JsonIndent {
    type V = IndentModel;

    open spec fn view(&self) -> IndentModel {
        match self {
            JsonIndent::Compact => IndentModel::Compact,
            JsonIndent::Spaces(n) => IndentModel::Spaces(*n),
            JsonIndent::Unit(unit) => IndentModel::Unit(unit@),
        }
    }
}

impl Clone for JsonIndent {
    fn clone(&self) -> (out: JsonIndent)
        ensures
            out@ == self@,
    {
        match self {
            JsonIndent::Compact => JsonIndent::Compact,
            JsonIndent::Spaces(n) => JsonIndent::Spaces(*n),
            JsonIndent::Unit(unit) => JsonIndent::Unit(unit.clone()),
        }
    }
}

impl Default for JsonIndent {
    fn default() -> (out: JsonIndent)
        ensures
            out@ == IndentModel::Spaces(2),
    {
        JsonIndent::Spaces(2)
    }
}

/// Formatting options for rendering JSON.
#[derive(Debug)]
pub struct JsonOptions {
    pub indent: JsonIndent,
    pub highlight: bool,
    pub sort_keys: bool,
    pub ensure_ascii: bool,
}

impl Clone for JsonOptions {
    fn clone(&self) -> (out: JsonOptions)
        ensures
            out.indent@ == self.indent@,
            out.highlight == self.highlight,
            out.sort_keys == self.sort_keys,
            out.ensure_ascii == self.ensure_ascii,
    {
        JsonOptions {
            indent: self.indent.clone(),
            highlight: self.highlight,
            sort_keys: self.sort_keys,
            ensure_ascii: self.ensure_ascii,
        }
    }
}

impl Default for JsonOptions {
    fn default() -> (out: JsonOptions)
        ensures
            out.indent@ == IndentModel::Spaces(2),
            out.highlight,
            !out.sort_keys,
            !out.ensure_ascii,
    {
        JsonOptions {
            indent: JsonIndent::Spaces(2),
            highlight: true,
            sort_keys: false,
            ensure_ascii: false,
        }
    }
}

/// The hexadecimal digit that stands for `d`, in lower case.
pub open spec fn hex_digit(d: int) -> char {
    if d == 0 {
        '0'
    } else if d == 1 {
        '1'
    } else if d == 2 {
        '2'
    } else if d == 3 {
        '3'
    } else if d == 4 {
        '4'
    } else if d == 5 {
        '5'
    } else if d == 6 {
        '6'
    } else if d == 7 {
        '7'
    } else if d == 8 {
        '8'
    } else if d == 9 {
        '9'
    } else if d == 10 {
        'a'
    } else if d == 11 {
        'b'
    } else if d == 12 {
        'c'
    } else if d == 13 {
        'd'
    } else if d == 14 {
        'e'
    } else {
        'f'
    }
}

/// The escape `\uXXXX` of a code of up to 16 bits.
pub open spec fn unicode_escape(code: int) -> Seq<char> {
    seq![
        '\\',
        'u',
        hex_digit(code / 4096 % 16),
        hex_digit(code / 256 % 16),
        hex_digit(code / 16 % 16),
        hex_digit(code % 16),
    ]
}

/// Whether a character is a control character.
pub open spec fn is_control(c: char) -> bool {
    c as u32 <= 0x1f || (0x7f <= c as u32 && c as u32 <= 0x9f)
}

/// How one character stands in a JSON string. Quotes, backslashes and
/// control characters are escaped; with `ensure_ascii`, so is every
/// character outside ASCII, as one `\uXXXX` or as a surrogate pair of two.
pub open spec fn escaped_char(c: char, ensure_ascii: bool) -> Seq<char> {
    let code = c as u32 as int;
    if c == '"' {
        seq!['\\', '"']
    } else if c == '\\' {
        seq!['\\', '\\']
    } else if c == '\u{8}' {
        seq!['\\', 'b']
    } else if c == '\u{c}' {
        seq!['\\', 'f']
    } else if c == '\n' {
        seq!['\\', 'n']
    } else if c == '\r' {
        seq!['\\', 'r']
    } else if c == '\t' {
        seq!['\\', 't']
    } else if ensure_ascii && code > 0x7f {
        if code <= 0xffff {
            unicode_escape(code)
        } else {
            unicode_escape(0xd800 + (code - 0x10000) / 1024 % 1024) + unicode_escape(
                0xdc00 + (code - 0x10000) % 1024,
            )
        }
    } else if is_control(c) {
        unicode_escape(code)
    } else {
        seq![c]
    }
}

/// The first `k` characters of a text as they stand in a JSON string.
pub open spec fn escaped(s: Seq<char>, ensure_ascii: bool, k: int) -> Seq<char>
    decreases k,
{
    if k <= 0 {
        Seq::<char>::empty()
    } else {
        escaped(s, ensure_ascii, k - 1) + escaped_char(s[k - 1], ensure_ascii)
    }
}

/// A text between double quotes as it stands in JSON.
pub open spec fn quoted(s: Seq<char>, ensure_ascii: bool) -> Seq<char> {
    seq!['"'] + escaped(s, ensure_ascii, s.len() as int) + seq!['"']
}

fn hex_char(d: u32) -> (c: char)
    requires
        d < 16,
    ensures
        c == hex_digit(d as int),
{
    if d == 0 {
        '0'
    } else if d == 1 {
        '1'
    } else if d == 2 {
        '2'
    } else if d == 3 {
        '3'
    } else if d == 4 {
        '4'
    } else if d == 5 {
        '5'
    } else if d == 6 {
        '6'
    } else if d == 7 {
        '7'
    } else if d == 8 {
        '8'
    } else if d == 9 {
        '9'
    } else if d == 10 {
        'a'
    } else if d == 11 {
        'b'
    } else if d == 12 {
        'c'
    } else if d == 13 {
        'd'
    } else if d == 14 {
        'e'
    } else {
        'f'
    }
}

fn push_unicode_escape(out: &mut String, code: u32)
    ensures
        final(out)@ == old(out)@ + unicode_escape(code as int),
{
    out.push('\\');
    out.push('u');
    out.push(hex_char(code / 4096 % 16));
    out.push(hex_char(code / 256 % 16));
    out.push(hex_char(code / 16 % 16));
    out.push(hex_char(code % 16));
    proof {
        assert(out@ =~= old(out)@ + unicode_escape(code as int));
    }
}

fn push_escaped_char(out: &mut String, c: char, ensure_ascii: bool)
    ensures
        final(out)@ == old(out)@ + escaped_char(c, ensure_ascii),
{
    let code = c as u32;
    if c == '"' {
        out.push('\\');
        out.push('"');
    } else if c == '\\' {
        out.push('\\');
        out.push('\\');
    } else if c == '\u{8}' {
        out.push('\\');
        out.push('b');
    } else if c == '\u{c}' {
        out.push('\\');
        out.push('f');
    } else if c == '\n' {
        out.push('\\');
        out.push('n');
    } else if c == '\r' {
        out.push('\\');
        out.push('r');
    } else if c == '\t' {
        out.push('\\');
        out.push('t');
    } else if ensure_ascii && code > 0x7f {
        if code <= 0xffff {
            push_unicode_escape(out, code);
        } else {
            let n = code - 0x10000;
            push_unicode_escape(out, 0xd800 + n / 1024 % 1024);
            let ghost mid = out@;
            push_unicode_escape(out, 0xdc00 + n % 1024);
            proof {
                assert(out@ =~= old(out)@ + (unicode_escape(0xd800 + (code - 0x10000) / 1024 % 1024)
                    + unicode_escape(0xdc00 + (code - 0x10000) % 1024)));
            }
        }
    } else if code <= 0x1f || (0x7f <= code && code <= 0x9f) {
        push_unicode_escape(out, code);
    } else {
        out.push(c);
    }
    proof {
        assert(out@ =~= old(out)@ + escaped_char(c, ensure_ascii));
    }
}

/// Escape special characters in a JSON string.
pub fn escape_json_string(s: &str, ensure_ascii: bool) -> (out: String)
    ensures
        out@ == escaped(s@, ensure_ascii, s@.len() as int),
{
    let chars = chars_of(s);
    let mut out = String::new();
    let mut i: usize = 0;
    while i < chars.len()
        invariant
            i <= chars.len(),
            chars@ == s@,
            out@ == escaped(s@, ensure_ascii, i as int),
        decreases chars.len() - i,
    {
        push_escaped_char(&mut out, chars[i], ensure_ascii);
        i = i + 1;
    }
    out
}

/// A text with every tab replaced by `tab_size` spaces; with a tab size of
/// zero, the text as it is.
pub open spec fn tabs_expanded(s: Seq<char>, tab_size: usize, k: int) -> Seq<char>
    decreases k,
{
    if k <= 0 {
        Seq::<char>::empty()
    } else if s[k - 1] == '\t' && tab_size > 0 {
        tabs_expanded(s, tab_size, k - 1) + repeated(' ', tab_size as nat)
    } else {
        tabs_expanded(s, tab_size, k - 1).push(s[k - 1])
    }
}

/// Replaces every tab of `s` by `tab_size` spaces.
pub fn expand_tabs_at_col0(s: &str, tab_size: usize) -> (out: String)
    ensures
        out@ == tabs_expanded(s@, tab_size, s@.len() as int),
{
    let chars = chars_of(s);
    let mut out = String::new();
    let mut i: usize = 0;
    while i < chars.len()
        invariant
            i <= chars.len(),
            chars@ == s@,
            out@ == tabs_expanded(s@, tab_size, i as int),
        decreases chars.len() - i,
    {
        if chars[i] == '\t' && tab_size > 0 {
            let pad = repeat_char(' ', tab_size);
            out.append(pad.as_str());
        } else {
            out.push(chars[i]);
        }
        i = i + 1;
    }
    out
}

/// A JSON value. A number is held as the text that stands for it.
#[derive(Debug, PartialEq, Eq)]
pub enum JsonValue {
    Null,
    Bool(bool),
    Number(String),
    Text(String),
    Array(Vec<JsonValue>),
    Object(Vec<(String, JsonValue)>),
}

/// How JSON is rendered, as a plain value.
pub struct JsonModel {
    pub indent: IndentModel,
    pub sort_keys: bool,
    pub ensure_ascii: bool,
    pub highlight: bool,
    pub theme: ThemeModel,
}

/// A segment of `text` in `style`, or without a style where highlighting is
/// off.
pub open spec fn piece(m: JsonModel, text: Seq<char>, style: StyleModel) -> SegmentModel {
    SegmentModel {
        text,
        style: if m.highlight {
            Some(style)
        } else {
            None
        },
        control: false,
    }
}

/// A segment of `text` without a style.
pub open spec fn gap(text: Seq<char>) -> SegmentModel {
    SegmentModel { text, style: None, control: false }
}

/// The indentation at `depth`: nothing in compact mode, `depth` times the
/// spaces or the unit otherwise, with the tabs of the unit expanded.
pub open spec fn indent_text(m: JsonModel, depth: nat, tab_size: usize) -> Seq<char> {
    match m.indent {
        IndentModel::Compact => Seq::<char>::empty(),
        IndentModel::Spaces(n) => repeated(' ', clip((n * depth) as nat) as nat),
        IndentModel::Unit(unit) => {
            let all = copies(unit, depth);
            tabs_expanded(all, tab_size, all.len() as int)
        },
    }
}

/// Whether `a` comes before `b`, or is `b`, in the order of strings:
/// character by character from position `i` on, a text before every longer
/// text that begins with it.
pub open spec fn text_le(a: Seq<char>, b: Seq<char>, i: int) -> bool
    decreases a.len() - i,
{
    if i < 0 || i >= a.len() {
        true
    } else if i >= b.len() {
        false
    } else if a[i] != b[i] {
        (a[i] as u32) < (b[i] as u32)
    } else {
        text_le(a, b, i + 1)
    }
}

/// The entry `k` put into an order of entries sorted by key: behind every
/// entry whose key is not larger.
pub open spec fn placed_key(order: Seq<int>, keys: Seq<Seq<char>>, k: int) -> Seq<int>
    decreases order.len(),
{
    if order.len() == 0 {
        seq![k]
    } else if text_le(keys[order.last()], keys[k], 0) {
        order.push(k)
    } else {
        placed_key(order.drop_last(), keys, k).push(order.last())
    }
}

/// The order in which the first `k` entries of an object are shown: sorted
/// by key, entries with the same key in their own order, if `sort` is set;
/// as they stand otherwise.
pub open spec fn key_order(keys: Seq<Seq<char>>, sort: bool, k: int) -> Seq<int>
    decreases k,
{
    if k <= 0 {
        Seq::<int>::empty()
    } else if sort {
        placed_key(key_order(keys, sort, k - 1), keys, k - 1)
    } else {
        key_order(keys, sort, k - 1).push(k - 1)
    }
}

/// The keys of the entries of an object.
pub open spec fn keys_of(entries: Seq<(String, JsonValue)>) -> Seq<Seq<char>> {
    Seq::new(entries.len(), |i: int| entries[i].0@)
}

/// The deepest level at which arrays and objects are still shown in full.
pub const MAX_DEPTH: usize = 20;

/// The segments of a JSON value at `depth`.
pub open spec fn drawn_value(m: JsonModel, value: JsonValue, depth: nat, tab_size: usize) -> Line
    decreases value, 1int, 0int,
{
    match value {
        JsonValue::Null => seq![piece(m, "null"@, m.theme.null)],
        JsonValue::Bool(b) => if b {
            seq![piece(m, "true"@, m.theme.bool_true)]
        } else {
            seq![piece(m, "false"@, m.theme.bool_false)]
        },
        JsonValue::Number(n) => seq![piece(m, n@, m.theme.number)],
        JsonValue::Text(s) => seq![piece(m, quoted(s@, m.ensure_ascii), m.theme.string)],
        JsonValue::Array(items) => if depth > MAX_DEPTH {
            seq![piece(m, "[...]"@, m.theme.bracket)]
        } else if items.len() == 0 {
            seq![piece(m, "[]"@, m.theme.bracket)]
        } else if m.indent is Compact {
            seq![piece(m, "["@, m.theme.bracket)] + drawn_items(
                m,
                value,
                items.len() as int,
                depth,
                tab_size,
            ) + seq![piece(m, "]"@, m.theme.bracket)]
        } else {
            seq![piece(m, "["@, m.theme.bracket), gap("\n"@)] + drawn_items(
                m,
                value,
                items.len() as int,
                depth,
                tab_size,
            ) + seq![gap(indent_text(m, depth, tab_size)), piece(m, "]"@, m.theme.bracket)]
        },
        JsonValue::Object(entries) => if depth > MAX_DEPTH {
            seq![piece(m, "{...}"@, m.theme.bracket)]
        } else if entries.len() == 0 {
            seq![piece(m, "{}"@, m.theme.bracket)]
        } else if m.indent is Compact {
            seq![piece(m, "{"@, m.theme.bracket)] + drawn_entries(
                m,
                value,
                entries.len() as int,
                depth,
                tab_size,
            ) + seq![piece(m, "}"@, m.theme.bracket)]
        } else {
            seq![piece(m, "{"@, m.theme.bracket), gap("\n"@)] + drawn_entries(
                m,
                value,
                entries.len() as int,
                depth,
                tab_size,
            ) + seq![gap(indent_text(m, depth, tab_size)), piece(m, "}"@, m.theme.bracket)]
        },
    }
}

/// The segments of the first `k` items of an array at `depth`. In compact
/// mode the items are separated by `", "`; in pretty mode each stands on a
/// line of its own, indented one level deeper, with a comma behind every
/// item but the last.
pub open spec fn drawn_items(m: JsonModel, value: JsonValue, k: int, depth: nat, tab_size: usize) -> Line
    decreases value, 0int, k,
{
    match value {
        JsonValue::Array(items) => {
            if k <= 0 || k > items.len() {
                Seq::<SegmentModel>::empty()
            } else {
                let before = drawn_items(m, value, k - 1, depth, tab_size);
                let item = drawn_value(m, items[k - 1], depth + 1, tab_size);
                let last = k == items.len();
                if m.indent is Compact {
                    before + item + if last {
                        Seq::<SegmentModel>::empty()
                    } else {
                        seq![piece(m, ", "@, m.theme.punctuation)]
                    }
                } else {
                    before + seq![gap(indent_text(m, depth + 1, tab_size))] + item + if last {
                        Seq::<SegmentModel>::empty()
                    } else {
                        seq![piece(m, ","@, m.theme.punctuation)]
                    } + seq![gap("\n"@)]
                }
            }
        },
        _ => Seq::<SegmentModel>::empty(),
    }
}

/// The segments of the first `k` entries of an object at `depth`, in the
/// order in which they are shown: the key, `": "`, and the value, separated
/// like the items of an array.
pub open spec fn drawn_entries(m: JsonModel, value: JsonValue, k: int, depth: nat, tab_size: usize) -> Line
    decreases value, 0int, k,
{
    match value {
        JsonValue::Object(entries) => {
            let order = key_order(keys_of(entries@), m.sort_keys, entries.len() as int);
            if k <= 0 || k > entries.len() || k > order.len() || order[k - 1] < 0 || order[k - 1]
                >= entries.len() {
                Seq::<SegmentModel>::empty()
            } else {
                let before = drawn_entries(m, value, k - 1, depth, tab_size);
                let entry = entries[order[k - 1]];
                let shown = seq![
                    piece(m, quoted(entry.0@, m.ensure_ascii), m.theme.key),
                    piece(m, ": "@, m.theme.punctuation),
                ] + drawn_value(m, entry.1, depth + 1, tab_size);
                let last = k == entries.len();
                if m.indent is Compact {
                    before + shown + if last {
                        Seq::<SegmentModel>::empty()
                    } else {
                        seq![piece(m, ", "@, m.theme.punctuation)]
                    }
                } else {
                    before + seq![gap(indent_text(m, depth + 1, tab_size))] + shown + if last {
                        Seq::<SegmentModel>::empty()
                    } else {
                        seq![piece(m, ","@, m.theme.punctuation)]
                    } + seq![gap("\n"@)]
                }
            }
        },
        _ => Seq::<SegmentModel>::empty(),
    }
}

/// The order of entries holds every entry once: it is as long as there are
/// entries, and every position in it is the position of an entry.
pub proof fn lemma_key_order(keys: Seq<Seq<char>>, sort: bool, k: int)
    requires
        0 <= k <= keys.len(),
    ensures
        key_order(keys, sort, k).len() == k,
        forall|i: int| 0 <= i < k ==> 0 <= #[trigger] key_order(keys, sort, k)[i] < k,
    decreases k,
{
    if k > 0 {
        lemma_key_order(keys, sort, k - 1);
        if sort {
            lemma_placed_key(key_order(keys, sort, k - 1), keys, k - 1);
        }
    }
}

proof fn lemma_placed_key(order: Seq<int>, keys: Seq<Seq<char>>, k: int)
    requires
        0 <= k,
        forall|i: int| 0 <= i < order.len() ==> 0 <= #[trigger] order[i] < k,
    ensures
        placed_key(order, keys, k).len() == order.len() + 1,
        forall|i: int|
            0 <= i < order.len() + 1 ==> 0 <= #[trigger] placed_key(order, keys, k)[i] <= k,
    decreases order.len(),
{
    let out = placed_key(order, keys, k);
    if order.len() > 0 && !text_le(keys[order.last()], keys[k], 0) {
        lemma_placed_key(order.drop_last(), keys, k);
        let front = placed_key(order.drop_last(), keys, k);
        assert forall|i: int| 0 <= i < order.len() + 1 implies 0 <= #[trigger] out[i] <= k by {
            if i < order.len() {
                assert(out[i] == front[i]);
            } else {
                assert(out[i] == order.last());
            }
        }
    } else if order.len() > 0 {
        assert forall|i: int| 0 <= i < order.len() + 1 implies 0 <= #[trigger] out[i] <= k by {
            if i < order.len() {
                assert(out[i] == order[i]);
            }
        }
    }
}

/// A renderable for JSON data with syntax highlighting.
#[derive(Debug)]
pub struct Json {
    value: JsonValue,
    indent: JsonIndent,
    sort_keys: bool,
    ensure_ascii: bool,
    highlight: bool,
    theme: JsonTheme,
}

impl Json {
    /// How the value is rendered.
    pub closed spec fn model(&self) -> JsonModel {
        JsonModel {
            indent: self.indent@,
            sort_keys: self.sort_keys,
            ensure_ascii: self.ensure_ascii,
            highlight: self.highlight,
            theme: self.theme@,
        }
    }

    /// The value that is rendered.
    pub closed spec fn data(&self) -> JsonValue {
        self.value
    }

    /// What rendering yields with tabs of `tab_size` cells.
    pub open spec fn drawn(&self, tab_size: usize) -> Line {
        drawn_value(self.model(), self.data(), 0, tab_size)
    }

    /// Create a new Json renderable: pretty with two spaces, keys as they
    /// stand, highlighted in the default theme.
    pub fn new(value: JsonValue) -> (out: Json)
        ensures
            out.data() == value,
            out.model() == (JsonModel {
                indent: IndentModel::Spaces(2),
                sort_keys: false,
                ensure_ascii: false,
                highlight: true,
                theme: ThemeModel::standard(),
            }),
    {
        Json {
            value,
            indent: JsonIndent::Spaces(2),
            sort_keys: false,
            ensure_ascii: false,
            highlight: true,
            theme: JsonTheme::default(),
        }
    }

    /// Create a new Json renderable with explicit options.
    pub fn with_options(value: JsonValue, options: JsonOptions) -> (out: Json)
        ensures
            out.data() == value,
            out.model() == (JsonModel {
                indent: options.indent@,
                sort_keys: options.sort_keys,
                ensure_ascii: options.ensure_ascii,
                highlight: options.highlight,
                theme: ThemeModel::standard(),
            }),
    {
        Json {
            value,
            indent: options.indent,
            sort_keys: options.sort_keys,
            ensure_ascii: options.ensure_ascii,
            highlight: options.highlight,
            theme: JsonTheme::default(),
        }
    }

    /// Set the number of spaces for indentation (pretty mode).
    pub fn indent(self, spaces: usize) -> (out: Json)
        ensures
            out.data() == self.data(),
            out.model() == (JsonModel { indent: IndentModel::Spaces(spaces), ..self.model() }),
    {
        let mut out = self;
        out.indent = JsonIndent::Spaces(spaces);
        out
    }

    /// Set a custom indentation string (pretty mode).
    pub fn indent_str(self, unit: &str) -> (out: Json)
        ensures
            out.data() == self.data(),
            out.model() == (JsonModel { indent: IndentModel::Unit(unit@), ..self.model() }),
    {
        let mut out = self;
        out.indent = JsonIndent::Unit(String::from_str(unit));
        out
    }

    /// Render JSON in compact mode.
    pub fn compact(self) -> (out: Json)
        ensures
            out.data() == self.data(),
            out.model() == (JsonModel { indent: IndentModel::Compact, ..self.model() }),
    {
        let mut out = self;
        out.indent = JsonIndent::Compact;
        out
    }

    /// Set whether to sort object keys alphabetically.
    pub fn sort_keys(self, sort: bool) -> (out: Json)
        ensures
            out.data() == self.data(),
            out.model() == (JsonModel { sort_keys: sort, ..self.model() }),
    {
        let mut out = self;
        out.sort_keys = sort;
        out
    }

    /// Set whether to escape non-ASCII characters.
    pub fn ensure_ascii(self, ensure_ascii: bool) -> (out: Json)
        ensures
            out.data() == self.data(),
            out.model() == (JsonModel { ensure_ascii, ..self.model() }),
    {
        let mut out = self;
        out.ensure_ascii = ensure_ascii;
        out
    }

    /// Set whether to apply syntax highlighting.
    pub fn highlight(self, highlight: bool) -> (out: Json)
        ensures
            out.data() == self.data(),
            out.model() == (JsonModel { highlight, ..self.model() }),
    {
        let mut out = self;
        out.highlight = highlight;
        out
    }

    /// Set a custom theme for syntax highlighting.
    pub fn theme(self, theme: JsonTheme) -> (out: Json)
        ensures
            out.data() == self.data(),
            out.model() == (JsonModel { theme: theme@, ..self.model() }),
    {
        let mut out = self;
        out.theme = theme;
        out
    }

    /// Get a style, or no style if highlighting is disabled.
    fn style(&self, style: &Style) -> (out: Option<Style>)
        ensures
            crate::segment::style_of(out) == if self.highlight {
                Some(style@)
            } else {
                None
            },
    {
        if self.highlight {
            Some(style.clone())
        } else {
            None
        }
    }

    /// A segment of `text` in `style`, or without style where highlighting
    /// is off.
    fn piece(&self, text: &str, style: &Style) -> (out: Segment)
        ensures
            out@ == piece(self.model(), text@, style@),
    {
        Segment::new(text, self.style(style))
    }

    fn is_compact(&self) -> (yes: bool)
        ensures
            yes == (self.model().indent is Compact),
    {
        match self.indent {
            JsonIndent::Compact => true,
            _ => false,
        }
    }

    /// The indentation at `depth`.
    fn indent_prefix(&self, depth: usize, tab_size: usize) -> (out: String)
        ensures
            out@ == indent_text(self.model(), depth as nat, tab_size),
    {
        match &self.indent {
            JsonIndent::Compact => String::new(),
            JsonIndent::Spaces(n) => {
                let count = mul_clipped(*n, depth);
                repeat_char(' ', count)
            },
            JsonIndent::Unit(unit) => {
                let mut all = String::new();
                let mut k: usize = 0;
                while k < depth
                    invariant
                        k <= depth,
                        all@ == copies(unit@, k as nat),
                    decreases depth - k,
                {
                    all.append(unit.as_str());
                    k = k + 1;
                }
                expand_tabs_at_col0(all.as_str(), tab_size)
            },
        }
    }
}

/// `a * b`, or the largest `usize` where the product does not fit.
fn mul_clipped(a: usize, b: usize) -> (out: usize)
    ensures
        out == clip((a * b) as nat),
{
    if a == 0 || b == 0 {
        assert(a * b == 0) by (nonlinear_arith)
            requires
                a == 0 || b == 0,
        ;
        0
    } else if a > usize::MAX / b {
        assert(a * b > usize::MAX) by (nonlinear_arith)
            requires
                a > usize::MAX / b,
                b > 0,
        ;
        usize::MAX
    } else {
        assert(a * b <= usize::MAX) by (nonlinear_arith)
            requires
                a <= usize::MAX / b,
                b > 0,
        ;
        a * b
    }
}

/// Whether `a` comes before `b`, or is `b`, in the order of strings.
pub fn key_le(a: &str, b: &str) -> (yes: bool)
    ensures
        yes == text_le(a@, b@, 0),
{
    let x = chars_of(a);
    let y = chars_of(b);
    let mut i: usize = 0;
    while i < x.len()
        invariant
            i <= x.len(),
            x@ == a@,
            y@ == b@,
            text_le(a@, b@, i as int) == text_le(a@, b@, 0),
        decreases x.len() - i,
    {
        if i >= y.len() {
            return false;
        }
        if x[i] != y[i] {
            return (x[i] as u32) < (y[i] as u32);
        }
        i = i + 1;
    }
    true
}

/// Positions read as integers.
pub open spec fn positions(order: Seq<usize>) -> Seq<int> {
    Seq::new(order.len(), |i: int| order[i] as int)
}

proof fn lemma_placed_key_at(order: Seq<int>, keys: Seq<Seq<char>>, k: int, pos: int)
    requires
        0 <= pos <= order.len(),
        forall|j: int| pos <= j < order.len() ==> !text_le(keys[#[trigger] order[j]], keys[k], 0),
        pos > 0 ==> text_le(keys[order[pos - 1]], keys[k], 0),
    ensures
        placed_key(order, keys, k) == order.insert(pos, k),
    decreases order.len(),
{
    if order.len() == 0 {
        assert(order.insert(pos, k) =~= seq![k]);
    } else if text_le(keys[order.last()], keys[k], 0) {
        assert(pos == order.len()) by {
            if pos < order.len() {
                assert(!text_le(keys[order[order.len() - 1]], keys[k], 0));
            }
        }
        assert(order.insert(pos, k) =~= order.push(k));
    } else {
        lemma_placed_key_at(order.drop_last(), keys, k, pos);
        assert(order.insert(pos, k) =~= order.drop_last().insert(pos, k).push(order.last()));
    }
}

/// The order in which the entries of an object are shown.
pub fn order_entries(entries: &Vec<(String, JsonValue)>, sort: bool) -> (order: Vec<usize>)
    ensures
        positions(order@) == key_order(keys_of(entries@), sort, entries.len() as int),
        order.len() == entries.len(),
        forall|i: int| 0 <= i < order.len() ==> order[i] < entries.len(),
{
    let ghost keys = keys_of(entries@);
    let mut order: Vec<usize> = Vec::new();
    let mut k: usize = 0;
    proof {
        assert(positions(order@) =~= Seq::<int>::empty());
    }
    while k < entries.len()
        invariant
            k <= entries.len(),
            keys == keys_of(entries@),
            order.len() == k,
            forall|i: int| 0 <= i < order.len() ==> order[i] < k,
            positions(order@) == key_order(keys, sort, k as int),
        decreases entries.len() - k,
    {
        let ghost before = positions(order@);
        let mut pos = order.len();
        if sort {
            while pos > 0 && !key_le(entries[order[pos - 1]].0.as_str(), entries[k].0.as_str())
                invariant
                    pos <= order.len(),
                    k < entries.len(),
                    keys == keys_of(entries@),
                    before == positions(order@),
                    forall|i: int| 0 <= i < order.len() ==> order[i] < k,
                    forall|j: int|
                        pos <= j < order.len() ==> !text_le(
                            keys[#[trigger] before[j]],
                            keys[k as int],
                            0,
                        ),
                decreases pos,
            {
                proof {
                    assert(before[pos - 1] == order[pos - 1]);
                }
                pos = pos - 1;
            }
            proof {
                if pos > 0 {
                    assert(before[pos - 1] == order[pos - 1]);
                }
                lemma_placed_key_at(before, keys, k as int, pos as int);
            }
        }
        order.insert(pos, k);
        proof {
            assert(positions(order@) =~= before.insert(pos as int, k as int));
            if !sort {
                assert(before.insert(pos as int, k as int) =~= before.push(k as int));
            }
        }
        k = k + 1;
    }
    order
}

impl Json {
    /// Render a JSON value at the given depth.
    pub fn render_value(&self, value: &JsonValue, depth: usize, tab_size: usize) -> (out: Vec<
        Segment,
    >)
        ensures
            out.deep_view() == drawn_value(self.model(), *value, depth as nat, tab_size),
        decreases value, 1int,
    {
        let ghost m = self.model();
        let mut out: Vec<Segment> = Vec::new();
        match value {
            JsonValue::Null => {
                out.push(self.piece("null", &self.theme.null));
                proof {
                    assert(out.deep_view() =~= seq![piece(m, "null"@, m.theme.null)]);
                }
            },
            JsonValue::Bool(b) => {
                if *b {
                    out.push(self.piece("true", &self.theme.bool_true));
                    proof {
                        assert(out.deep_view() =~= seq![piece(m, "true"@, m.theme.bool_true)]);
                    }
                } else {
                    out.push(self.piece("false", &self.theme.bool_false));
                    proof {
                        assert(out.deep_view() =~= seq![piece(m, "false"@, m.theme.bool_false)]);
                    }
                }
            },
            JsonValue::Number(n) => {
                out.push(self.piece(n.as_str(), &self.theme.number));
                proof {
                    assert(out.deep_view() =~= seq![piece(m, n@, m.theme.number)]);
                }
            },
            JsonValue::Text(s) => {
                let text = self.quote(s.as_str());
                out.push(self.piece(text.as_str(), &self.theme.string));
                proof {
                    assert(out.deep_view() =~= seq![
                        piece(m, quoted(s@, m.ensure_ascii), m.theme.string),
                    ]);
                }
            },
            JsonValue::Array(items) => {
                return self.render_array(value, depth, tab_size);
            },
            JsonValue::Object(entries) => {
                return self.render_object(value, depth, tab_size);
            },
        }
        out
    }

    /// A text between double quotes as it stands in JSON.
    fn quote(&self, s: &str) -> (out: String)
        ensures
            out@ == quoted(s@, self.model().ensure_ascii),
    {
        let mut out = String::new();
        out.push('"');
        let body = escape_json_string(s, self.ensure_ascii);
        out.append(body.as_str());
        out.push('"');
        proof {
            assert(out@ =~= quoted(s@, self.model().ensure_ascii));
        }
        out
    }

    /// Render an array.
    pub fn render_array(&self, value: &JsonValue, depth: usize, tab_size: usize) -> (out: Vec<
        Segment,
    >)
        requires
            *value is Array,
        ensures
            out.deep_view() == drawn_value(self.model(), *value, depth as nat, tab_size),
        decreases value, 0int,
    {
        let ghost m = self.model();
        let mut out: Vec<Segment> = Vec::new();
        match value {
            JsonValue::Array(items) => {
                if depth > MAX_DEPTH {
                    out.push(self.piece("[...]", &self.theme.bracket));
                    proof {
                        assert(out.deep_view() =~= seq![piece(m, "[...]"@, m.theme.bracket)]);
                    }
                    return out;
                }
                if items.len() == 0 {
                    out.push(self.piece("[]", &self.theme.bracket));
                    proof {
                        assert(out.deep_view() =~= seq![piece(m, "[]"@, m.theme.bracket)]);
                    }
                    return out;
                }
                let compact = self.is_compact();
                out.push(self.piece("[", &self.theme.bracket));
                if !compact {
                    out.push(Segment::new("\n", None));
                }
                let ghost head = out.deep_view();
                proof {
                    if compact {
                        assert(head =~= seq![piece(m, "["@, m.theme.bracket)]);
                    } else {
                        assert(head =~= seq![piece(m, "["@, m.theme.bracket), gap("\n"@)]);
                    }
                    assert(head + Seq::<SegmentModel>::empty() =~= head);
                }
                let inner = if compact {
                    String::new()
                } else {
                    self.indent_prefix(depth + 1, tab_size)
                };
                let mut k: usize = 0;
                while k < items.len()
                    invariant
                        k <= items.len(),
                        m == self.model(),
                        *value == JsonValue::Array(*items),
                        compact == (m.indent is Compact),
                        depth <= MAX_DEPTH,
                        !compact ==> inner@ == indent_text(m, (depth + 1) as nat, tab_size),
                        out.deep_view() == head + drawn_items(
                            m,
                            *value,
                            k as int,
                            depth as nat,
                            tab_size,
                        ),
                    decreases items.len() - k,
                {
                    let ghost before = drawn_items(m, *value, k as int, depth as nat, tab_size);
                    let ghost start = out.deep_view();
                    if !compact {
                        out.push(Segment::new(inner.as_str(), None));
                    }
                    let ghost lead = out.deep_view();
                    let mut item = self.render_value(&items[k], depth + 1, tab_size);
                    let ghost shown = item.deep_view();
                    out.append(&mut item);
                    let ghost mid = out.deep_view();
                    proof {
                        assert(mid =~= lead + shown);
                    }
                    if k + 1 < items.len() {
                        if compact {
                            out.push(self.piece(", ", &self.theme.punctuation));
                        } else {
                            out.push(self.piece(",", &self.theme.punctuation));
                        }
                    }
                    if !compact {
                        out.push(Segment::new("\n", None));
                    }
                    proof {
                        let next = drawn_items(m, *value, k + 1, depth as nat, tab_size);
                        let sep = if k + 1 == items.len() {
                            Seq::<SegmentModel>::empty()
                        } else if compact {
                            seq![piece(m, ", "@, m.theme.punctuation)]
                        } else {
                            seq![piece(m, ","@, m.theme.punctuation)]
                        };
                        assert(shown == drawn_value(m, items[k as int], (depth + 1) as nat, tab_size));
                        if compact {
                            assert(next == before + shown + sep);
                            assert(out.deep_view() =~= (head + before) + shown + sep);
                        } else {
                            let lead_gap = seq![gap(indent_text(m, (depth + 1) as nat, tab_size))];
                            assert(next == before + lead_gap + shown + sep + seq![gap("\n"@)]);
                            assert(out.deep_view() =~= (head + before) + lead_gap + shown + sep
                                + seq![gap("\n"@)]);
                        }
                        assert(out.deep_view() =~= head + next);
                    }
                    k = k + 1;
                }
                let ghost body = out.deep_view();
                if !compact {
                    let close = self.indent_prefix(depth, tab_size);
                    out.push(Segment::new(close.as_str(), None));
                }
                out.push(self.piece("]", &self.theme.bracket));
                proof {
                    assert(out.deep_view() =~= drawn_value(m, *value, depth as nat, tab_size));
                }
            },
            _ => {},
        }
        out
    }

    /// Render an object.
    pub fn render_object(&self, value: &JsonValue, depth: usize, tab_size: usize) -> (out: Vec<
        Segment,
    >)
        requires
            *value is Object,
        ensures
            out.deep_view() == drawn_value(self.model(), *value, depth as nat, tab_size),
        decreases value, 0int,
    {
        let ghost m = self.model();
        let mut out: Vec<Segment> = Vec::new();
        match value {
            JsonValue::Object(entries) => {
                if depth > MAX_DEPTH {
                    out.push(self.piece("{...}", &self.theme.bracket));
                    proof {
                        assert(out.deep_view() =~= seq![piece(m, "{...}"@, m.theme.bracket)]);
                    }
                    return out;
                }
                if entries.len() == 0 {
                    out.push(self.piece("{}", &self.theme.bracket));
                    proof {
                        assert(out.deep_view() =~= seq![piece(m, "{}"@, m.theme.bracket)]);
                    }
                    return out;
                }
                let order = order_entries(entries, self.sort_keys);
                let compact = self.is_compact();
                out.push(self.piece("{", &self.theme.bracket));
                if !compact {
                    out.push(Segment::new("\n", None));
                }
                let ghost head = out.deep_view();
                proof {
                    if compact {
                        assert(head =~= seq![piece(m, "{"@, m.theme.bracket)]);
                    } else {
                        assert(head =~= seq![piece(m, "{"@, m.theme.bracket), gap("\n"@)]);
                    }
                    assert(head + Seq::<SegmentModel>::empty() =~= head);
                }
                let inner = if compact {
                    String::new()
                } else {
                    self.indent_prefix(depth + 1, tab_size)
                };
                let mut k: usize = 0;
                while k < order.len()
                    invariant
                        k <= order.len(),
                        order.len() == entries.len(),
                        forall|i: int| 0 <= i < order.len() ==> order[i] < entries.len(),
                        positions(order@) == key_order(
                            keys_of(entries@),
                            m.sort_keys,
                            entries.len() as int,
                        ),
                        m == self.model(),
                        *value == JsonValue::Object(*entries),
                        compact == (m.indent is Compact),
                        depth <= MAX_DEPTH,
                        !compact ==> inner@ == indent_text(m, (depth + 1) as nat, tab_size),
                        out.deep_view() == head + drawn_entries(
                            m,
                            *value,
                            k as int,
                            depth as nat,
                            tab_size,
                        ),
                    decreases order.len() - k,
                {
                    proof {
                        assert(positions(order@)[k as int] == order[k as int]);
                    }
                    let entry = &entries[order[k]];
                    if !compact {
                        out.push(Segment::new(inner.as_str(), None));
                    }
                    let key = self.quote(entry.0.as_str());
                    out.push(self.piece(key.as_str(), &self.theme.key));
                    out.push(self.piece(": ", &self.theme.punctuation));
                    let ghost lead = out.deep_view();
                    let mut item = self.render_value(&entry.1, depth + 1, tab_size);
                    let ghost shown = item.deep_view();
                    out.append(&mut item);
                    proof {
                        assert(out.deep_view() =~= lead + shown);
                    }
                    if k + 1 < order.len() {
                        if compact {
                            out.push(self.piece(", ", &self.theme.punctuation));
                        } else {
                            out.push(self.piece(",", &self.theme.punctuation));
                        }
                    }
                    if !compact {
                        out.push(Segment::new("\n", None));
                    }
                    proof {
                        let before = drawn_entries(m, *value, k as int, depth as nat, tab_size);
                        let next = drawn_entries(m, *value, k + 1, depth as nat, tab_size);
                        let sep = if k + 1 == entries.len() {
                            Seq::<SegmentModel>::empty()
                        } else if compact {
                            seq![piece(m, ", "@, m.theme.punctuation)]
                        } else {
                            seq![piece(m, ","@, m.theme.punctuation)]
                        };
                        let shown = seq![
                            piece(m, quoted(entry.0@, m.ensure_ascii), m.theme.key),
                            piece(m, ": "@, m.theme.punctuation),
                        ] + drawn_value(m, entry.1, (depth + 1) as nat, tab_size);
                        if compact {
                            assert(next == before + shown + sep);
                            assert(out.deep_view() =~= (head + before) + shown + sep);
                        } else {
                            let lead_gap = seq![gap(indent_text(m, (depth + 1) as nat, tab_size))];
                            assert(next == before + lead_gap + shown + sep + seq![gap("\n"@)]);
                            assert(out.deep_view() =~= (head + before) + lead_gap + shown + sep
                                + seq![gap("\n"@)]);
                        }
                        assert(out.deep_view() =~= head + next);
                    }
                    k = k + 1;
                }
                if !compact {
                    let close = self.indent_prefix(depth, tab_size);
                    out.push(Segment::new(close.as_str(), None));
                }
                out.push(self.piece("}", &self.theme.bracket));
                proof {
                    assert(out.deep_view() =~= drawn_value(m, *value, depth as nat, tab_size));
                }
            },
            _ => {},
        }
        out
    }

    /// Render the JSON to segments, using the given tab size for indentation
    /// expansion.
    pub fn render_with_tab_size(&self, tab_size: usize) -> (out: Vec<Segment>)
        ensures
            out.deep_view() == self.drawn(tab_size),
    {
        self.render_value(&self.value, 0, tab_size)
    }

    /// Render the JSON to segments using the default tab size (8).
    pub fn render(&self) -> (out: Vec<Segment>)
        ensures
            out.deep_view() == self.drawn(8),
    {
        self.render_with_tab_size(8)
    }

    /// Render to a plain string without styles.
    pub fn to_plain_string(&self) -> (out: String)
        ensures
            out@ == crate::segment::line_text(self.drawn(8)),
    {
        let segments = self.render();
        let mut out = String::new();
        let mut i: usize = 0;
        while i < segments.len()
            invariant
                i <= segments.len(),
                out@ == crate::segment::line_text(segments.deep_view().take(i as int)),
            decreases segments.len() - i,
        {
            proof {
                assert(segments.deep_view().take(i + 1).drop_last() =~= segments.deep_view().take(
                    i as int,
                ));
            }
            if !segments[i].control {
                out.append(segments[i].text.as_str());
            }
            i = i + 1;
        }
        proof {
            assert(segments.deep_view().take(segments.len() as int) =~= segments.deep_view());
        }
        out
    }
}

impl Renderable for Json {
    open spec fn rendered(&self, width: usize, height: usize) -> Line {
        self.drawn(8)
    }

    /// Draws the JSON with tabs of eight cells, whatever the size.
    fn render(&self, width: usize, height: usize) -> (out: Vec<Segment>) {
        self.render_with_tab_size(8)
    }
}

} // verus!

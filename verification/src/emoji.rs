//! Emoji support (`:name:` codes).
//!
//! An emoji code is a name between two colons, as in `:smile:`. A name can
//! end in `-text` or `-emoji` to ask for the text or the emoji presentation
//! of the character. Codes of known names are replaced by the character,
//! followed by the variant selector if one is asked for; everything else is
//! left as it is.
use crate::strings::chars_of;
use vstd::prelude::*;

verus! {

/// Emoji presentation variant selector.
#[derive(Debug, Clone, Copy, PartialEq, Eq, Structural)]
pub enum EmojiVariant {
    /// Prefer emoji presentation (U+FE0F).
    Emoji,
    /// Prefer text presentation (U+FE0E).
    Text,
}

impl EmojiVariant {
    /// The character that asks for the variant.
    pub open spec fn mark(self) -> Seq<char> {
        match self {
            EmojiVariant::Emoji => "\u{FE0F}"@,
            EmojiVariant::Text => "\u{FE0E}"@,
        }
    }

    /// The variant selector as a string.
    pub fn selector(self) -> (s: &'static str)
        ensures
            s@ == self.mark(),
    {
        match self {
            EmojiVariant::Emoji => "\u{FE0F}",
            EmojiVariant::Text => "\u{FE0E}",
        }
    }
}

/// The emoji called `name`, for the names that the library knows.
pub open spec fn glyph(name: Seq<char>) -> Option<Seq<char>> {
    if name == "smile"@ {
        Some("\u{1f604}"@)
    } else if name == "+1"@ {
        Some("\u{1f44d}"@)
    } else if name == "thumbs_up"@ {
        Some("\u{1f44d}"@)
    } else if name == "thumbsup"@ {
        Some("\u{1f44d}"@)
    } else if name == "-1"@ {
        Some("\u{1f44e}"@)
    } else if name == "thumbs_down"@ {
        Some("\u{1f44e}"@)
    } else if name == "thumbsdown"@ {
        Some("\u{1f44e}"@)
    } else if name == "100"@ {
        Some("\u{1f4af}"@)
    } else if name == "heart"@ {
        Some("\u{2764}"@)
    } else if name == "red_heart"@ {
        Some("\u{2764}"@)
    } else if name == "fire"@ {
        Some("\u{1f525}"@)
    } else if name == "star"@ {
        Some("\u{2b50}"@)
    } else if name == "rocket"@ {
        Some("\u{1f680}"@)
    } else if name == "warning"@ {
        Some("\u{26a0}"@)
    } else if name == "check_mark"@ {
        Some("\u{2714}"@)
    } else if name == "heavy_check_mark"@ {
        Some("\u{2714}"@)
    } else if name == "white_check_mark"@ {
        Some("\u{2705}"@)
    } else if name == "cross_mark"@ {
        Some("\u{274c}"@)
    } else if name == "x"@ {
        Some("\u{274c}"@)
    } else if name == "sparkles"@ {
        Some("\u{2728}"@)
    } else if name == "tada"@ {
        Some("\u{1f389}"@)
    } else if name == "party_popper"@ {
        Some("\u{1f389}"@)
    } else if name == "grinning"@ {
        Some("\u{1f600}"@)
    } else if name == "grinning_face"@ {
        Some("\u{1f600}"@)
    } else if name == "smiley"@ {
        Some("\u{1f603}"@)
    } else if name == "grin"@ {
        Some("\u{1f601}"@)
    } else if name == "joy"@ {
        Some("\u{1f602}"@)
    } else if name == "wink"@ {
        Some("\u{1f609}"@)
    } else if name == "blush"@ {
        Some("\u{1f60a}"@)
    } else if name == "heart_eyes"@ {
        Some("\u{1f60d}"@)
    } else if name == "sunglasses"@ {
        Some("\u{1f60e}"@)
    } else if name == "thinking_face"@ {
        Some("\u{1f914}"@)
    } else if name == "cry"@ {
        Some("\u{1f622}"@)
    } else if name == "sob"@ {
        Some("\u{1f62d}"@)
    } else if name == "angry"@ {
        Some("\u{1f620}"@)
    } else if name == "scream"@ {
        Some("\u{1f631}"@)
    } else if name == "skull"@ {
        Some("\u{1f480}"@)
    } else if name == "ghost"@ {
        Some("\u{1f47b}"@)
    } else if name == "robot"@ {
        Some("\u{1f916}"@)
    } else if name == "ok_hand"@ {
        Some("\u{1f44c}"@)
    } else if name == "wave"@ {
        Some("\u{1f44b}"@)
    } else if name == "clap"@ {
        Some("\u{1f44f}"@)
    } else if name == "pray"@ {
        Some("\u{1f64f}"@)
    } else if name == "muscle"@ {
        Some("\u{1f4aa}"@)
    } else if name == "eyes"@ {
        Some("\u{1f440}"@)
    } else if name == "point_right"@ {
        Some("\u{1f449}"@)
    } else if name == "point_left"@ {
        Some("\u{1f448}"@)
    } else if name == "bug"@ {
        Some("\u{1f41b}"@)
    } else if name == "snake"@ {
        Some("\u{1f40d}"@)
    } else if name == "crab"@ {
        Some("\u{1f980}"@)
    } else if name == "dog"@ {
        Some("\u{1f436}"@)
    } else if name == "cat"@ {
        Some("\u{1f431}"@)
    } else if name == "coffee"@ {
        Some("\u{2615}"@)
    } else if name == "pizza"@ {
        Some("\u{1f355}"@)
    } else if name == "beer"@ {
        Some("\u{1f37a}"@)
    } else if name == "cake"@ {
        Some("\u{1f370}"@)
    } else if name == "zap"@ {
        Some("\u{26a1}"@)
    } else if name == "snowflake"@ {
        Some("\u{2744}"@)
    } else if name == "rainbow"@ {
        Some("\u{1f308}"@)
    } else if name == "hourglass"@ {
        Some("\u{231b}"@)
    } else if name == "alarm_clock"@ {
        Some("\u{23f0}"@)
    } else if name == "lock"@ {
        Some("\u{1f512}"@)
    } else if name == "key"@ {
        Some("\u{1f511}"@)
    } else if name == "bell"@ {
        Some("\u{1f514}"@)
    } else if name == "bulb"@ {
        Some("\u{1f4a1}"@)
    } else if name == "gear"@ {
        Some("\u{2699}"@)
    } else if name == "hammer"@ {
        Some("\u{1f528}"@)
    } else if name == "wrench"@ {
        Some("\u{1f527}"@)
    } else if name == "package"@ {
        Some("\u{1f4e6}"@)
    } else if name == "memo"@ {
        Some("\u{1f4dd}"@)
    } else if name == "mag"@ {
        Some("\u{1f50d}"@)
    } else if name == "link"@ {
        Some("\u{1f517}"@)
    } else if name == "pushpin"@ {
        Some("\u{1f4cc}"@)
    } else if name == "paperclip"@ {
        Some("\u{1f4ce}"@)
    } else if name == "scissors"@ {
        Some("\u{2702}"@)
    } else if name == "computer"@ {
        Some("\u{1f4bb}"@)
    } else if name == "bar_chart"@ {
        Some("\u{1f4ca}"@)
    } else if name == "file_folder"@ {
        Some("\u{1f4c1}"@)
    } else if name == "open_file_folder"@ {
        Some("\u{1f4c2}"@)
    } else if name == "trophy"@ {
        Some("\u{1f3c6}"@)
    } else if name == "gift"@ {
        Some("\u{1f381}"@)
    } else if name == "balloon"@ {
        Some("\u{1f388}"@)
    } else if name == "question"@ {
        Some("\u{2753}"@)
    } else if name == "exclamation"@ {
        Some("\u{2757}"@)
    } else if name == "construction"@ {
        Some("\u{1f6a7}"@)
    } else if name == "red_circle"@ {
        Some("\u{1f534}"@)
    } else if name == "white_circle"@ {
        Some("\u{26aa}"@)
    } else if name == "black_circle"@ {
        Some("\u{26ab}"@)
    } else {
        None
    }
}

/// Whether `chars` holds the characters of `text`.
fn is_text(chars: &Vec<char>, text: &str) -> (same: bool)
    ensures
        same == (chars@ == text@),
{
    let other = chars_of(text);
    if chars.len() != other.len() {
        return false;
    }
    let mut i: usize = 0;
    while i < chars.len()
        invariant
            i <= chars.len(),
            chars.len() == other.len(),
            other@ == text@,
            forall|k: int| 0 <= k < i ==> chars@[k] == other@[k],
        decreases chars.len() - i,
    {
        if chars[i] != other[i] {
            return false;
        }
        i = i + 1;
    }
    proof {
        assert(chars@ =~= other@);
    }
    true
}

/// The emoji called by the characters in `chars`.
fn find(chars: &Vec<char>) -> (found: Option<&'static str>)
    ensures
        match found {
            Some(g) => glyph(chars@) == Some(g@),
            None => glyph(chars@) is None,
        },
{
    if is_text(&chars, "smile") {
        Some("\u{1f604}")
    } else if is_text(&chars, "+1") {
        Some("\u{1f44d}")
    } else if is_text(&chars, "thumbs_up") {
        Some("\u{1f44d}")
    } else if is_text(&chars, "thumbsup") {
        Some("\u{1f44d}")
    } else if is_text(&chars, "-1") {
        Some("\u{1f44e}")
    } else if is_text(&chars, "thumbs_down") {
        Some("\u{1f44e}")
    } else if is_text(&chars, "thumbsdown") {
        Some("\u{1f44e}")
    } else if is_text(&chars, "100") {
        Some("\u{1f4af}")
    } else if is_text(&chars, "heart") {
        Some("\u{2764}")
    } else if is_text(&chars, "red_heart") {
        Some("\u{2764}")
    } else if is_text(&chars, "fire") {
        Some("\u{1f525}")
    } else if is_text(&chars, "star") {
        Some("\u{2b50}")
    } else if is_text(&chars, "rocket") {
        Some("\u{1f680}")
    } else if is_text(&chars, "warning") {
        Some("\u{26a0}")
    } else if is_text(&chars, "check_mark") {
        Some("\u{2714}")
    } else if is_text(&chars, "heavy_check_mark") {
        Some("\u{2714}")
    } else if is_text(&chars, "white_check_mark") {
        Some("\u{2705}")
    } else if is_text(&chars, "cross_mark") {
        Some("\u{274c}")
    } else if is_text(&chars, "x") {
        Some("\u{274c}")
    } else if is_text(&chars, "sparkles") {
        Some("\u{2728}")
    } else if is_text(&chars, "tada") {
        Some("\u{1f389}")
    } else if is_text(&chars, "party_popper") {
        Some("\u{1f389}")
    } else if is_text(&chars, "grinning") {
        Some("\u{1f600}")
    } else if is_text(&chars, "grinning_face") {
        Some("\u{1f600}")
    } else if is_text(&chars, "smiley") {
        Some("\u{1f603}")
    } else if is_text(&chars, "grin") {
        Some("\u{1f601}")
    } else if is_text(&chars, "joy") {
        Some("\u{1f602}")
    } else if is_text(&chars, "wink") {
        Some("\u{1f609}")
    } else if is_text(&chars, "blush") {
        Some("\u{1f60a}")
    } else if is_text(&chars, "heart_eyes") {
        Some("\u{1f60d}")
    } else if is_text(&chars, "sunglasses") {
        Some("\u{1f60e}")
    } else if is_text(&chars, "thinking_face") {
        Some("\u{1f914}")
    } else if is_text(&chars, "cry") {
        Some("\u{1f622}")
    } else if is_text(&chars, "sob") {
        Some("\u{1f62d}")
    } else if is_text(&chars, "angry") {
        Some("\u{1f620}")
    } else if is_text(&chars, "scream") {
        Some("\u{1f631}")
    } else if is_text(&chars, "skull") {
        Some("\u{1f480}")
    } else if is_text(&chars, "ghost") {
        Some("\u{1f47b}")
    } else if is_text(&chars, "robot") {
        Some("\u{1f916}")
    } else if is_text(&chars, "ok_hand") {
        Some("\u{1f44c}")
    } else if is_text(&chars, "wave") {
        Some("\u{1f44b}")
    } else if is_text(&chars, "clap") {
        Some("\u{1f44f}")
    } else if is_text(&chars, "pray") {
        Some("\u{1f64f}")
    } else if is_text(&chars, "muscle") {
        Some("\u{1f4aa}")
    } else if is_text(&chars, "eyes") {
        Some("\u{1f440}")
    } else if is_text(&chars, "point_right") {
        Some("\u{1f449}")
    } else if is_text(&chars, "point_left") {
        Some("\u{1f448}")
    } else if is_text(&chars, "bug") {
        Some("\u{1f41b}")
    } else if is_text(&chars, "snake") {
        Some("\u{1f40d}")
    } else if is_text(&chars, "crab") {
        Some("\u{1f980}")
    } else if is_text(&chars, "dog") {
        Some("\u{1f436}")
    } else if is_text(&chars, "cat") {
        Some("\u{1f431}")
    } else if is_text(&chars, "coffee") {
        Some("\u{2615}")
    } else if is_text(&chars, "pizza") {
        Some("\u{1f355}")
    } else if is_text(&chars, "beer") {
        Some("\u{1f37a}")
    } else if is_text(&chars, "cake") {
        Some("\u{1f370}")
    } else if is_text(&chars, "zap") {
        Some("\u{26a1}")
    } else if is_text(&chars, "snowflake") {
        Some("\u{2744}")
    } else if is_text(&chars, "rainbow") {
        Some("\u{1f308}")
    } else if is_text(&chars, "hourglass") {
        Some("\u{231b}")
    } else if is_text(&chars, "alarm_clock") {
        Some("\u{23f0}")
    } else if is_text(&chars, "lock") {
        Some("\u{1f512}")
    } else if is_text(&chars, "key") {
        Some("\u{1f511}")
    } else if is_text(&chars, "bell") {
        Some("\u{1f514}")
    } else if is_text(&chars, "bulb") {
        Some("\u{1f4a1}")
    } else if is_text(&chars, "gear") {
        Some("\u{2699}")
    } else if is_text(&chars, "hammer") {
        Some("\u{1f528}")
    } else if is_text(&chars, "wrench") {
        Some("\u{1f527}")
    } else if is_text(&chars, "package") {
        Some("\u{1f4e6}")
    } else if is_text(&chars, "memo") {
        Some("\u{1f4dd}")
    } else if is_text(&chars, "mag") {
        Some("\u{1f50d}")
    } else if is_text(&chars, "link") {
        Some("\u{1f517}")
    } else if is_text(&chars, "pushpin") {
        Some("\u{1f4cc}")
    } else if is_text(&chars, "paperclip") {
        Some("\u{1f4ce}")
    } else if is_text(&chars, "scissors") {
        Some("\u{2702}")
    } else if is_text(&chars, "computer") {
        Some("\u{1f4bb}")
    } else if is_text(&chars, "bar_chart") {
        Some("\u{1f4ca}")
    } else if is_text(&chars, "file_folder") {
        Some("\u{1f4c1}")
    } else if is_text(&chars, "open_file_folder") {
        Some("\u{1f4c2}")
    } else if is_text(&chars, "trophy") {
        Some("\u{1f3c6}")
    } else if is_text(&chars, "gift") {
        Some("\u{1f381}")
    } else if is_text(&chars, "balloon") {
        Some("\u{1f388}")
    } else if is_text(&chars, "question") {
        Some("\u{2753}")
    } else if is_text(&chars, "exclamation") {
        Some("\u{2757}")
    } else if is_text(&chars, "construction") {
        Some("\u{1f6a7}")
    } else if is_text(&chars, "red_circle") {
        Some("\u{1f534}")
    } else if is_text(&chars, "white_circle") {
        Some("\u{26aa}")
    } else if is_text(&chars, "black_circle") {
        Some("\u{26ab}")
    } else {
        None
    }
}

/// Look up an emoji by its shortcode name (case-sensitive).
pub fn get(name: &str) -> (found: Option<&'static str>)
    ensures
        match found {
            Some(g) => glyph(name@) == Some(g@),
            None => glyph(name@) is None,
        },
{
    let chars = chars_of(name);
    find(&chars)
}

/// The lower-case form that `str::to_lowercase` gives to a text.
pub uninterp spec fn lowercased(s: Seq<char>) -> Seq<char>;

/// `str::to_lowercase`: the text with every character replaced by its
/// lower-case form as Unicode defines it, which depends on the text alone.
#[verifier::external_body]
fn to_lower(chars: &Vec<char>) -> (out: Vec<char>)
    ensures
        out@ == lowercased(chars@),
{
    chars.iter().collect::<String>().to_lowercase().chars().collect()
}

/// Whether a character is ASCII white space: space, tab, line feed, form
/// feed or carriage return.
pub open spec fn is_space(c: char) -> bool {
    c == ' ' || c == '\t' || c == '\n' || c == '\u{c}' || c == '\r'
}

/// Where the emoji code that opened before position `i` closes: the
/// position of the next colon, if no white space comes before it.
pub open spec fn code_end(text: Seq<char>, i: int) -> Option<int>
    decreases text.len() - i,
{
    if i < 0 || i >= text.len() {
        None
    } else if text[i] == ':' {
        Some(i)
    } else if is_space(text[i]) {
        None
    } else {
        code_end(text, i + 1)
    }
}

/// Whether `s` ends in `tail`.
pub open spec fn ends_in(s: Seq<char>, tail: Seq<char>) -> bool {
    s.len() >= tail.len() && s.skip(s.len() - tail.len()) == tail
}

/// The name inside an emoji code and the selector it asks for: a name that
/// ends in `-emoji` or `-text` asks for that variant, any other for the
/// default.
pub open spec fn name_and_selector(inner: Seq<char>, default_selector: Seq<char>) -> (
    Seq<char>,
    Seq<char>,
) {
    if ends_in(inner, "-emoji"@) {
        (inner.take(inner.len() - "-emoji"@.len()), EmojiVariant::Emoji.mark())
    } else if ends_in(inner, "-text"@) {
        (inner.take(inner.len() - "-text"@.len()), EmojiVariant::Text.mark())
    } else {
        (inner, default_selector)
    }
}

/// The emoji code that opens at the colon at `start`, if there is one that
/// names a known emoji: where it closes, and what replaces it. Names are
/// looked up in lower case.
pub open spec fn code_at(text: Seq<char>, start: int, default_selector: Seq<char>) -> Option<
    (int, Seq<char>),
> {
    match code_end(text, start + 1) {
        None => None,
        Some(end) => {
            let (name, selector) = name_and_selector(
                text.subrange(start + 1, end),
                default_selector,
            );
            match glyph(lowercased(name)) {
                Some(g) => Some((end, g + selector)),
                None => None,
            }
        },
    }
}

/// `text` from position `i` on with its emoji codes replaced.
pub open spec fn replaced_from(text: Seq<char>, i: int, default_selector: Seq<char>) -> Seq<char>
    decreases text.len() - i,
    via replaced_from_decreases
{
    if i < 0 || i >= text.len() {
        Seq::<char>::empty()
    } else if text[i] == ':' {
        match code_at(text, i, default_selector) {
            Some((end, replacement)) => replacement + replaced_from(
                text,
                end + 1,
                default_selector,
            ),
            None => seq![':'] + replaced_from(text, i + 1, default_selector),
        }
    } else {
        seq![text[i]] + replaced_from(text, i + 1, default_selector)
    }
}

#[via_fn]
proof fn replaced_from_decreases(text: Seq<char>, i: int, default_selector: Seq<char>) {
    if 0 <= i < text.len() && text[i] == ':' {
        lemma_code_end(text, i + 1);
    }
}

/// An emoji code closes at a colon behind where it opened.
pub proof fn lemma_code_end(text: Seq<char>, i: int)
    requires
        0 <= i,
    ensures
        code_end(text, i) matches Some(end) ==> i <= end < text.len() && text[end] == ':',
    decreases text.len() - i,
{
    if i < text.len() && text[i] != ':' && !is_space(text[i]) {
        lemma_code_end(text, i + 1);
    }
}

/// `text` with its emoji codes replaced; `default_variant` is the variant
/// of the codes that ask for none.
pub open spec fn replaced(text: Seq<char>, default_variant: Option<EmojiVariant>) -> Seq<char> {
    replaced_from(
        text,
        0,
        match default_variant {
            Some(v) => v.mark(),
            None => Seq::<char>::empty(),
        },
    )
}

/// Whether `chars[from..to]` ends in the characters of `tail`.
fn ends_with(chars: &Vec<char>, from: usize, to: usize, tail: &str) -> (yes: bool)
    requires
        from <= to <= chars.len(),
    ensures
        yes == ends_in(chars@.subrange(from as int, to as int), tail@),
{
    let other = chars_of(tail);
    let ghost inner = chars@.subrange(from as int, to as int);
    if to - from < other.len() {
        return false;
    }
    let at = to - other.len();
    let mut i: usize = 0;
    while i < other.len()
        invariant
            i <= other.len(),
            other@ == tail@,
            from <= at,
            at + other.len() == to,
            to <= chars.len(),
            inner == chars@.subrange(from as int, to as int),
            forall|k: int| 0 <= k < i ==> chars@[at + k] == other@[k],
        decreases other.len() - i,
    {
        if chars[at + i] != other[i] {
            proof {
                assert(inner.skip(inner.len() - tail@.len())[i as int] == chars@[at + i]);
            }
            return false;
        }
        i = i + 1;
    }
    proof {
        assert(inner.skip(inner.len() - tail@.len()) =~= tail@);
    }
    true
}

/// Reads the emoji code that opens at the colon at `start`: where it closes
/// and what replaces it, if it names a known emoji.
pub fn try_replace_at(text: &Vec<char>, start: usize, default_selector: &str) -> (out: Option<
    (usize, String),
>)
    requires
        start < text.len(),
    ensures
        match out {
            Some((end, replacement)) => code_at(text@, start as int, default_selector@) == Some(
                (end as int, replacement@),
            ),
            None => code_at(text@, start as int, default_selector@) is None,
        },
{
    let mut i = start + 1;
    let mut end: Option<usize> = None;
    let mut open = true;
    while open && i < text.len()
        invariant
            start < i <= text.len(),
            open ==> end is None && code_end(text@, i as int) == code_end(text@, start + 1),
            !open ==> match end {
                Some(e) => e < text.len() && start < e && code_end(text@, start + 1) == Some(
                    e as int,
                ),
                None => code_end(text@, start + 1) is None,
            },
        decreases text.len() - i + if open { 1int } else { 0int },
    {
        let c = text[i];
        if c == ':' {
            end = Some(i);
            open = false;
        } else if c == ' ' || c == '\t' || c == '\n' || c == '\u{c}' || c == '\r' {
            open = false;
        } else {
            i = i + 1;
        }
    }
    let end = match end {
        Some(e) => e,
        None => {
            return None;
        },
    };
    let ghost inner = text@.subrange(start + 1, end as int);
    proof {
        reveal_strlit("-emoji");
        reveal_strlit("-text");
    }
    let (stop, selector) = if ends_with(text, start + 1, end, "-emoji") {
        (end - 6, EmojiVariant::Emoji.selector())
    } else if ends_with(text, start + 1, end, "-text") {
        (end - 5, EmojiVariant::Text.selector())
    } else {
        (end, default_selector)
    };
    let mut name: Vec<char> = Vec::new();
    let mut k = start + 1;
    while k < stop
        invariant
            start + 1 <= k <= stop <= end,
            end < text.len(),
            name@ == text@.subrange(start + 1, k as int),
        decreases stop - k,
    {
        name.push(text[k]);
        proof {
            assert(text@.subrange(start + 1, k + 1) =~= text@.subrange(start + 1, k as int).push(
                text@[k as int],
            ));
        }
        k = k + 1;
    }
    proof {
        assert(text@.subrange(start + 1, stop as int) =~= inner.take(stop - start - 1));
    }
    let lower = to_lower(&name);
    match find(&lower) {
        Some(g) => {
            let mut replacement = String::from_str(g);
            replacement.append(selector);
            Some((end, replacement))
        },
        None => None,
    }
}

/// Replace emoji codes in `text`.
///
/// `:smile:` is replaced if the emoji exists (the name is looked up in lower
/// case). The variants `:smile-emoji:` and `:smile-text:` append U+FE0F and
/// U+FE0E. Unknown codes are left unchanged. `default_variant` applies where
/// a code names no variant.
pub fn replace(text: &str, default_variant: Option<EmojiVariant>) -> (out: String)
    ensures
        out@ == replaced(text@, default_variant),
{
    let chars = chars_of(text);
    let default_selector = match default_variant {
        Some(v) => v.selector(),
        None => "",
    };
    proof {
        reveal_strlit("");
        assert(""@ =~= Seq::<char>::empty());
    }
    let ghost want = replaced_from(chars@, 0, default_selector@);
    let mut out = String::new();
    let mut i: usize = 0;
    while i < chars.len()
        invariant
            i <= chars.len(),
            chars@ == text@,
            want == replaced_from(chars@, 0, default_selector@),
            out@ + replaced_from(chars@, i as int, default_selector@) == want,
        decreases chars.len() - i,
    {
        let ghost before = out@;
        if chars[i] == ':' {
            match try_replace_at(&chars, i, default_selector) {
                Some((end, replacement)) => {
                    proof {
                        lemma_code_end(chars@, i + 1);
                    }
                    out.append(replacement.as_str());
                    proof {
                        let tail = replaced_from(chars@, end + 1, default_selector@);
                        assert(before + replacement@ + tail =~= before + (replacement@ + tail));
                    }
                    i = end + 1;
                },
                None => {
                    out.push(':');
                    proof {
                        let tail = replaced_from(chars@, i + 1, default_selector@);
                        assert(before.push(':') + tail =~= before + (seq![':'] + tail));
                    }
                    i = i + 1;
                },
            }
        } else {
            out.push(chars[i]);
            proof {
                let tail = replaced_from(chars@, i + 1, default_selector@);
                assert(before.push(chars@[i as int]) + tail =~= before + (seq![chars@[i as int]]
                    + tail));
            }
            i = i + 1;
        }
    }
    proof {
        assert(out@ + Seq::<char>::empty() =~= out@);
    }
    out
}

} // verus!

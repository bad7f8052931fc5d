//! Highlighters: lay styles over the parts of a text that match patterns.
//!
//! A regex highlighter holds patterns with named groups. For every match of
//! a named group, the style called by the highlighter's base style and the
//! name of the group is laid over the characters that the group matched.
use crate::strings::{chars_of, debug_quoted, quote};
use crate::style::{Style, StyleModel};
use crate::text::{Text, TextModel};
use crate::theme::{style_named, Theme};
use std::sync::Arc;
use vstd::prelude::*;

verus! {

/// `fancy_regex::Regex`: a compiled pattern, carried through as it is.
#[verifier::external_type_specification]
#[verifier::external_body]
pub struct ExRegex(fancy_regex::Regex);

/// `fancy_regex::Error`: why a pattern did not compile.
#[verifier::external_type_specification]
#[verifier::external_body]
pub struct ExRegexError(fancy_regex::Error);

/// A highlighter modifies a text in place by adding style spans; `theme`
/// holds the styles by name.
pub trait Highlighter {
    /// Apply highlighting to `text`.
    fn highlight(&self, theme: &Theme, text: &mut Text);
}

/// A no-op highlighter.
#[derive(Debug, Default, Clone, Copy)]
pub struct NullHighlighter;

impl Highlighter for NullHighlighter {
    /// Leaves the text as it is.
    fn highlight(&self, theme: &Theme, text: &mut Text)
        ensures
            final(text)@ == old(text)@,
    {
    }
}

/// An error compiling a highlighter regex.
#[derive(Debug)]
pub struct HighlighterRegexError {
    pub pattern: String,
    pub message: String,
}

impl Clone for HighlighterRegexError {
    fn clone(&self) -> (out: HighlighterRegexError)
        ensures
            out == *self,
    {
        HighlighterRegexError { pattern: self.pattern.clone(), message: self.message.clone() }
    }
}

impl HighlighterRegexError {
    /// The message of an error about a pattern that is shown as `quoted`.
    pub open spec fn described(quoted: Seq<char>, message: Seq<char>) -> Seq<char> {
        "highlighter regex error for "@ + quoted + ": "@ + message
    }

    /// The message of an error about a pattern that is shown as `quoted`.
    pub fn describe(quoted: &str, message: &str) -> (out: String)
        ensures
            out@ == HighlighterRegexError::described(quoted@, message@),
    {
        let mut out = String::from_str("highlighter regex error for ");
        out.append(quoted);
        out.append(": ");
        out.append(message);
        out
    }

    /// The message of the error: the pattern in quotes, and what is wrong
    /// with it.
    pub fn to_string(&self) -> (out: String)
        ensures
            out@ == HighlighterRegexError::described(debug_quoted(self.pattern@), self.message@),
    {
        let quoted = quote(self.pattern.as_str());
        HighlighterRegexError::describe(quoted.as_str(), self.message.as_str())
    }
}

/// `fancy_regex::Regex::new`: the compiled pattern, or the error that
/// compiling it gave.
#[verifier::external_body]
fn compile(pattern: &str) -> (out: Result<fancy_regex::Regex, fancy_regex::Error>) {
    fancy_regex::Regex::new(pattern)
}

/// The text of a `fancy_regex::Error`, as its `Display` gives it.
#[verifier::external_body]
fn error_text(error: &fancy_regex::Error) -> (out: String) {
    error.to_string()
}

/// What one group of a pattern gave in one match: the name of the group if
/// it has one, and the byte range that it matched if it took part.
pub struct GroupMatch {
    pub name: Option<String>,
    pub range: Option<(usize, usize)>,
}

/// `Regex::captures_iter` over `text`, up to the first match that fails,
/// and for every match `Regex::capture_names` with `Captures::get` for each
/// group: all groups of all matches, in order, each with its name and the
/// start and end of what it matched.
#[verifier::external_body]
fn group_matches(re: &fancy_regex::Regex, text: &str) -> (out: Vec<GroupMatch>) {
    re.captures_iter(text).map_while(|caps| caps.ok()).flat_map(
        |caps| {
            re.capture_names().enumerate().map(
                move |(i, name)|
                    GroupMatch {
                        name: name.map(|n| n.to_string()),
                        range: caps.get(i).map(|m| (m.start(), m.end())),
                    },
            ).collect::<Vec<GroupMatch>>()
        },
    ).collect()
}

/// The number of bytes that a character takes in UTF-8.
pub open spec fn utf8_len(c: char) -> nat {
    let code = c as u32;
    if code < 0x80 {
        1
    } else if code < 0x800 {
        2
    } else if code < 0x10000 {
        3
    } else {
        4
    }
}

/// The number of bytes that the first `k` characters take in UTF-8: the
/// byte position at which character `k` begins.
pub open spec fn byte_offset(text: Seq<char>, k: int) -> nat
    decreases k,
{
    if k <= 0 {
        0
    } else {
        byte_offset(text, k - 1) + utf8_len(text[k - 1])
    }
}

/// How many of the first `k` characters begin before the byte position
/// `byte`.
pub open spec fn chars_before(text: Seq<char>, byte: nat, k: int) -> nat
    decreases k,
{
    if k <= 0 {
        0
    } else if byte_offset(text, k - 1) < byte {
        chars_before(text, byte, k - 1) + 1
    } else {
        chars_before(text, byte, k - 1)
    }
}

/// The characters that a byte range covers: from the first character that
/// begins at or behind `start` up to the first that begins at or behind
/// `end`. `None` for a range that is empty, that reaches behind the text,
/// or that covers no character, and for a text whose bytes the machine's
/// integers cannot count.
pub open spec fn char_span(text: Seq<char>, start: usize, end: usize) -> Option<(usize, usize)> {
    let total = byte_offset(text, text.len() as int);
    if total > usize::MAX || start >= end || start > total || end > total {
        None
    } else {
        let first = chars_before(text, start as nat, text.len() as int);
        let last = chars_before(text, end as nat, text.len() as int);
        if first >= last {
            None
        } else {
            Some((first as usize, last as usize))
        }
    }
}

/// The name of the style of a group: the base style and the name of the
/// group.
pub open spec fn style_name(base: Seq<char>, group: Seq<char>) -> Seq<char> {
    base + group
}

/// A text with the style of one group match laid over it. Nothing changes
/// for a group without name, the whole match, a group that took no part, a
/// range that covers no character, or a style that decides nothing.
pub open spec fn group_applied(
    text: TextModel,
    base: Seq<char>,
    theme: Seq<(Seq<char>, StyleModel)>,
    index: int,
    name: Option<Seq<char>>,
    range: Option<(usize, usize)>,
) -> TextModel {
    match (name, range) {
        (Some(n), Some((start, end))) => if index == 0 {
            text
        } else {
            match char_span(text.plain, start, end) {
                None => text,
                Some((first, last)) => {
                    let style = style_named(theme, style_name(base, n), 0);
                    if style == StyleModel::plain() {
                        text
                    } else {
                        text.stylized(first, last, style)
                    }
                },
            }
        },
        _ => text,
    }
}

/// The name of a group match as a plain value.
pub open spec fn match_name(m: GroupMatch) -> Option<Seq<char>> {
    match m.name {
        Some(n) => Some(n@),
        None => None,
    }
}

/// A text with the styles of the first `k` group matches laid over it, in
/// order. `groups` is the number of groups of the pattern, the whole match
/// counted as the first: the matches stand in rounds of that many.
pub open spec fn matches_applied(
    text: TextModel,
    base: Seq<char>,
    theme: Seq<(Seq<char>, StyleModel)>,
    matches: Seq<GroupMatch>,
    groups: int,
    k: int,
) -> TextModel
    decreases k,
{
    if k <= 0 {
        text
    } else {
        group_applied(
            matches_applied(text, base, theme, matches, groups, k - 1),
            base,
            theme,
            if groups > 0 {
                (k - 1) % groups
            } else {
                0
            },
            match_name(matches[k - 1]),
            matches[k - 1].range,
        )
    }
}

/// The number of bytes that a character takes in UTF-8.
fn char_len(c: char) -> (n: usize)
    ensures
        n == utf8_len(c),
{
    let code = c as u32;
    if code < 0x80 {
        1
    } else if code < 0x800 {
        2
    } else if code < 0x10000 {
        3
    } else {
        4
    }
}

/// The byte positions at which the characters begin, and the number of
/// bytes of the whole text; `None` for a text whose bytes cannot be
/// counted in the machine's integers.
fn char_starts(chars: &Vec<char>) -> (out: Option<(Vec<usize>, usize)>)
    ensures
        match out {
            Some((starts, total)) => {
                &&& starts.len() == chars.len()
                &&& total == byte_offset(chars@, chars.len() as int)
                &&& forall|i: int|
                    0 <= i < starts.len() ==> #[trigger] starts[i] == byte_offset(chars@, i)
            },
            None => byte_offset(chars@, chars.len() as int) > usize::MAX,
        },
{
    let mut starts: Vec<usize> = Vec::new();
    let mut offset: usize = 0;
    let mut i: usize = 0;
    while i < chars.len()
        invariant
            i <= chars.len(),
            starts.len() == i,
            offset == byte_offset(chars@, i as int),
            forall|k: int| 0 <= k < i ==> #[trigger] starts[k] == byte_offset(chars@, k),
        decreases chars.len() - i,
    {
        starts.push(offset);
        let n = char_len(chars[i]);
        if n > usize::MAX - offset {
            proof {
                lemma_offset_grows(chars@, i + 1, chars.len() as int);
            }
            return None;
        }
        offset = offset + n;
        i = i + 1;
    }
    Some((starts, offset))
}

/// Later characters begin at later bytes.
pub proof fn lemma_offset_grows(text: Seq<char>, i: int, j: int)
    requires
        0 <= i <= j,
    ensures
        byte_offset(text, i) <= byte_offset(text, j),
        i < j ==> byte_offset(text, i) < byte_offset(text, j),
    decreases j - i,
{
    if i < j {
        lemma_offset_grows(text, i, j - 1);
    }
}

/// The characters that begin before a byte position are the first ones:
/// where character `k` begins at or behind the position, so do all behind
/// it, and where it begins before, so do all before it.
proof fn lemma_chars_before(text: Seq<char>, byte: nat, k: int, n: int)
    requires
        0 <= k <= n,
        k == n || byte_offset(text, k) >= byte,
        k == 0 || byte_offset(text, k - 1) < byte,
    ensures
        chars_before(text, byte, n) == k,
    decreases n,
{
    if n > 0 {
        if k == n {
            lemma_offset_grows(text, n - 1, n - 1);
            if n - 1 > 0 {
                lemma_offset_grows(text, n - 2, n - 1);
            }
            lemma_chars_before(text, byte, n - 1, n - 1);
        } else {
            lemma_offset_grows(text, k, n - 1);
            lemma_chars_before(text, byte, k, n - 1);
        }
    }
}

/// How many characters begin before the byte position `byte`.
fn count_before(starts: &Vec<usize>, byte: usize, Ghost(text): Ghost<Seq<char>>) -> (k: usize)
    requires
        starts.len() == text.len(),
        forall|i: int| 0 <= i < starts.len() ==> #[trigger] starts[i] == byte_offset(text, i),
    ensures
        k == chars_before(text, byte as nat, text.len() as int),
        k <= starts.len(),
{
    let mut k: usize = 0;
    while k < starts.len() && starts[k] < byte
        invariant
            k <= starts.len(),
            starts.len() == text.len(),
            forall|i: int| 0 <= i < starts.len() ==> #[trigger] starts[i] == byte_offset(text, i),
            k == 0 || byte_offset(text, k - 1) < byte,
        decreases starts.len() - k,
    {
        k = k + 1;
    }
    proof {
        lemma_chars_before(text, byte as nat, k as int, text.len() as int);
    }
    k
}

/// The text that two texts make when they are joined.
fn joined(a: &str, b: &str) -> (out: String)
    ensures
        out@ == a@ + b@,
{
    let mut out = String::from_str(a);
    out.append(b);
    out
}

/// Regex-based highlighter. Each pattern may hold several named groups; for
/// every match of a group, the style named by the base style and the name
/// of the group is laid over what the group matched.
pub struct RegexHighlighter {
    base_style: String,
    highlights: Vec<Arc<fancy_regex::Regex>>,
}

impl RegexHighlighter {
    /// The base style: what stands before the name of a group in the name
    /// of its style.
    pub closed spec fn base(&self) -> Seq<char> {
        self.base_style@
    }

    /// How many patterns the highlighter holds.
    pub closed spec fn patterns(&self) -> nat {
        self.highlights.len() as nat
    }

    /// Create a new RegexHighlighter from patterns. The first pattern that
    /// does not compile gives the error.
    pub fn new(base_style: &str, highlights: &[&str]) -> (out: Result<
        RegexHighlighter,
        HighlighterRegexError,
    >)
        ensures
            highlights.len() == 0 ==> out is Ok,
            match out {
                Ok(h) => h.base() == base_style@ && h.patterns() == highlights.len(),
                Err(e) => exists|i: int|
                    0 <= i < highlights.len() && e.pattern@ == (#[trigger] highlights[i])@,
            },
    {
        let mut compiled: Vec<Arc<fancy_regex::Regex>> = Vec::new();
        let mut i: usize = 0;
        while i < highlights.len()
            invariant
                i <= highlights.len(),
                compiled.len() == i,
            decreases highlights.len() - i,
        {
            match compile(highlights[i]) {
                Ok(re) => {
                    compiled.push(Arc::new(re));
                },
                Err(e) => {
                    return Err(
                        HighlighterRegexError {
                            pattern: String::from_str(highlights[i]),
                            message: error_text(&e),
                        },
                    );
                },
            }
            i = i + 1;
        }
        Ok(RegexHighlighter { base_style: String::from_str(base_style), highlights: compiled })
    }

    /// Add a highlight regex. A pattern that does not compile gives an
    /// error and leaves the highlighter as it is.
    pub fn push(&mut self, pattern: &str) -> (out: Result<(), HighlighterRegexError>)
        ensures
            final(self).base() == old(self).base(),
            match out {
                Ok(_) => final(self).patterns() == old(self).patterns() + 1,
                Err(e) => final(self).patterns() == old(self).patterns() && e.pattern@
                    == pattern@,
            },
    {
        match compile(pattern) {
            Ok(re) => {
                self.highlights.push(Arc::new(re));
                Ok(())
            },
            Err(e) => Err(
                HighlighterRegexError {
                    pattern: String::from_str(pattern),
                    message: error_text(&e),
                },
            ),
        }
    }

    /// Lays the styles of the group matches `matches` over `text`; `groups`
    /// is the number of groups of the pattern that gave them.
    pub fn apply_matches(
        &self,
        theme: &Theme,
        text: &mut Text,
        matches: &Vec<GroupMatch>,
        groups: usize,
    )
        ensures
            final(text)@ == matches_applied(
                old(text)@,
                self.base(),
                theme@,
                matches@,
                groups as int,
                matches.len() as int,
            ),
    {
        let chars = chars_of(text.plain());
        let ghost first = text@;
        let (starts, total) = match char_starts(&chars) {
            Some(found) => found,
            None => {
                let mut k: usize = 0;
                while k < matches.len()
                    invariant
                        k <= matches.len(),
                        text@ == first,
                        chars@ == first.plain,
                        byte_offset(chars@, chars.len() as int) > usize::MAX,
                        text@ == matches_applied(
                            first,
                            self.base(),
                            theme@,
                            matches@,
                            groups as int,
                            k as int,
                        ),
                    decreases matches.len() - k,
                {
                    k = k + 1;
                }
                return ;
            },
        };
        let mut index: usize = 0;
        let mut k: usize = 0;
        let ghost mut rounds: int = 0;
        while k < matches.len()
            invariant
                k <= matches.len(),
                chars@ == first.plain,
                text@.plain == first.plain,
                starts.len() == chars.len(),
                total == byte_offset(chars@, chars.len() as int),
                forall|i: int| 0 <= i < starts.len() ==> #[trigger] starts[i] == byte_offset(chars@, i),
                groups > 0 ==> index < groups && k == rounds * groups + index && rounds >= 0,
                groups == 0 ==> index == 0,
                text@ == matches_applied(
                    first,
                    self.base(),
                    theme@,
                    matches@,
                    groups as int,
                    k as int,
                ),
            decreases matches.len() - k,
        {
            let found = &matches[k];
            proof {
                if groups > 0 {
                    vstd::arithmetic::div_mod::lemma_fundamental_div_mod_converse(
                        k as int,
                        groups as int,
                        rounds,
                        index as int,
                    );
                }
            }
            match (&found.name, found.range) {
                (Some(name), Some((start, end))) => {
                    if index != 0 && start < end && start <= total && end <= total {
                        let first_char = count_before(&starts, start, Ghost(chars@));
                        let last_char = count_before(&starts, end, Ghost(chars@));
                        if first_char < last_char {
                            let style_name = joined(self.base_style.as_str(), name.as_str());
                            let style = theme.get_style(style_name.as_str());
                            if !style.same_as(&Style::new()) {
                                text.stylize(first_char, last_char, style);
                            }
                        }
                    }
                },
                _ => {},
            }
            k = k + 1;
            if groups > 0 {
                if index + 1 == groups {
                    index = 0;
                    proof {
                        assert((rounds + 1) * groups == rounds * groups + groups)
                            by (nonlinear_arith);
                        rounds = rounds + 1;
                    }
                } else {
                    index = index + 1;
                }
            }
        }
    }
}

/// `Regex::capture_names` counted: the number of groups of a pattern, the
/// whole match counted as the first.
#[verifier::external_body]
fn group_count(re: &fancy_regex::Regex) -> (out: usize) {
    re.capture_names().count()
}

/// Whether `after` is `before` with more spans laid over it and nothing
/// else changed.
pub open spec fn only_more_spans(before: TextModel, after: TextModel) -> bool {
    &&& after.plain == before.plain
    &&& after.style == before.style
    &&& before.spans.len() <= after.spans.len()
    &&& after.spans.take(before.spans.len() as int) == before.spans
}

/// Laying the styles of group matches over a text adds spans and changes
/// nothing else.
pub proof fn lemma_matches_applied(
    text: TextModel,
    base: Seq<char>,
    theme: Seq<(Seq<char>, StyleModel)>,
    matches: Seq<GroupMatch>,
    groups: int,
    k: int,
)
    ensures
        only_more_spans(text, matches_applied(text, base, theme, matches, groups, k)),
    decreases k,
{
    if k > 0 {
        lemma_matches_applied(text, base, theme, matches, groups, k - 1);
        let before = matches_applied(text, base, theme, matches, groups, k - 1);
        let after = matches_applied(text, base, theme, matches, groups, k);
        assert(after.spans.take(text.spans.len() as int) =~= before.spans.take(
            text.spans.len() as int,
        ));
    } else {
        assert(text.spans.take(text.spans.len() as int) =~= text.spans);
    }
}

impl RegexHighlighter {
    /// Lays the styles of the matches of the pattern at `index` over
    /// `text`. An empty text is left as it is.
    pub fn apply_regex(&self, theme: &Theme, text: &mut Text, index: usize)
        requires
            index < self.patterns(),
        ensures
            only_more_spans(old(text)@, final(text)@),
    {
        if text.len() == 0 {
            proof {
                assert(text@.spans.take(text@.spans.len() as int) =~= text@.spans);
            }
            return ;
        }
        let re = &self.highlights[index];
        let groups = group_count(re);
        let matches = group_matches(re, text.plain());
        proof {
            lemma_matches_applied(
                text@,
                self.base(),
                theme@,
                matches@,
                groups as int,
                matches.len() as int,
            );
        }
        self.apply_matches(theme, text, &matches, groups);
    }
}

impl Highlighter for RegexHighlighter {
    /// Lays the styles of the matches of every pattern over `text`, pattern
    /// by pattern.
    fn highlight(&self, theme: &Theme, text: &mut Text)
        ensures
            only_more_spans(old(text)@, final(text)@),
    {
        let ghost first = text@;
        let mut i: usize = 0;
        proof {
            assert(first.spans.take(first.spans.len() as int) =~= first.spans);
        }
        while i < self.highlights.len()
            invariant
                i <= self.highlights.len(),
                self.highlights.len() == self.patterns(),
                only_more_spans(first, text@),
            decreases self.highlights.len() - i,
        {
            let ghost before = text@;
            self.apply_regex(theme, text, i);
            proof {
                assert(text@.spans.take(first.spans.len() as int) =~= before.spans.take(
                    first.spans.len() as int,
                ));
            }
            i = i + 1;
        }
    }
}

/// The highlighter for the printed form of values: tags, attributes,
/// brackets, addresses, numbers, paths, strings and the like, under the
/// base style `repr.`.
pub struct ReprHighlighter {
    inner: RegexHighlighter,
}

impl ReprHighlighter {
    /// The base style under which the styles of the groups are looked up.
    pub closed spec fn base(&self) -> Seq<char> {
        self.inner.base()
    }
}

impl Default for ReprHighlighter {
    fn default() -> (out: ReprHighlighter)
        ensures
            out.base() == "repr."@,
    {
        let patterns: [&str; 4] = [
            r"(?P<tag_start><)(?P<tag_name>[-\w.:|]*)(?P<tag_contents>[\w\W]*)(?P<tag_end>>)",
            r#"(?P<attrib_name>[\w_]{1,50})=(?P<attrib_value>"?[\w_]+"?)?"#,
            r"(?P<brace>[\]\[{}()])",
            r#"(?P<ipv4>[0-9]{1,3}\.[0-9]{1,3}\.[0-9]{1,3}\.[0-9]{1,3})|(?P<ipv6>([A-Fa-f0-9]{1,4}::?){1,7}[A-Fa-f0-9]{1,4})|(?P<eui64>(?:[0-9A-Fa-f]{1,2}-){7}[0-9A-Fa-f]{1,2}|(?:[0-9A-Fa-f]{1,2}:){7}[0-9A-Fa-f]{1,2}|(?:[0-9A-Fa-f]{4}\.){3}[0-9A-Fa-f]{4})|(?P<eui48>(?:[0-9A-Fa-f]{1,2}-){5}[0-9A-Fa-f]{1,2}|(?:[0-9A-Fa-f]{1,2}:){5}[0-9A-Fa-f]{1,2}|(?:[0-9A-Fa-f]{4}\.){2}[0-9A-Fa-f]{4})|(?P<uuid>[a-fA-F0-9]{8}-[a-fA-F0-9]{4}-[a-fA-F0-9]{4}-[a-fA-F0-9]{4}-[a-fA-F0-9]{12})|(?P<call>[\w.]*?)\(|\b(?P<bool_true>True)\b|\b(?P<bool_false>False)\b|\b(?P<none>None)\b|(?P<ellipsis>\.\.\.)|(?P<number_complex>(?<!\w)(?:\-?[0-9]+\.?[0-9]*(?:e[-+]?\d+?)?)(?:[-+](?:[0-9]+\.?[0-9]*(?:e[-+]?\d+)?))?j)|(?P<number>(?<!\w)\-?[0-9]+\.?[0-9]*(e[-+]?\d+?)?\b|0x[0-9a-fA-F]*)|(?P<path>\B(/[-\w._+]+)*\/)(?P<filename>[-\w._+]*)?|(?<![\\w])(?P<str>b?'''.*?(?<!\\)'''|b?'.*?(?<!\\)'|b?""".*?(?<!\\)"""|b?".*?(?<!\\)")|(?P<url>(file|https|http|ws|wss)://[-0-9a-zA-Z$_+!`(),.?/;:&=%#~@]*)"#,
        ];
        match RegexHighlighter::new("repr.", &patterns) {
            Ok(inner) => ReprHighlighter { inner },
            Err(_) => ReprHighlighter {
                inner: RegexHighlighter {
                    base_style: String::from_str("repr."),
                    highlights: Vec::new(),
                },
            },
        }
    }
}

impl Highlighter for ReprHighlighter {
    /// Lays the `repr.` styles over what the patterns match in `text`.
    fn highlight(&self, theme: &Theme, text: &mut Text)
        ensures
            only_more_spans(old(text)@, final(text)@),
    {
        self.inner.highlight(theme, text);
    }
}

} // verus!

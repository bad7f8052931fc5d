//! Themes: styles by name.
use crate::strings::same_text;
use crate::style::{parsed_style, Style, StyleModel};
use vstd::prelude::*;

verus! {

/// Named styles. A name that is given twice stands for the style that was
/// given first.
#[derive(Debug)]
pub struct Theme {
    styles: Vec<(String, Style)>,
}

/// The named styles of a theme as plain values.
pub open spec fn named_styles(styles: Seq<(String, Style)>) -> Seq<(Seq<char>, StyleModel)> {
    Seq::new(styles.len(), |i: int| (styles[i].0@, styles[i].1@))
}

/// The style called `name` among the entries from position `from` on: that
/// of the first entry with the name, or a style that decides nothing.
pub open spec fn style_named(entries: Seq<(Seq<char>, StyleModel)>, name: Seq<char>, from: int) -> StyleModel
    decreases entries.len() - from,
{
    if from < 0 || from >= entries.len() {
        StyleModel::plain()
    } else if entries[from].0 == name {
        entries[from].1
    } else {
        style_named(entries, name, from + 1)
    }
}

impl View for Theme {
    type V = Seq<(Seq<char>, StyleModel)>;

    closed spec fn view(&self) -> Seq<(Seq<char>, StyleModel)> {
        named_styles(self.styles@)
    }
}

impl Theme {
    /// A theme without styles.
    pub fn new() -> (out: Theme)
        ensures
            out@ == Seq::<(Seq<char>, StyleModel)>::empty(),
    {
        let out = Theme { styles: Vec::new() };
        proof {
            assert(out@ =~= Seq::<(Seq<char>, StyleModel)>::empty());
        }
        out
    }

    /// Adds a style under `name`.
    pub fn insert(&mut self, name: &str, style: Style)
        ensures
            final(self)@ == old(self)@.push((name@, style@)),
    {
        self.styles.push((String::from_str(name), style));
        proof {
            assert(self@ =~= old(self)@.push((name@, style@)));
        }
    }

    /// The style called `name`; a style that decides nothing where the
    /// theme has none of that name.
    pub fn get_style(&self, name: &str) -> (out: Style)
        ensures
            out@ == style_named(self@, name@, 0),
    {
        let mut i: usize = 0;
        while i < self.styles.len()
            invariant
                i <= self.styles.len(),
                style_named(self@, name@, i as int) == style_named(self@, name@, 0),
            decreases self.styles.len() - i,
        {
            if same_text(self.styles[i].0.as_str(), name) {
                return self.styles[i].1.clone();
            }
            i = i + 1;
        }
        Style::new()
    }
}

/// A style definition of a theme makes no sense.
#[derive(Debug, PartialEq, Eq)]
pub struct StyleDefinitionError {
    /// The name of the style.
    pub name: String,
    /// The definition that could not be read.
    pub definition: String,
}

/// The entries that the first `k` style definitions give; `None` where one
/// of them makes no sense.
pub open spec fn defined_styles(definitions: Seq<(&str, &str)>, k: int) -> Option<
    Seq<(Seq<char>, StyleModel)>,
>
    decreases k,
{
    if k <= 0 {
        Some(Seq::<(Seq<char>, StyleModel)>::empty())
    } else {
        match (defined_styles(definitions, k - 1), parsed_style(definitions[k - 1].1@)) {
            (Some(before), Some(style)) => Some(before.push((definitions[k - 1].0@, style))),
            _ => None,
        }
    }
}

/// The position of the first style definition that makes no sense.
pub open spec fn first_bad_definition(definitions: Seq<(&str, &str)>, from: int) -> int
    decreases definitions.len() - from,
{
    if from < 0 || from >= definitions.len() || parsed_style(definitions[from].1@) is None {
        from
    } else {
        first_bad_definition(definitions, from + 1)
    }
}

impl Theme {
    /// A theme of the styles that `definitions` define, each a name and a
    /// definition such as `"bold red"`. The first definition that makes no
    /// sense gives the error.
    pub fn from_style_definitions(definitions: &[(&str, &str)]) -> (out: Result<
        Theme,
        StyleDefinitionError,
    >)
        ensures
            match out {
                Ok(theme) => defined_styles(definitions@, definitions.len() as int) == Some(
                    theme@,
                ),
                Err(e) => {
                    let bad = first_bad_definition(definitions@, 0);
                    &&& 0 <= bad < definitions.len()
                    &&& e.name@ == definitions[bad].0@
                    &&& e.definition@ == definitions[bad].1@
                },
            },
    {
        let mut theme = Theme::new();
        let mut i: usize = 0;
        while i < definitions.len()
            invariant
                i <= definitions.len(),
                defined_styles(definitions@, i as int) == Some(theme@),
                first_bad_definition(definitions@, i as int) == first_bad_definition(
                    definitions@,
                    0,
                ),
            decreases definitions.len() - i,
        {
            match Style::parse(definitions[i].1) {
                Some(style) => {
                    theme.insert(definitions[i].0, style);
                },
                None => {
                    return Err(
                        StyleDefinitionError {
                            name: String::from_str(definitions[i].0),
                            definition: String::from_str(definitions[i].1),
                        },
                    );
                },
            }
            i = i + 1;
        }
        Ok(theme)
    }
}

/// Definitions that all make sense define their styles, one each, and none
/// of them is a bad one.
pub proof fn lemma_all_defined(
    definitions: Seq<(&str, &str)>,
    styles: Seq<(Seq<char>, StyleModel)>,
    k: int,
)
    requires
        0 <= k <= definitions.len(),
        k <= styles.len(),
        forall|i: int|
            0 <= i < k ==> parsed_style((#[trigger] definitions[i]).1@) == Some(styles[i].1)
                && styles[i].0 == definitions[i].0@,
    ensures
        defined_styles(definitions, k) == Some(styles.take(k)),
        forall|j: int| 0 <= j <= k ==> first_bad_definition(definitions, j) >= k,
    decreases k,
{
    if k > 0 {
        lemma_all_defined(definitions, styles, k - 1);
        assert(styles.take(k) =~= styles.take(k - 1).push((definitions[k - 1].0@, styles[k - 1].1)));
        assert forall|j: int| 0 <= j <= k implies first_bad_definition(definitions, j) >= k by {
            lemma_none_bad(definitions, j, k);
        }
    } else {
        assert(styles.take(0) =~= Seq::<(Seq<char>, StyleModel)>::empty());
        assert forall|j: int| 0 <= j <= k implies first_bad_definition(definitions, j) >= k by {
            lemma_first_bad_behind(definitions, j);
        }
    }
}

proof fn lemma_none_bad(definitions: Seq<(&str, &str)>, j: int, k: int)
    requires
        0 <= j <= k <= definitions.len(),
        forall|i: int| j <= i < k ==> parsed_style((#[trigger] definitions[i]).1@) is Some,
    ensures
        first_bad_definition(definitions, j) >= k,
    decreases k - j,
{
    if j < k {
        assert(parsed_style(definitions[j].1@) is Some);
        lemma_none_bad(definitions, j + 1, k);
    } else {
        lemma_first_bad_behind(definitions, j);
    }
}

proof fn lemma_first_bad_behind(definitions: Seq<(&str, &str)>, from: int)
    requires
        0 <= from,
    ensures
        first_bad_definition(definitions, from) >= from,
    decreases definitions.len() - from,
{
    if from < definitions.len() && parsed_style(definitions[from].1@) is Some {
        lemma_first_bad_behind(definitions, from + 1);
    }
}

} // verus!

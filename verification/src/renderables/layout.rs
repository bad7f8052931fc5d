//! Layout: splits a rectangle of the screen into rows and columns of nested
//! panes and renders them into one grid.
use crate::measure::{Measurement, RichMeasure};
use crate::renderables::resolve::{
    ints, law_exact_coverage, lemma_total_prefix, ratio_resolve, resolved, total_of, Constraint,
};
use crate::renderables::Renderable;
use crate::cells::{add_clipped, clip, text_width};
use crate::segment::{
    adjust_line_length, adjusted, chars_within, clone_line, grid_exact, lemma_adjusted_width,
    lemma_line_width_push, lemma_spaces_width, line_cells, line_width, set_cell_size, sized, split,
    split_lines, Grid, Line, Segment, SegmentModel,
};
use crate::strings::{chars_of, decimal, push_decimal, repeat_char, repeated, same_text};
use vstd::prelude::*;

verus! {

/// Rectangular region of the screen.
#[derive(Debug, Clone, Copy, PartialEq, Eq, Structural)]
pub struct Region {
    pub x: usize,
    pub y: usize,
    pub width: usize,
    pub height: usize,
}

impl Region {
    /// The region with its top left corner at `(x, y)`.
    pub fn new(x: usize, y: usize, width: usize, height: usize) -> (r: Region)
        ensures
            r == (Region { x, y, width, height }),
    {
        Region { x, y, width, height }
    }

    /// Whether the far edges of the region can be addressed.
    pub open spec fn in_bounds(self) -> bool {
        self.x + self.width <= usize::MAX && self.y + self.height <= usize::MAX
    }
}

/// Layout splitter direction.
#[derive(Debug, Clone, Copy, PartialEq, Eq, Structural)]
pub enum LayoutSplitter {
    /// Children stand side by side and share the full height.
    Row,
    /// Children stand one below the other and share the full width.
    Column,
}

/// Layout node: a pane with its sizing rule, its content and its children.
///
/// `R` is the type of the content that panes hold.
pub struct Layout<R> {
    renderable: Option<R>,
    name: Option<String>,
    size: Option<usize>,
    minimum_size: usize,
    ratio: usize,
    visible: bool,
    splitter: LayoutSplitter,
    children: Vec<Layout<R>>,
}

/// A pane as a plain value.
pub struct LayoutModel<R> {
    /// What the pane draws when it is a leaf; a pane without content draws
    /// a placeholder.
    pub content: Option<R>,
    /// Optional name for lookup; need not be unique.
    pub name: Option<Seq<char>>,
    /// Fixed extent along the split axis of the parent.
    pub size: Option<usize>,
    /// Size below which shrinking prefers not to go.
    pub minimum_size: usize,
    /// Weight of the pane when it has no fixed size.
    pub ratio: usize,
    /// Whether the pane takes space in its parent.
    pub visible: bool,
    /// How the pane's children are laid out.
    pub splitter: LayoutSplitter,
    /// The children, in split order.
    pub children: Seq<Layout<R>>,
}

impl<R> LayoutModel<R> {
    /// A fresh pane: visible, flexible with weight and minimum one, split in
    /// a column, without name, content or children.
    pub open spec fn fresh() -> LayoutModel<R> {
        LayoutModel {
            content: None,
            name: None,
            size: None,
            minimum_size: 1,
            ratio: 1,
            visible: true,
            splitter: LayoutSplitter::Column,
            children: Seq::<Layout<R>>::empty(),
        }
    }

    /// The pane's sizing rule.
    pub open spec fn constraint(self) -> Constraint {
        Constraint { fixed: self.size, minimum: self.minimum_size, ratio: self.ratio }
    }
}

impl<R> View for Layout<R> {
    type V = LayoutModel<R>;

    closed spec fn view(&self) -> LayoutModel<R> {
        LayoutModel {
            content: self.renderable,
            name: match self.name {
                Some(n) => Some(n@),
                None => None,
            },
            size: self.size,
            minimum_size: self.minimum_size,
            ratio: self.ratio,
            visible: self.visible,
            splitter: self.splitter,
            children: self.children@,
        }
    }
}

/// The children that are visible, in order.
pub open spec fn visible<R>(children: Seq<Layout<R>>) -> Seq<Layout<R>>
    decreases children.len(),
{
    if children.len() == 0 {
        Seq::<Layout<R>>::empty()
    } else if children.last()@.visible {
        visible(children.drop_last()).push(children.last())
    } else {
        visible(children.drop_last())
    }
}

/// The sizing rules of a list of panes.
pub open spec fn constraints_of<R>(panes: Seq<Layout<R>>) -> Seq<Constraint> {
    Seq::new(panes.len(), |i: int| panes[i]@.constraint())
}

/// The panes that a list of references points to.
pub open spec fn panes_of<R>(refs: Seq<&Layout<R>>) -> Seq<Layout<R>> {
    Seq::new(refs.len(), |i: int| *refs[i])
}

/// The regions of panes laid out along the split axis of `region`, one after
/// the other from the region's origin, each as long as the resolver says and
/// as large across as the region.
pub open spec fn divided(splitter: LayoutSplitter, cs: Seq<Constraint>, region: Region) -> Seq<
    Region,
> {
    match splitter {
        LayoutSplitter::Row => {
            let sizes = resolved(region.width as int, cs);
            Seq::new(
                cs.len(),
                |i: int|
                    Region {
                        x: (region.x + total_of(sizes.take(i))) as usize,
                        y: region.y,
                        width: sizes[i] as usize,
                        height: region.height,
                    },
            )
        },
        LayoutSplitter::Column => {
            let sizes = resolved(region.height as int, cs);
            Seq::new(
                cs.len(),
                |i: int|
                    Region {
                        x: region.x,
                        y: (region.y + total_of(sizes.take(i))) as usize,
                        width: region.width,
                        height: sizes[i] as usize,
                    },
            )
        },
    }
}

impl<R> Layout<R> {
    /// Whether the minimum size and the ratio are at least one, in this pane
    /// and in every pane below it.
    pub open spec fn well_formed(&self) -> bool
        decreases self,
    {
        &&& self@.minimum_size >= 1
        &&& self@.ratio >= 1
        &&& forall|i: int|
            0 <= i < self@.children.len() ==> (#[trigger] self@.children[i]).well_formed()
    }

    /// Create a new empty Layout.
    pub fn new() -> (out: Layout<R>)
        ensures
            out@ == LayoutModel::<R>::fresh(),
            out.well_formed(),
    {
        let out = Layout {
            renderable: None,
            name: None,
            size: None,
            minimum_size: 1,
            ratio: 1,
            visible: true,
            splitter: LayoutSplitter::Column,
            children: Vec::new(),
        };
        proof {
            assert(out@.children =~= Seq::<Layout<R>>::empty());
        }
        out
    }

    /// Create a Layout from a renderable.
    pub fn from_renderable(renderable: R) -> (out: Layout<R>)
        ensures
            out@ == (LayoutModel { content: Some(renderable), ..LayoutModel::<R>::fresh() }),
            out.well_formed(),
    {
        let out = Layout {
            renderable: Some(renderable),
            name: None,
            size: None,
            minimum_size: 1,
            ratio: 1,
            visible: true,
            splitter: LayoutSplitter::Column,
            children: Vec::new(),
        };
        proof {
            assert(out@.children =~= Seq::<Layout<R>>::empty());
        }
        out
    }

    /// Set the layout name.
    pub fn name(self, name: &str) -> (out: Layout<R>)
        ensures
            out@ == (LayoutModel { name: Some(name@), ..self@ }),
            self.well_formed() ==> out.well_formed(),
    {
        let mut out = self;
        out.name = Some(String::from_str(name));
        out
    }

    /// Set fixed size (width or height, depending on splitter).
    pub fn size(self, size: usize) -> (out: Layout<R>)
        ensures
            out@ == (LayoutModel { size: Some(size), ..self@ }),
            self.well_formed() ==> out.well_formed(),
    {
        let mut out = self;
        out.size = Some(size);
        out
    }

    /// Set minimum size; a minimum of zero counts as one.
    pub fn minimum_size(self, minimum_size: usize) -> (out: Layout<R>)
        ensures
            out@ == (LayoutModel {
                minimum_size: if minimum_size >= 1 {
                    minimum_size
                } else {
                    1
                },
                ..self@
            }),
            self.well_formed() ==> out.well_formed(),
    {
        let mut out = self;
        out.minimum_size = if minimum_size >= 1 {
            minimum_size
        } else {
            1
        };
        out
    }

    /// Set flex ratio; a ratio of zero counts as one.
    pub fn ratio(self, ratio: usize) -> (out: Layout<R>)
        ensures
            out@ == (LayoutModel {
                ratio: if ratio >= 1 {
                    ratio
                } else {
                    1
                },
                ..self@
            }),
            self.well_formed() ==> out.well_formed(),
    {
        let mut out = self;
        out.ratio = if ratio >= 1 {
            ratio
        } else {
            1
        };
        out
    }

    /// Set visibility.
    pub fn visible(self, visible: bool) -> (out: Layout<R>)
        ensures
            out@ == (LayoutModel { visible, ..self@ }),
            self.well_formed() ==> out.well_formed(),
    {
        let mut out = self;
        out.visible = visible;
        out
    }

    /// Set the layout renderable.
    pub fn renderable(self, renderable: R) -> (out: Layout<R>)
        ensures
            out@ == (LayoutModel { content: Some(renderable), ..self@ }),
            self.well_formed() ==> out.well_formed(),
    {
        let mut out = self;
        out.renderable = Some(renderable);
        out
    }

    /// Update the layout content.
    pub fn update(&mut self, renderable: R)
        ensures
            final(self)@ == (LayoutModel { content: Some(renderable), ..old(self)@ }),
            old(self).well_formed() ==> final(self).well_formed(),
    {
        self.renderable = Some(renderable);
    }

    /// Split into child layouts with explicit splitter.
    pub fn split(&mut self, layouts: Vec<Layout<R>>, splitter: LayoutSplitter)
        ensures
            final(self)@ == (LayoutModel { splitter, children: layouts@, ..old(self)@ }),
            old(self).well_formed() && (forall|i: int|
                0 <= i < layouts.len() ==> (#[trigger] layouts[i]).well_formed())
                ==> final(self).well_formed(),
    {
        self.splitter = splitter;
        self.children = layouts;
    }

    /// Split horizontally (row).
    pub fn split_row(&mut self, layouts: Vec<Layout<R>>)
        ensures
            final(self)@ == (LayoutModel {
                splitter: LayoutSplitter::Row,
                children: layouts@,
                ..old(self)@
            }),
            old(self).well_formed() && (forall|i: int|
                0 <= i < layouts.len() ==> (#[trigger] layouts[i]).well_formed())
                ==> final(self).well_formed(),
    {
        self.split(layouts, LayoutSplitter::Row);
    }

    /// Split vertically (column).
    pub fn split_column(&mut self, layouts: Vec<Layout<R>>)
        ensures
            final(self)@ == (LayoutModel {
                splitter: LayoutSplitter::Column,
                children: layouts@,
                ..old(self)@
            }),
            old(self).well_formed() && (forall|i: int|
                0 <= i < layouts.len() ==> (#[trigger] layouts[i]).well_formed())
                ==> final(self).well_formed(),
    {
        self.split(layouts, LayoutSplitter::Column);
    }

    /// Add children to an existing split.
    pub fn add_split(&mut self, layouts: Vec<Layout<R>>)
        ensures
            final(self)@ == (LayoutModel {
                children: old(self)@.children + layouts@,
                ..old(self)@
            }),
            old(self).well_formed() && (forall|i: int|
                0 <= i < layouts.len() ==> (#[trigger] layouts[i]).well_formed())
                ==> final(self).well_formed(),
    {
        let mut layouts = layouts;
        self.children.append(&mut layouts);
    }

    /// Remove all children.
    pub fn unsplit(&mut self)
        ensures
            final(self)@ == (LayoutModel { children: Seq::<Layout<R>>::empty(), ..old(self)@ }),
            old(self).well_formed() ==> final(self).well_formed(),
    {
        self.children.clear();
    }

    /// The children that are visible, in order.
    pub fn visible_children(&self) -> (out: Vec<&Layout<R>>)
        ensures
            panes_of(out@) == visible(self@.children),
    {
        let mut out: Vec<&Layout<R>> = Vec::new();
        let mut i: usize = 0;
        while i < self.children.len()
            invariant
                i <= self.children.len(),
                panes_of(out@) == visible(self.children@.take(i as int)),
            decreases self.children.len() - i,
        {
            proof {
                assert(self.children@.take(i + 1).drop_last() =~= self.children@.take(i as int));
            }
            let child = &self.children[i];
            if child.visible {
                let ghost before = panes_of(out@);
                out.push(child);
                proof {
                    assert(panes_of(out@) =~= before.push(*child));
                }
            }
            i = i + 1;
        }
        proof {
            assert(self.children@.take(self.children.len() as int) =~= self.children@);
        }
        out
    }
}

/// The regions that a split makes lie inside the region that is split, and
/// where there is a pane they cover its whole extent along the split axis.
pub proof fn lemma_divided(splitter: LayoutSplitter, cs: Seq<Constraint>, region: Region, i: int)
    requires
        region.in_bounds(),
        0 <= i < cs.len(),
    ensures
        ({
            let part = divided(splitter, cs, region)[i];
            let extent = match splitter {
                LayoutSplitter::Row => region.width,
                LayoutSplitter::Column => region.height,
            };
            let sizes = resolved(extent as int, cs);
            &&& part.in_bounds()
            &&& match splitter {
                LayoutSplitter::Row => {
                    &&& part.x == region.x + total_of(sizes.take(i))
                    &&& part.width == sizes[i]
                    &&& part.x + part.width <= region.x + region.width
                    &&& part.y == region.y
                    &&& part.height == region.height
                },
                LayoutSplitter::Column => {
                    &&& part.y == region.y + total_of(sizes.take(i))
                    &&& part.height == sizes[i]
                    &&& part.y + part.height <= region.y + region.height
                    &&& part.x == region.x
                    &&& part.width == region.width
                },
            }
        }),
{
    let extent = match splitter {
        LayoutSplitter::Row => region.width,
        LayoutSplitter::Column => region.height,
    };
    let sizes = resolved(extent as int, cs);
    law_exact_coverage(extent as int, cs);
    lemma_total_prefix(sizes, i, i + 1);
    lemma_total_prefix(sizes, i + 1, sizes.len() as int);
    assert(sizes.take(i + 1).drop_last() =~= sizes.take(i));
}

impl<R> Layout<R> {
    /// The pane's sizing rule.
    fn sizing(&self) -> (c: Constraint)
        ensures
            c == self@.constraint(),
    {
        Constraint { fixed: self.size, minimum: self.minimum_size, ratio: self.ratio }
    }
}

/// Lays `children` out along the split axis of `region`.
fn divide_along<'a, R>(
    splitter: LayoutSplitter,
    children: &[&'a Layout<R>],
    region: Region,
) -> (out: Vec<(Region, &'a Layout<R>)>)
    requires
        region.in_bounds(),
    ensures
        out.len() == children.len(),
        forall|i: int|
            0 <= i < out.len() ==> (#[trigger] out[i]).0 == divided(
                splitter,
                constraints_of(panes_of(children@)),
                region,
            )[i] && *out[i].1 == *children[i],
{
    let n = children.len();
    let ghost cs = constraints_of(panes_of(children@));
    let mut rules: Vec<Constraint> = Vec::new();
    let mut i: usize = 0;
    while i < n
        invariant
            i <= n,
            n == children.len(),
            cs == constraints_of(panes_of(children@)),
            rules@ == cs.take(i as int),
        decreases n - i,
    {
        rules.push(children[i].sizing());
        proof {
            assert(cs.take(i + 1) =~= cs.take(i as int).push(cs[i as int]));
        }
        i = i + 1;
    }
    proof {
        assert(cs.take(n as int) =~= cs);
    }
    let extent = match splitter {
        LayoutSplitter::Row => region.width,
        LayoutSplitter::Column => region.height,
    };
    let sizes = ratio_resolve(extent, rules.as_slice());
    let ghost want = resolved(extent as int, cs);
    let mut out: Vec<(Region, &'a Layout<R>)> = Vec::new();
    let mut offset: usize = 0;
    let mut i: usize = 0;
    while i < n
        invariant
            i <= n,
            n == children.len(),
            n == cs.len(),
            region.in_bounds(),
            cs == constraints_of(panes_of(children@)),
            want == resolved(extent as int, cs),
            ints(sizes@) == want,
            extent == match splitter {
                LayoutSplitter::Row => region.width,
                LayoutSplitter::Column => region.height,
            },
            offset as int == total_of(want.take(i as int)),
            out.len() == i,
            forall|k: int|
                0 <= k < i ==> (#[trigger] out[k]).0 == divided(splitter, cs, region)[k]
                    && *out[k].1 == *children[k],
        decreases n - i,
    {
        proof {
            lemma_divided(splitter, cs, region, i as int);
            law_exact_coverage(extent as int, cs);
            assert(want.len() == n);
            assert(sizes@.len() == n);
            assert(ints(sizes@)[i as int] == sizes@[i as int]);
            assert(want.take(i + 1).drop_last() =~= want.take(i as int));
        }
        let size = sizes[i];
        let part = match splitter {
            LayoutSplitter::Row => Region::new(region.x + offset, region.y, size, region.height),
            LayoutSplitter::Column => Region::new(region.x, region.y + offset, region.width, size),
        };
        out.push((part, children[i]));
        offset = offset + size;
        i = i + 1;
    }
    out
}

/// Lays `children` out side by side over the width of `region`.
pub fn divide_row<'a, R>(children: &[&'a Layout<R>], region: Region) -> (out: Vec<
    (Region, &'a Layout<R>),
>)
    requires
        region.in_bounds(),
    ensures
        out.len() == children.len(),
        forall|i: int|
            0 <= i < out.len() ==> (#[trigger] out[i]).0 == divided(
                LayoutSplitter::Row,
                constraints_of(panes_of(children@)),
                region,
            )[i] && *out[i].1 == *children[i],
{
    divide_along(LayoutSplitter::Row, children, region)
}

/// Lays `children` out one below the other over the height of `region`.
pub fn divide_column<'a, R>(children: &[&'a Layout<R>], region: Region) -> (out: Vec<
    (Region, &'a Layout<R>),
>)
    requires
        region.in_bounds(),
    ensures
        out.len() == children.len(),
        forall|i: int|
            0 <= i < out.len() ==> (#[trigger] out[i]).0 == divided(
                LayoutSplitter::Column,
                constraints_of(panes_of(children@)),
                region,
            )[i] && *out[i].1 == *children[i],
{
    divide_along(LayoutSplitter::Column, children, region)
}

impl LayoutSplitter {
    /// Lays `children` out in this direction over `region`.
    pub fn divide<'a, R>(self, children: &[&'a Layout<R>], region: Region) -> (out: Vec<
        (Region, &'a Layout<R>),
    >)
        requires
            region.in_bounds(),
        ensures
            out.len() == children.len(),
            forall|i: int|
                0 <= i < out.len() ==> (#[trigger] out[i]).0 == divided(
                    self,
                    constraints_of(panes_of(children@)),
                    region,
                )[i] && *out[i].1 == *children[i],
    {
        match self {
            LayoutSplitter::Row => divide_row(children, region),
            LayoutSplitter::Column => divide_column(children, region),
        }
    }
}

impl<R> Layout<R> {
    /// The first pane called `name`, searching depth first: the pane itself
    /// before its children, the children from left to right.
    pub open spec fn find(&self, name: Seq<char>) -> Option<Layout<R>>
        decreases self, 1int, 0int,
    {
        if self@.name == Some(name) {
            Some(*self)
        } else {
            let k = self.first_holding(name, 0);
            if 0 <= k < self@.children.len() {
                self@.children[k].find(name)
            } else {
                None
            }
        }
    }

    /// The position of the first child, from position `from` on, that holds
    /// a pane called `name`; the number of children if there is none.
    pub open spec fn first_holding(&self, name: Seq<char>, from: int) -> int
        decreases self, 0int, self@.children.len() - from,
    {
        if from < 0 || from >= self@.children.len() {
            self@.children.len() as int
        } else if self@.children[from].find(name) is Some {
            from
        } else {
            self.first_holding(name, from + 1)
        }
    }

    /// Whether `after` is this pane with the first pane called `name`
    /// replaced by `pane`, and nothing else changed.
    pub open spec fn replaced(&self, name: Seq<char>, pane: Layout<R>, after: Layout<R>) -> bool
        decreases self,
    {
        if self@.name == Some(name) {
            after == pane
        } else {
            &&& after@.content == self@.content
            &&& after@.name == self@.name
            &&& after@.size == self@.size
            &&& after@.minimum_size == self@.minimum_size
            &&& after@.ratio == self@.ratio
            &&& after@.visible == self@.visible
            &&& after@.splitter == self@.splitter
            &&& after@.children.len() == self@.children.len()
            &&& forall|i: int|
                0 <= i < self@.children.len() ==> if i == self.first_holding(name, 0) {
                    (#[trigger] self@.children[i]).replaced(name, pane, after@.children[i])
                } else {
                    after@.children[i] == self@.children[i]
                }
        }
    }

    /// Whether the pane is called `name`.
    fn is_called(&self, name: &str) -> (yes: bool)
        ensures
            yes == (self@.name == Some(name@)),
    {
        match &self.name {
            Some(n) => same_text(n.as_str(), name),
            None => false,
        }
    }

    /// Get a child layout by name: the first match of a depth-first search
    /// that looks at a pane before its children.
    pub fn get(&self, name: &str) -> (found: Option<&Layout<R>>)
        ensures
            match found {
                Some(pane) => self.find(name@) == Some(*pane),
                None => self.find(name@) is None,
            },
        decreases self,
    {
        if self.is_called(name) {
            return Some(self);
        }
        let mut i: usize = 0;
        while i < self.children.len()
            invariant
                i <= self.children.len(),
                self@.name != Some(name@),
                self.first_holding(name@, i as int) == self.first_holding(name@, 0),
            decreases self.children.len() - i,
        {
            let found = self.children[i].get(name);
            if found.is_some() {
                return found;
            }
            i = i + 1;
        }
        None
    }
}

impl<R> Layout<R> {
    /// Get a mutable child layout by name: the pane that [`Layout::get`]
    /// finds.
    pub fn get_mut(&mut self, name: &str) -> (found: Option<&mut Layout<R>>)
        ensures
            match found {
                Some(pane) => old(self).find(name@) == Some(*pane) && old(self).replaced(
                    name@,
                    *final(pane),
                    *final(self),
                ),
                None => old(self).find(name@) is None && *final(self) == *old(self),
            },
        decreases *old(self),
    {
        if self.is_called(name) {
            return Some(self);
        }
        let mut i: usize = 0;
        let mut at: Option<usize> = None;
        while i < self.children.len() && at.is_none()
            invariant
                i <= self.children.len(),
                *self == *old(self),
                self@.name != Some(name@),
                self.first_holding(name@, i as int) == self.first_holding(name@, 0),
                at matches Some(k) ==> k == i && i < self.children.len()
                    && self@.children[i as int].find(name@) is Some,
            decreases self.children.len() - i + if at is None { 1int } else { 0int },
        {
            if self.children[i].get(name).is_some() {
                at = Some(i);
            } else {
                i = i + 1;
            }
        }
        match at {
            Some(k) => {
                let found = self.children[k].get_mut(name);
                found
            },
            None => None,
        }
    }
}

/// A grid of `height` lines of `width` spaces.
pub open spec fn blank_grid(width: usize, height: usize) -> Grid {
    Seq::new(height as nat, |r: int| seq![SegmentModel::spaces(width as nat, None)])
}

/// A grid of `height` lines of `width` spaces.
pub fn blank_lines(width: usize, height: usize) -> (out: Vec<Vec<Segment>>)
    ensures
        out.deep_view() == blank_grid(width, height),
{
    let mut out: Vec<Vec<Segment>> = Vec::new();
    let mut r: usize = 0;
    while r < height
        invariant
            r <= height,
            out.deep_view() == blank_grid(width, r),
        decreases height - r,
    {
        let mut line: Vec<Segment> = Vec::new();
        line.push(Segment::spaces(width, None));
        let ghost before = out.deep_view();
        proof {
            assert(line.deep_view() =~= seq![SegmentModel::spaces(width as nat, None)]);
        }
        out.push(line);
        proof {
            assert(out.deep_view() =~= before.push(seq![SegmentModel::spaces(width as nat, None)]));
            assert(out.deep_view() =~= blank_grid(width, (r + 1) as usize));
        }
        r = r + 1;
    }
    out
}

/// The rendered children as plain values: each region with its grid.
pub open spec fn placed_model(children: Seq<(Region, Vec<Vec<Segment>>)>) -> Seq<(Region, Grid)> {
    Seq::new(children.len(), |i: int| (children[i].0, children[i].1.deep_view()))
}

/// Whether a child's region spans the absolute row `row`.
pub open spec fn covers(child: Region, row: int) -> bool {
    child.y <= row && row - child.y < child.height
}

/// How far a child's region starts to the right of the parent's; zero for a
/// child that starts to the left of it.
pub open spec fn offset_in(region: Region, child: Region) -> usize {
    if child.x >= region.x {
        (child.x - region.x) as usize
    } else {
        0
    }
}

/// `item` put into fragments ordered by offset: behind every fragment whose
/// offset is not larger.
pub open spec fn inserted(frags: Seq<(usize, Line)>, item: (usize, Line)) -> Seq<(usize, Line)>
    decreases frags.len(),
{
    if frags.len() == 0 {
        seq![item]
    } else if frags.last().0 <= item.0 {
        frags.push(item)
    } else {
        inserted(frags.drop_last(), item).push(frags.last())
    }
}

/// The fragments of row `row` of the parent that the first `k` children
/// give: from each child whose region spans the row its line for that row,
/// with its offset; ordered by offset, children with equal offsets in their
/// own order.
pub open spec fn fragments(region: Region, placed: Seq<(Region, Grid)>, row: int, k: int) -> Seq<
    (usize, Line),
>
    decreases k,
{
    if k <= 0 {
        Seq::<(usize, Line)>::empty()
    } else {
        let before = fragments(region, placed, row, k - 1);
        let child = placed[k - 1];
        let abs = region.y + row;
        if covers(child.0, abs) {
            inserted(before, (offset_in(region, child.0), child.1[abs - child.0.y]))
        } else {
            before
        }
    }
}

/// Where the cursor stands after the first `k` fragments were written: each
/// fragment starts at its offset, or at the cursor if that is further right,
/// and moves the cursor by its width.
pub open spec fn cursor_after(frags: Seq<(usize, Line)>, k: int) -> usize
    decreases k,
{
    if k <= 0 {
        0
    } else {
        let cursor = cursor_after(frags, k - 1);
        let start = if frags[k - 1].0 > cursor {
            frags[k - 1].0
        } else {
            cursor
        };
        clip((start + line_width(frags[k - 1].1)) as nat)
    }
}

/// The first `k` fragments written from left to right, with spaces filling
/// the gap between the cursor and a fragment that starts further right.
pub open spec fn joined(frags: Seq<(usize, Line)>, k: int) -> Line
    decreases k,
{
    if k <= 0 {
        Seq::<SegmentModel>::empty()
    } else {
        let cursor = cursor_after(frags, k - 1);
        let before = joined(frags, k - 1);
        let filled = if frags[k - 1].0 > cursor {
            before.push(SegmentModel::spaces((frags[k - 1].0 - cursor) as nat, None))
        } else {
            before
        };
        filled + frags[k - 1].1
    }
}

/// Row `row` of the parent: the fragments of the children joined, spaces up
/// to the parent's width behind the last, and the whole brought to exactly
/// the parent's width.
pub open spec fn merged_row(region: Region, placed: Seq<(Region, Grid)>, row: int) -> Line {
    let frags = fragments(region, placed, row, placed.len() as int);
    let line = joined(frags, frags.len() as int);
    let cursor = cursor_after(frags, frags.len() as int);
    let full = if cursor < region.width {
        line.push(SegmentModel::spaces((region.width - cursor) as nat, None))
    } else {
        line
    };
    adjusted(full, region.width as nat, None, true)
}

/// The grids of the children, each at its region, merged into the grid of
/// the parent.
pub open spec fn merged(region: Region, placed: Seq<(Region, Grid)>) -> Grid {
    Seq::new(region.height as nat, |row: int| merged_row(region, placed, row))
}

proof fn lemma_inserted_at(frags: Seq<(usize, Line)>, item: (usize, Line), pos: int)
    requires
        0 <= pos <= frags.len(),
        forall|j: int| pos <= j < frags.len() ==> frags[j].0 > item.0,
        pos > 0 ==> frags[pos - 1].0 <= item.0,
    ensures
        inserted(frags, item) == frags.insert(pos, item),
    decreases frags.len(),
{
    if frags.len() == 0 {
        assert(frags.insert(pos, item) =~= seq![item]);
    } else if frags.last().0 <= item.0 {
        assert(pos == frags.len());
        assert(frags.insert(pos, item) =~= frags.push(item));
    } else {
        lemma_inserted_at(frags.drop_last(), item, pos);
        assert(frags.insert(pos, item) =~= frags.drop_last().insert(pos, item).push(frags.last()));
    }
}

/// The fragment that an entry of the row order stands for: the offset, and
/// the line of the child at the row.
pub open spec fn fragment_of(placed: Seq<(Region, Grid)>, abs: int, entry: (usize, usize)) -> (
    usize,
    Line,
) {
    (entry.0, placed[entry.1 as int].1[abs - placed[entry.1 as int].0.y])
}

/// The fragments that a row order stands for.
pub open spec fn fragments_of(placed: Seq<(Region, Grid)>, abs: int, order: Seq<(usize, usize)>) -> Seq<
    (usize, Line),
> {
    Seq::new(order.len(), |j: int| fragment_of(placed, abs, order[j]))
}

/// Merges the grids of the children, each at its region, into the grid of
/// `region`: row by row, the lines of the children that span the row are
/// written from left to right by offset, gaps are filled with spaces, and
/// the row is brought to exactly the width of `region`.
pub fn merge_children(region: Region, children: &[(Region, Vec<Vec<Segment>>)]) -> (out: Vec<
    Vec<Segment>,
>)
    requires
        region.y + region.height <= usize::MAX,
        forall|i: int|
            0 <= i < children.len() ==> (#[trigger] children[i]).1.len() == children[i].0.height,
    ensures
        out.deep_view() == merged(region, placed_model(children@)),
{
    let ghost placed = placed_model(children@);
    let mut out: Vec<Vec<Segment>> = Vec::new();
    let mut row: usize = 0;
    while row < region.height
        invariant
            row <= region.height,
            region.y + region.height <= usize::MAX,
            placed == placed_model(children@),
            forall|i: int|
                0 <= i < children.len() ==> (#[trigger] children[i]).1.len()
                    == children[i].0.height,
            out.len() == row,
            forall|r: int| 0 <= r < row ==> (#[trigger] out[r]).deep_view() == merged_row(region, placed, r),
        decreases region.height - row,
    {
        let abs_row = region.y + row;
        let mut order: Vec<(usize, usize)> = Vec::new();
        let mut k: usize = 0;
        while k < children.len()
            invariant
                k <= children.len(),
                abs_row == region.y + row,
                placed == placed_model(children@),
                forall|j: int|
                    0 <= j < order.len() ==> (#[trigger] order[j]).1 < children.len() && covers(
                        children[order[j].1 as int].0,
                        abs_row as int,
                    ),
                fragments_of(placed, abs_row as int, order@) == fragments(
                    region,
                    placed,
                    row as int,
                    k as int,
                ),
            decreases children.len() - k,
        {
            let child_region = children[k].0;
            proof {
                assert(placed[k as int].0 == child_region);
            }
            if abs_row >= child_region.y && abs_row - child_region.y < child_region.height {
                let x = if child_region.x >= region.x {
                    child_region.x - region.x
                } else {
                    0
                };
                let mut pos = order.len();
                while pos > 0 && order[pos - 1].0 > x
                    invariant
                        pos <= order.len(),
                        forall|j: int| pos <= j < order.len() ==> order[j].0 > x,
                    decreases pos,
                {
                    pos = pos - 1;
                }
                let ghost before = fragments_of(placed, abs_row as int, order@);
                let ghost item = fragment_of(placed, abs_row as int, (x, k));
                proof {
                    assert forall|j: int| pos <= j < before.len() implies before[j].0 > item.0 by {
                        assert(before[j] == fragment_of(placed, abs_row as int, order[j]));
                    }
                    if pos > 0 {
                        assert(before[pos - 1] == fragment_of(
                            placed,
                            abs_row as int,
                            order[pos - 1],
                        ));
                    }
                    lemma_inserted_at(before, item, pos as int);
                }
                order.insert(pos, (x, k));
                proof {
                    assert(fragments_of(placed, abs_row as int, order@) =~= before.insert(
                        pos as int,
                        item,
                    ));
                }
            }
            k = k + 1;
        }
        let ghost frags = fragments(region, placed, row as int, placed.len() as int);
        let mut line: Vec<Segment> = Vec::new();
        let mut cursor: usize = 0;
        let mut j: usize = 0;
        while j < order.len()
            invariant
                j <= order.len(),
                abs_row == region.y + row,
                placed == placed_model(children@),
                frags == fragments_of(placed, abs_row as int, order@),
                forall|i: int|
                    0 <= i < children.len() ==> (#[trigger] children[i]).1.len()
                        == children[i].0.height,
                forall|e: int|
                    0 <= e < order.len() ==> (#[trigger] order[e]).1 < children.len() && covers(
                        children[order[e].1 as int].0,
                        abs_row as int,
                    ),
                line.deep_view() == joined(frags, j as int),
                cursor == cursor_after(frags, j as int),
            decreases order.len() - j,
        {
            let x = order[j].0;
            let child = &children[order[j].1];
            let child_line = &child.1[abs_row - child.0.y];
            proof {
                assert(frags[j as int] == fragment_of(placed, abs_row as int, order[j as int]));
                assert(placed[order[j as int].1 as int].1 == child.1.deep_view());
                assert(frags[j as int].1 == child_line.deep_view());
            }
            let ghost start = line.deep_view();
            if x > cursor {
                line.push(Segment::spaces(x - cursor, None));
                proof {
                    assert(line.deep_view() =~= start.push(
                        SegmentModel::spaces((x - cursor) as nat, None),
                    ));
                }
                cursor = x;
            }
            let ghost filled = line.deep_view();
            let mut copy = clone_line(child_line);
            proof {
                assert(copy.deep_view() =~= child_line.deep_view());
            }
            line.append(&mut copy);
            proof {
                assert(line.deep_view() =~= filled + child_line.deep_view());
            }
            cursor = add_clipped(cursor, line_cells(child_line));
            j = j + 1;
        }
        let ghost written = line.deep_view();
        if cursor < region.width {
            line.push(Segment::spaces(region.width - cursor, None));
            proof {
                assert(line.deep_view() =~= written.push(
                    SegmentModel::spaces((region.width - cursor) as nat, None),
                ));
            }
        }
        let exact = adjust_line_length(line, region.width, None, true);
        out.push(exact);
        row = row + 1;
    }
    proof {
        assert(out.deep_view() =~= merged(region, placed));
    }
    out
}

/// The label of a pane without content: its name, if it has one, and the
/// size of the space it was given, as in `"side (20 x 5)"`.
pub open spec fn placeholder_label(name: Option<Seq<char>>, width: usize, height: usize) -> Seq<
    char,
> {
    let size = seq!['('] + decimal(width as nat) + seq![' ', 'x', ' '] + decimal(height as nat)
        + seq![')'];
    match name {
        Some(n) => n + seq![' '] + size,
        None => size,
    }
}

/// A label set in the middle of `width` cells; a label that is too long is
/// cut and ends in an ellipsis.
pub open spec fn placeholder_text(label: Seq<char>, width: usize) -> Seq<char> {
    let w = text_width(label);
    if w > width {
        if width == 0 {
            Seq::<char>::empty()
        } else {
            sized(label, (width - 1) as nat).push('\u{2026}')
        }
    } else {
        let left = (width - w) / 2;
        repeated(' ', left as nat) + label + repeated(' ', (width - w - left) as nat)
    }
}

/// What a pane without content draws: one line with its label.
pub open spec fn placeholder(name: Option<Seq<char>>, width: usize, height: usize) -> Line {
    seq![
        SegmentModel {
            text: placeholder_text(placeholder_label(name, width, height), width),
            style: None,
            control: false,
        },
    ]
}

/// The line that stands in for the content of a pane that has none: the
/// pane's name and the size of its space, in the middle of the line, cut
/// with an ellipsis if it is too long.
pub fn placeholder_segments(name: Option<&str>, width: usize, height: usize) -> (out: Vec<Segment>)
    ensures
        out.deep_view() == placeholder(
            match name {
                Some(n) => Some(n@),
                None => None,
            },
            width,
            height,
        ),
{
    let mut label = String::new();
    match name {
        Some(n) => {
            label.append(n);
            label.push(' ');
        },
        None => {},
    }
    let ghost head = label@;
    label.push('(');
    push_decimal(&mut label, width as u128);
    label.push(' ');
    label.push('x');
    label.push(' ');
    push_decimal(&mut label, height as u128);
    label.push(')');
    let ghost want = placeholder_label(
        match name {
            Some(n) => Some(n@),
            None => None,
        },
        width,
        height,
    );
    proof {
        let size = seq!['('] + decimal(width as nat) + seq![' ', 'x', ' '] + decimal(height as nat)
            + seq![')'];
        assert(label@ =~= head + size);
        match name {
            Some(n) => {
                assert(head =~= n@ + seq![' ']);
                assert(label@ =~= want);
            },
            None => {
                assert(head =~= Seq::<char>::empty());
                assert(label@ =~= want);
            },
        }
    }
    let chars = chars_of(label.as_str());
    let text = match chars_within(&chars, width) {
        Some(w) => {
            let left = (width - w) / 2;
            let mut text = repeat_char(' ', left);
            text.append(label.as_str());
            let right = repeat_char(' ', width - w - left);
            text.append(right.as_str());
            text
        },
        None => {
            if width == 0 {
                String::new()
            } else {
                let mut text = set_cell_size(label.as_str(), width - 1);
                text.push('\u{2026}');
                text
            }
        },
    };
    let mut out: Vec<Segment> = Vec::new();
    out.push(Segment { text, style: None, control: false });
    proof {
        assert(out.deep_view() =~= placeholder(
            match name {
                Some(n) => Some(n@),
                None => None,
            },
            width,
            height,
        ));
    }
    out
}

/// The grid of a leaf: the lines of its content, each brought to `width`
/// cells; lines beyond `height` are dropped, lines that are missing are
/// blank.
pub open spec fn leaf_grid(content: Line, width: usize, height: usize) -> Grid {
    let lines = split(content);
    Seq::new(
        height as nat,
        |r: int|
            if r < lines.len() {
                adjusted(lines[r], width as nat, None, true)
            } else {
                seq![SegmentModel::spaces(width as nat, None)]
            },
    )
}

/// Brings the content of a leaf to a grid of exactly `width` by `height`
/// cells.
pub fn fit_leaf(content: Vec<Segment>, width: usize, height: usize) -> (out: Vec<Vec<Segment>>)
    ensures
        out.deep_view() == leaf_grid(content.deep_view(), width, height),
{
    let lines = split_lines(content);
    let ghost model = lines.deep_view();
    let ghost want = leaf_grid(content.deep_view(), width, height);
    let mut out: Vec<Vec<Segment>> = Vec::new();
    let mut r: usize = 0;
    while r < height
        invariant
            r <= height,
            model == lines.deep_view(),
            model == split(content.deep_view()),
            want == leaf_grid(content.deep_view(), width, height),
            out.len() == r,
            forall|k: int| 0 <= k < r ==> (#[trigger] out[k]).deep_view() == want[k],
        decreases height - r,
    {
        if r < lines.len() {
            proof {
                assert(model[r as int] == lines[r as int].deep_view());
            }
            let line = clone_line(&lines[r]);
            proof {
                assert(line.deep_view() =~= lines[r as int].deep_view());
            }
            out.push(adjust_line_length(line, width, None, true));
        } else {
            let mut line: Vec<Segment> = Vec::new();
            line.push(Segment::spaces(width, None));
            proof {
                assert(line.deep_view() =~= seq![SegmentModel::spaces(width as nat, None)]);
            }
            out.push(line);
        }
        r = r + 1;
    }
    proof {
        assert(out.deep_view() =~= want);
    }
    out
}

/// The segments of a grid in one stream: line after line, with a line break
/// between two lines and none behind the last.
pub open spec fn flattened(grid: Grid, k: int) -> Line
    decreases k,
{
    if k <= 0 {
        Seq::<SegmentModel>::empty()
    } else {
        let before = flattened(grid, k - 1);
        let broken = if k > 1 {
            before.push(SegmentModel { text: seq!['\n'], style: None, control: false })
        } else {
            before
        };
        broken + grid[k - 1]
    }
}

/// A visible child is one of the children.
pub proof fn lemma_visible_member<R>(children: Seq<Layout<R>>, i: int) -> (j: int)
    requires
        0 <= i < visible(children).len(),
    ensures
        0 <= j < children.len(),
        children[j] == visible(children)[i],
        children[j]@.visible,
    decreases children.len(),
{
    if children.last()@.visible && i == visible(children).len() - 1 {
        children.len() - 1
    } else {
        lemma_visible_member(children.drop_last(), i)
    }
}

impl<R: Renderable> Layout<R> {
    /// What the pane draws as a leaf: its content, or a placeholder.
    pub open spec fn leaf_content(&self, width: usize, height: usize) -> Line {
        match self@.content {
            Some(c) => c.rendered(width, height),
            None => placeholder(self@.name, width, height),
        }
    }

    /// The grid of the pane over `region`. A pane that is not visible is
    /// blank. A pane without visible children is a leaf. Any other pane is
    /// split among its visible children, whose grids are merged; its own
    /// content is not drawn.
    pub open spec fn grid(&self, region: Region) -> Grid
        decreases self, 1int, 0int,
    {
        if !self@.visible {
            blank_grid(region.width, region.height)
        } else {
            let cs = constraints_of(visible(self@.children));
            if cs.len() == 0 {
                leaf_grid(
                    self.leaf_content(region.width, region.height),
                    region.width,
                    region.height,
                )
            } else {
                merged(
                    region,
                    self.placed(
                        divided(self@.splitter, cs, region),
                        self@.children.len() as int,
                    ),
                )
            }
        }
    }

    /// The visible ones among the first `k` children, each with its region
    /// and its grid over that region; `regions` holds the regions of the
    /// visible children in order.
    pub open spec fn placed(&self, regions: Seq<Region>, k: int) -> Seq<(Region, Grid)>
        decreases self, 0int, k,
    {
        if k <= 0 || k > self@.children.len() {
            Seq::<(Region, Grid)>::empty()
        } else {
            let before = self.placed(regions, k - 1);
            let child = self@.children[k - 1];
            if child@.visible {
                let part = regions[before.len() as int];
                before.push((part, child.grid(part)))
            } else {
                before
            }
        }
    }

    /// What rendering the pane at `width` by `height` yields: its grid over
    /// the region of that size at the origin, as one stream.
    pub open spec fn drawing(&self, width: usize, height: usize) -> Line {
        flattened(self.grid(Region { x: 0, y: 0, width, height }), height as int)
    }

    /// The visible children among the first `k`, with their regions and
    /// grids, are the visible children in order.
    pub proof fn lemma_placed(&self, regions: Seq<Region>, k: int)
        requires
            0 <= k <= self@.children.len(),
        ensures
            self.placed(regions, k).len() == visible(self@.children.take(k)).len(),
            forall|t: int|
                0 <= t < self.placed(regions, k).len() ==> (#[trigger] self.placed(regions, k)[t])
                    == (regions[t], visible(self@.children.take(k))[t].grid(regions[t])),
        decreases k,
    {
        if k > 0 {
            self.lemma_placed(regions, k - 1);
            assert(self@.children.take(k).drop_last() =~= self@.children.take(k - 1));
        } else {
            assert(self@.children.take(0) =~= Seq::<Layout<R>>::empty());
        }
    }

    /// Renders the pane as a leaf over `region`: its content, or a
    /// placeholder, cut and padded to exactly the region's size.
    pub fn render_leaf(&self, region: Region) -> (out: Vec<Vec<Segment>>)
        ensures
            out.deep_view() == leaf_grid(
                self.leaf_content(region.width, region.height),
                region.width,
                region.height,
            ),
    {
        let content = match &self.renderable {
            Some(r) => r.render(region.width, region.height),
            None => {
                let name = match &self.name {
                    Some(n) => Some(n.as_str()),
                    None => None,
                };
                placeholder_segments(name, region.width, region.height)
            },
        };
        fit_leaf(content, region.width, region.height)
    }

    /// Renders the pane over `region` into a grid of exactly the region's
    /// size.
    pub fn render_region(&self, region: Region) -> (out: Vec<Vec<Segment>>)
        requires
            region.in_bounds(),
        ensures
            out.deep_view() == self.grid(region),
        decreases self,
    {
        if !self.visible {
            return blank_lines(region.width, region.height);
        }
        let kids = self.visible_children();
        if kids.len() == 0 {
            return self.render_leaf(region);
        }
        let ghost seen = visible(self@.children);
        let ghost cs = constraints_of(seen);
        let ghost regions = divided(self@.splitter, cs, region);
        let parts = self.splitter.divide(kids.as_slice(), region);
        let mut rendered: Vec<(Region, Vec<Vec<Segment>>)> = Vec::new();
        let mut i: usize = 0;
        while i < parts.len()
            invariant
                i <= parts.len(),
                parts.len() == kids.len(),
                region.in_bounds(),
                seen == visible(self@.children),
                panes_of(kids@) == seen,
                cs == constraints_of(seen),
                regions == divided(self@.splitter, cs, region),
                forall|t: int|
                    0 <= t < parts.len() ==> (#[trigger] parts[t]).0 == regions[t] && *parts[t].1
                        == *kids[t],
                rendered.len() == i,
                forall|t: int|
                    0 <= t < i ==> (#[trigger] rendered[t]).0 == regions[t]
                        && rendered[t].1.deep_view() == seen[t].grid(regions[t])
                        && rendered[t].1.len() == regions[t].height,
            decreases parts.len() - i,
        {
            let part = parts[i].0;
            let child = parts[i].1;
            proof {
                assert(*kids[i as int] == panes_of(kids@)[i as int]);
                let j = lemma_visible_member(self@.children, i as int);
                assert(*child == self@.children[j]);
                lemma_divided(self@.splitter, cs, region, i as int);
                child.lemma_grid_exact(part);
            }
            let lines = child.render_region(part);
            proof {
                assert(lines.deep_view().len() == lines.len());
            }
            rendered.push((part, lines));
            i = i + 1;
        }
        proof {
            let n = self@.children.len() as int;
            self.lemma_placed(regions, n);
            assert(self@.children.take(n) =~= self@.children);
            assert(placed_model(rendered@) =~= self.placed(regions, n));
        }
        merge_children(region, rendered.as_slice())
    }

    /// The grid of a pane over a region has exactly the region's height in
    /// lines, each of exactly the region's width in cells.
    pub proof fn lemma_grid_exact(&self, region: Region)
        ensures
            grid_exact(self.grid(region), region.width as nat, region.height as nat),
    {
        let grid = self.grid(region);
        assert forall|r: int| 0 <= r < grid.len() implies line_width(#[trigger] grid[r])
            == region.width by {
            lemma_line_width_push(
                Seq::<SegmentModel>::empty(),
                SegmentModel::spaces(region.width as nat, None),
            );
            assert(Seq::<SegmentModel>::empty().push(
                SegmentModel::spaces(region.width as nat, None),
            ) =~= seq![SegmentModel::spaces(region.width as nat, None)]);
            lemma_spaces_width(region.width as nat, None);
            if !self@.visible {
            } else {
                let cs = constraints_of(visible(self@.children));
                if cs.len() == 0 {
                    let lines = split(self.leaf_content(region.width, region.height));
                    if r < lines.len() {
                        lemma_adjusted_width(lines[r], region.width as nat, None);
                    }
                } else {
                    let placed = self.placed(
                        divided(self@.splitter, cs, region),
                        self@.children.len() as int,
                    );
                    let frags = fragments(region, placed, r, placed.len() as int);
                    let line = joined(frags, frags.len() as int);
                    let cursor = cursor_after(frags, frags.len() as int);
                    let full = if cursor < region.width {
                        line.push(SegmentModel::spaces((region.width - cursor) as nat, None))
                    } else {
                        line
                    };
                    lemma_adjusted_width(full, region.width as nat, None);
                }
            }
        }
    }
}

impl<R: Renderable> Renderable for Layout<R> {
    open spec fn rendered(&self, width: usize, height: usize) -> Line {
        self.drawing(width, height)
    }

    /// Renders the pane, with all that is below it, into a space of `width`
    /// by `height` cells: `height` lines of `width` cells each, with a line
    /// break between two lines.
    fn render(&self, width: usize, height: usize) -> (out: Vec<Segment>) {
        let region = Region::new(0, 0, width, height);
        let lines = self.render_region(region);
        let ghost grid = self.grid(region);
        proof {
            self.lemma_grid_exact(region);
        }
        let mut out: Vec<Segment> = Vec::new();
        let mut idx: usize = 0;
        while idx < lines.len()
            invariant
                idx <= lines.len(),
                lines.len() == height,
                grid == lines.deep_view(),
                out.deep_view() == flattened(grid, idx as int),
            decreases lines.len() - idx,
        {
            let ghost before = out.deep_view();
            if idx > 0 {
                out.push(Segment::line());
                proof {
                    assert(out.deep_view() =~= before.push(
                        SegmentModel { text: seq!['\n'], style: None, control: false },
                    ));
                }
            }
            let ghost broken = out.deep_view();
            let mut line = clone_line(&lines[idx]);
            proof {
                assert(line.deep_view() =~= lines[idx as int].deep_view());
                assert(grid[idx as int] == lines[idx as int].deep_view());
            }
            out.append(&mut line);
            proof {
                assert(out.deep_view() =~= broken + grid[idx as int]);
            }
            idx = idx + 1;
        }
        out
    }
}

/// The grid of a leaf has exactly `height` lines of exactly
/// `width` cells each, whatever its content draws: nothing, too little or
/// too much.
pub proof fn law_leaf_exact(content: Line, width: usize, height: usize)
    ensures
        grid_exact(leaf_grid(content, width, height), width as nat, height as nat),
{
    let grid = leaf_grid(content, width, height);
    let lines = split(content);
    assert forall|r: int| 0 <= r < grid.len() implies line_width(#[trigger] grid[r]) == width by {
        if r < lines.len() {
            lemma_adjusted_width(lines[r], width as nat, None);
        } else {
            let blank = SegmentModel::spaces(width as nat, None);
            lemma_line_width_push(Seq::<SegmentModel>::empty(), blank);
            assert(Seq::<SegmentModel>::empty().push(blank) =~= seq![blank]);
            lemma_spaces_width(width as nat, None);
        }
    }
}

/// Every pane renders to exactly the size of its region: as many lines as
/// the region is high, each as many cells as the region is wide.
pub proof fn law_grid_exact<R: Renderable>(pane: Layout<R>, region: Region)
    ensures
        grid_exact(pane.grid(region), region.width as nat, region.height as nat),
{
    pane.lemma_grid_exact(region);
}

/// Hidden children take no space and do not show.
/// The visible children alone are given regions, which together cover the
/// whole extent of the parent along its split axis; and two parents that
/// differ in nothing but their hidden children render to the same grid.
pub proof fn law_hidden_excluded<R: Renderable>(first: Layout<R>, second: Layout<R>, region: Region)
    requires
        first@.visible,
        second@.visible,
        first@.splitter == second@.splitter,
        visible(first@.children) == visible(second@.children),
        visible(first@.children).len() > 0,
    ensures
        first.grid(region) == second.grid(region),
        ({
            let cs = constraints_of(visible(first@.children));
            let extent = match first@.splitter {
                LayoutSplitter::Row => region.width,
                LayoutSplitter::Column => region.height,
            };
            &&& divided(first@.splitter, cs, region).len() == visible(first@.children).len()
            &&& total_of(resolved(extent as int, cs)) == extent
        }),
{
    let seen = visible(first@.children);
    let cs = constraints_of(seen);
    let regions = divided(first@.splitter, cs, region);
    let n1 = first@.children.len() as int;
    let n2 = second@.children.len() as int;
    first.lemma_placed(regions, n1);
    second.lemma_placed(regions, n2);
    assert(first@.children.take(n1) =~= first@.children);
    assert(second@.children.take(n2) =~= second@.children);
    assert(first.placed(regions, n1) =~= second.placed(regions, n2));
    let extent = match first@.splitter {
        LayoutSplitter::Row => region.width,
        LayoutSplitter::Column => region.height,
    };
    law_exact_coverage(extent as int, cs);
}

/// Rendering is a function of the tree and of the size. Two
/// renders of a tree that was not changed in between, at the same size,
/// yield the same segments.
pub proof fn law_render_deterministic<R: Renderable>(
    pane: Layout<R>,
    width: usize,
    height: usize,
    first: Line,
    second: Line,
)
    requires
        first == pane.rendered(width, height),
        second == pane.rendered(width, height),
    ensures
        first == second,
{
}

impl<R> Default for Layout<R> {
    fn default() -> (out: Layout<R>)
        ensures
            out@ == LayoutModel::<R>::fresh(),
            out.well_formed(),
    {
        Layout::new()
    }
}

impl<R> RichMeasure for Layout<R> {
    open spec fn measured(&self, max_width: usize) -> Measurement {
        Measurement { minimum: max_width, maximum: max_width }
    }

    /// A layout takes all the width that it is given.
    fn rich_measure(&self, max_width: usize) -> (m: Measurement) {
        Measurement::exact(max_width)
    }
}

impl<R> Layout<R> {
    /// The first pane called `name`, for a name that the tree holds. To
    /// ask whether it holds one, use [`Layout::get`].
    pub fn at(&self, name: &str) -> (out: &Layout<R>)
        requires
            self.find(name@) is Some,
        ensures
            Some(*out) == self.find(name@),
    {
        match self.get(name) {
            Some(pane) => pane,
            None => self,
        }
    }

    /// The first pane called `name`, to change it, for a name that the tree
    /// holds. To ask whether it holds one, use [`Layout::get_mut`].
    pub fn at_mut(&mut self, name: &str) -> (out: &mut Layout<R>)
        requires
            old(self).find(name@) is Some,
        ensures
            Some(*out) == old(self).find(name@),
            old(self).replaced(name@, *final(out), *final(self)),
    {
        self.get_mut(name).unwrap()
    }
}

impl<R> Layout<R> {
    /// Whether the pane has children of which none is visible, so that it
    /// is rendered as a leaf in spite of them. A caller that wants to warn
    /// of such a pane asks this.
    pub fn all_children_hidden(&self) -> (hidden: bool)
        ensures
            hidden == (self@.children.len() > 0 && visible(self@.children).len() == 0),
    {
        self.children.len() > 0 && self.visible_children().len() == 0
    }
}

} // verus!

//! The theme definition as its author wrote it: fonts, image sets, and the
//! tree of widget definitions, every style field optional.

use vstd::prelude::*;
use crate::anim_state::AnimState;
use crate::color::Color;
use crate::text::text_view;

verus! {

/// A pair of coordinates or extents. Each is held as the bit pattern of a
/// single-precision float: a theme carries these numbers from the definition
/// to the resolved widget themes and never computes with them.
#[derive(Copy, Clone, Debug, PartialEq, Eq, Hash, Structural)]
pub struct Point {
    /// The bits of the horizontal component
    pub x: u32,
    /// The bits of the vertical component
    pub y: u32,
}

/// The insets of a widget's border, each held as the bit pattern of a
/// single-precision float.
#[derive(Copy, Clone, Debug, PartialEq, Eq, Hash, Structural)]
pub struct Border {
    pub top: u32,
    pub bot: u32,
    pub left: u32,
    pub right: u32,
}

/// The Layout direction for a widget's children.
///
/// This only has effect if the child widget does not manually specify an alignment.
#[derive(Copy, Clone, Debug, PartialEq, Eq, Hash, Structural)]
pub enum Layout {
    /// Layout children horizontally, from left to right
    Horizontal,
    /// Layout children vertically, from top to bottom
    Vertical,
    /// Don't layout children in any order.  Children must specify manual alignments to
    /// avoid overlap.
    Free,
}

impl Default for Layout {
    fn default() -> (layout: Layout)
        ensures
            layout == Layout::Horizontal,
    {
        Layout::Horizontal
    }
}

/// Widget or text horizontal and vertical alignment.
///
/// `Left`, `Right`, and `Center` variants will center the element
/// vertically, while `Bot`, `Top`, and `Center` variants will
/// center the element horizontally.
#[derive(Copy, Clone, Debug, PartialEq, Eq, Hash, Structural)]
pub enum Align {
    Left,
    Right,
    Bot,
    Top,
    Center,
    BotLeft,
    BotRight,
    TopLeft,
    TopRight,
}

impl Default for Align {
    fn default() -> (align: Align)
        ensures
            align == Align::TopLeft,
    {
        Align::TopLeft
    }
}

/// What to compute the width of a widget relative to.
#[derive(Copy, Clone, Debug, PartialEq, Eq, Hash, Structural)]
pub enum WidthRelative {
    /// Width is equal to the `x` field of the widget's `size`.
    Normal,
    /// Width is equal to the parent widget's inner width plus the `x` field of the widget's `size`.
    Parent,
}

impl Default for WidthRelative {
    fn default() -> (width: WidthRelative)
        ensures
            width == WidthRelative::Normal,
    {
        WidthRelative::Normal
    }
}

/// What to compute the height of widget relative to.
#[derive(Copy, Clone, Debug, PartialEq, Eq, Hash, Structural)]
pub enum HeightRelative {
    /// Height is equal to the `y` field of the widget's `size`.
    Normal,
    /// Height is equal to the parent widget's inner height plus the `y` field of the widget's `size`.
    Parent,
    /// Height is equal to the line height of the widget's font plus the `y` field of the widget's `size`.
    FontLine,
}

impl Default for HeightRelative {
    fn default() -> (height: HeightRelative)
        ensures
            height == HeightRelative::Normal,
    {
        HeightRelative::Normal
    }
}

/// How a simple image fills an area larger than itself.
#[derive(Copy, Clone, Debug, PartialEq, Eq, Hash, Structural)]
pub enum ImageFill {
    /// The image is drawn at its own, fixed size.
    Fixed,
    /// The image is stretched over the area.
    Stretch,
    /// The image repeats over the area.
    Repeat,
}

impl Default for ImageFill {
    fn default() -> (fill: ImageFill)
        ensures
            fill == ImageFill::Fixed,
    {
        ImageFill::Fixed
    }
}

/// A font of the theme: a registered font source at a size, the size held
/// as the bit pattern of a single-precision float.
#[derive(Debug, PartialEq, Eq)]
pub struct FontDefinition {
    pub source: String,
    pub size: u32,
}

/// The kinds of image, told apart by the fields that are present.
#[derive(Debug, PartialEq, Eq)]
pub enum ImageDefinitionKind {
    /// A three by three grid of equal cells.
    Composed { position: [u32; 2], grid_size: [u32; 2] },
    /// A grid of one by three cells.
    ComposedVertical { position: [u32; 2], grid_size_vert: [u32; 2] },
    /// A grid of three by one cells.
    ComposedHorizontal { position: [u32; 2], grid_size_horiz: [u32; 2] },
    /// One rectangle of the source image.
    Simple { position: [u32; 2], size: [u32; 2], fill: ImageFill },
    /// Frames shown in turn, each an image of the same set.
    Timed { frame_time_millis: u32, frames: Vec<String>, once: bool },
    /// One image of the same set for each animation state.
    Animated { states: Vec<(AnimState, String)> },
}

/// One image of an image set.
#[derive(Debug, PartialEq, Eq)]
pub struct ImageDefinition {
    pub color: Color,
    pub kind: ImageDefinitionKind,
}

/// The images cut from one registered source image. The id of an image is
/// the id of its set, `/`, and its id within the set.
#[derive(Debug, PartialEq, Eq)]
pub struct ImageSet {
    pub source: String,
    pub images: Vec<(String, ImageDefinition)>,
}

/// The definition of one widget: what it inherits from, its style fields,
/// and its children by local id. A field that is `None` is left to
/// inheritance.
#[derive(Debug, PartialEq, Eq)]
pub struct WidgetThemeDefinition {
    pub from: Option<String>,
    pub text: Option<String>,
    pub font: Option<String>,
    pub background: Option<String>,
    pub foreground: Option<String>,
    pub text_color: Option<Color>,
    pub wants_mouse: Option<bool>,
    pub wants_scroll: Option<bool>,
    pub text_align: Option<Align>,
    pub pos: Option<Point>,
    pub size: Option<Point>,
    pub width_from: Option<WidthRelative>,
    pub height_from: Option<HeightRelative>,
    pub border: Option<Border>,
    pub align: Option<Align>,
    pub child_align: Option<Align>,
    pub layout: Option<Layout>,
    pub layout_spacing: Option<Point>,
    pub children: Vec<(String, WidgetThemeDefinition)>,
}

impl Default for WidgetThemeDefinition {
    /// The definition that sets nothing and has no children.
    fn default() -> (def: WidgetThemeDefinition)
        ensures
            def@ == unset(),
    {
        let def = WidgetThemeDefinition {
            from: None,
            text: None,
            font: None,
            background: None,
            foreground: None,
            text_color: None,
            wants_mouse: None,
            wants_scroll: None,
            text_align: None,
            pos: None,
            size: None,
            width_from: None,
            height_from: None,
            border: None,
            align: None,
            child_align: None,
            layout: None,
            layout_spacing: None,
            children: Vec::new(),
        };
        assert(def@.children =~= Seq::empty());
        def
    }
}

/// A whole theme definition: three tables, each keyed by id and held as a
/// list of its entries. See [`ThemeDefinition::keyed`].
#[derive(Debug, PartialEq, Eq)]
pub struct ThemeDefinition {
    pub fonts: Vec<(String, FontDefinition)>,
    pub image_sets: Vec<(String, ImageSet)>,
    pub widgets: Vec<(String, WidgetThemeDefinition)>,
}

/// A [`WidgetThemeDefinition`] with its strings as sequences of characters.
pub struct WidgetThemeDefinitionView {
    pub from: Option<Seq<char>>,
    pub text: Option<Seq<char>>,
    pub font: Option<Seq<char>>,
    pub background: Option<Seq<char>>,
    pub foreground: Option<Seq<char>>,
    pub text_color: Option<Color>,
    pub wants_mouse: Option<bool>,
    pub wants_scroll: Option<bool>,
    pub text_align: Option<Align>,
    pub pos: Option<Point>,
    pub size: Option<Point>,
    pub width_from: Option<WidthRelative>,
    pub height_from: Option<HeightRelative>,
    pub border: Option<Border>,
    pub align: Option<Align>,
    pub child_align: Option<Align>,
    pub layout: Option<Layout>,
    pub layout_spacing: Option<Point>,
    pub children: Seq<(Seq<char>, WidgetThemeDefinitionView)>,
}

/// The definition that sets nothing and has no children.
pub open spec fn unset() -> WidgetThemeDefinitionView {
    WidgetThemeDefinitionView {
        from: None,
        text: None,
        font: None,
        background: None,
        foreground: None,
        text_color: None,
        wants_mouse: None,
        wants_scroll: None,
        text_align: None,
        pos: None,
        size: None,
        width_from: None,
        height_from: None,
        border: None,
        align: None,
        child_align: None,
        layout: None,
        layout_spacing: None,
        children: Seq::empty(),
    }
}

/// The view of a widget definition and, through its children, of the tree
/// below it.
pub open spec fn definition_view(def: WidgetThemeDefinition) -> WidgetThemeDefinitionView
    decreases def,
{
    WidgetThemeDefinitionView {
        from: text_view(def.from),
        text: text_view(def.text),
        font: text_view(def.font),
        background: text_view(def.background),
        foreground: text_view(def.foreground),
        text_color: def.text_color,
        wants_mouse: def.wants_mouse,
        wants_scroll: def.wants_scroll,
        text_align: def.text_align,
        pos: def.pos,
        size: def.size,
        width_from: def.width_from,
        height_from: def.height_from,
        border: def.border,
        align: def.align,
        child_align: def.child_align,
        layout: def.layout,
        layout_spacing: def.layout_spacing,
        children: Seq::new(
            def.children.len() as nat,
            |i: int|
                if 0 <= i < def.children.len() {
                    (def.children[i].0@, definition_view(def.children[i].1))
                } else {
                    arbitrary()
                },
        ),
    }
}

impl View for WidgetThemeDefinition {
    type V = WidgetThemeDefinitionView;

    open spec fn view(&self) -> WidgetThemeDefinitionView {
        definition_view(*self)
    }
}

/// The views of a list of named widget definitions.
pub open spec fn definitions_view(defs: Seq<(String, WidgetThemeDefinition)>) -> Seq<
    (Seq<char>, WidgetThemeDefinitionView),
> {
    Seq::new(defs.len(), |i: int| (defs[i].0@, defs[i].1@))
}

/// No two entries of the list have the same name: the list is a table.
pub open spec fn distinct_names<T>(entries: Seq<(String, T)>) -> bool {
    forall|i: int, j: int|
        0 <= i < j < entries.len() ==> (#[trigger] entries[i]).0@ != (#[trigger] entries[j]).0@
}

/// No two entries of the list are for the same animation state.
pub open spec fn distinct_states(entries: Seq<(AnimState, String)>) -> bool {
    forall|i: int, j: int|
        0 <= i < j < entries.len() ==> (#[trigger] entries[i]).0@ != (#[trigger] entries[j]).0@
}

/// Whether no two entries of the list have the same name.
pub fn has_distinct_names<T>(entries: &Vec<(String, T)>) -> (yes: bool)
    ensures
        yes == distinct_names(entries@),
{
    let mut j: usize = 0;
    while j < entries.len()
        invariant
            j <= entries.len(),
            forall|a: int, b: int|
                0 <= a < b < j ==> (#[trigger] entries@[a]).0@ != (#[trigger] entries@[b]).0@,
        decreases entries.len() - j,
    {
        let mut i: usize = 0;
        while i < j
            invariant
                i <= j < entries.len(),
                forall|a: int| 0 <= a < i ==> (#[trigger] entries@[a]).0@ != entries@[j as int].0@,
            decreases j - i,
        {
            if entries[i].0 == entries[j].0 {
                return false;
            }
            i += 1;
        }
        j += 1;
    }
    true
}

/// Whether no two entries of the list are for the same animation state.
pub fn has_distinct_states(entries: &Vec<(AnimState, String)>) -> (yes: bool)
    ensures
        yes == distinct_states(entries@),
{
    let mut j: usize = 0;
    while j < entries.len()
        invariant
            j <= entries.len(),
            forall|a: int, b: int|
                0 <= a < b < j ==> (#[trigger] entries@[a]).0@ != (#[trigger] entries@[b]).0@,
        decreases entries.len() - j,
    {
        let mut i: usize = 0;
        while i < j
            invariant
                i <= j < entries.len(),
                forall|a: int| 0 <= a < i ==> (#[trigger] entries@[a]).0@ != entries@[j as int].0@,
            decreases j - i,
        {
            if entries[i].0.same_as(&entries[j].0) {
                return false;
            }
            i += 1;
        }
        j += 1;
    }
    true
}

impl ImageDefinition {
    /// An animated image has one image for each of its states.
    pub open spec fn keyed(&self) -> bool {
        match self.kind {
            ImageDefinitionKind::Animated { states } => distinct_states(states@),
            _ => true,
        }
    }
}

impl ImageSet {
    /// The images of the set have different ids, and an animated image has
    /// one image for each of its states.
    pub open spec fn keyed(&self) -> bool {
        &&& distinct_names(self.images@)
        &&& forall|i: int| 0 <= i < self.images.len() ==> (#[trigger] self.images[i]).1.keyed()
    }

    /// Whether the images of the set have different ids, and every
    /// animated image has one image for each of its states.
    pub fn is_keyed(&self) -> (yes: bool)
        ensures
            yes == self.keyed(),
    {
        if !has_distinct_names(&self.images) {
            return false;
        }
        let mut i: usize = 0;
        while i < self.images.len()
            invariant
                i <= self.images.len(),
                distinct_names(self.images@),
                forall|k: int| 0 <= k < i ==> (#[trigger] self.images[k]).1.keyed(),
            decreases self.images.len() - i,
        {
            match &self.images[i].1.kind {
                ImageDefinitionKind::Animated { states } => {
                    if !has_distinct_states(states) {
                        return false;
                    }
                },
                _ => {},
            }
            i += 1;
        }
        true
    }
}

impl ThemeDefinition {
    /// The three lists of the definition are tables: the fonts have
    /// different ids, so have the image sets, and the images within each set,
    /// and so have the top-level widgets. (That the widgets below one widget
    /// have different ids is seen when the theme is built, where two widgets
    /// with one path are an error.)
    pub open spec fn keyed(&self) -> bool {
        &&& distinct_names(self.fonts@)
        &&& distinct_names(self.image_sets@)
        &&& forall|i: int| 0 <= i < self.image_sets.len() ==> (#[trigger] self.image_sets[i]).1.keyed()
        &&& distinct_names(self.widgets@)
    }

    /// Whether the three lists of the definition are tables.
    pub fn is_keyed(&self) -> (yes: bool)
        ensures
            yes == self.keyed(),
    {
        if !has_distinct_names(&self.fonts) || !has_distinct_names(&self.image_sets)
            || !has_distinct_names(&self.widgets) {
            return false;
        }
        let mut i: usize = 0;
        while i < self.image_sets.len()
            invariant
                i <= self.image_sets.len(),
                distinct_names(self.fonts@),
                distinct_names(self.image_sets@),
                distinct_names(self.widgets@),
                forall|k: int| 0 <= k < i ==> (#[trigger] self.image_sets[k]).1.keyed(),
            decreases self.image_sets.len() - i,
        {
            if !self.image_sets[i].1.is_keyed() {
                return false;
            }
            i += 1;
        }
        true
    }
}

} // verus!

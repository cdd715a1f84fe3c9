//! The resolved style record of one widget, and the handles by which
//! records, fonts and images are addressed.

use vstd::prelude::*;
use crate::color::Color;
use crate::definition::{Align, Border, HeightRelative, Layout, Point, WidthRelative};
use crate::text::text_view;

verus! {

/// The place of a widget theme in the arena of a theme.
#[derive(Copy, Clone, Debug, PartialEq, Eq, Hash, Structural)]
pub struct WidgetThemeHandle {
    pub id: u64,
}

/// The place of a font among the fonts of the renderer.
#[derive(Copy, Clone, Debug, PartialEq, Eq, Hash, Structural)]
pub struct FontHandle {
    pub id: usize,
}

/// A registered font: its handle and its line height, the height held as
/// the bit pattern of a single-precision float.
#[derive(Copy, Clone, Debug, PartialEq, Eq, Hash, Structural)]
pub struct FontSummary {
    pub handle: FontHandle,
    pub line_height: u32,
}

/// The place of an image among the images of the renderer.
#[derive(Copy, Clone, Debug, PartialEq, Eq, Hash, Structural)]
pub struct ImageHandle {
    pub id: usize,
}

/// The resolved style of one widget path. A field that is `None` was set
/// neither by the author nor by inheritance.
#[derive(Debug, PartialEq, Eq)]
pub struct WidgetTheme {
    /// The widget that this one still has to inherit from
    pub from: Option<String>,
    /// The path from a top-level widget to this one, joined by `/`
    pub full_id: String,
    /// The local id, the last part of `full_id`
    pub id: String,
    pub parent_handle: Option<WidgetThemeHandle>,
    pub handle: WidgetThemeHandle,
    pub text: Option<String>,
    pub text_color: Option<Color>,
    pub font: Option<FontSummary>,
    pub background: Option<ImageHandle>,
    pub foreground: Option<ImageHandle>,
    pub wants_mouse: Option<bool>,
    pub wants_scroll: Option<bool>,
    pub text_align: Option<Align>,
    pub pos: Option<Point>,
    pub size: Option<Point>,
    pub width_from: Option<WidthRelative>,
    pub height_from: Option<HeightRelative>,
    pub border: Option<Border>,
    pub align: Option<Align>,
    pub child_align: Option<Align>,
    pub layout: Option<Layout>,
    pub layout_spacing: Option<Point>,
    /// The children, in the order in which they are laid out
    pub children: Vec<WidgetThemeHandle>,
}

/// A [`WidgetTheme`] with its strings as sequences of characters and its
/// handles as indices.
pub struct WidgetThemeView {
    pub from: Option<Seq<char>>,
    pub full_id: Seq<char>,
    pub id: Seq<char>,
    pub parent_handle: Option<int>,
    pub handle: int,
    pub text: Option<Seq<char>>,
    pub text_color: Option<Color>,
    pub font: Option<FontSummary>,
    pub background: Option<ImageHandle>,
    pub foreground: Option<ImageHandle>,
    pub wants_mouse: Option<bool>,
    pub wants_scroll: Option<bool>,
    pub text_align: Option<Align>,
    pub pos: Option<Point>,
    pub size: Option<Point>,
    pub width_from: Option<WidthRelative>,
    pub height_from: Option<HeightRelative>,
    pub border: Option<Border>,
    pub align: Option<Align>,
    pub child_align: Option<Align>,
    pub layout: Option<Layout>,
    pub layout_spacing: Option<Point>,
    pub children: Seq<int>,
}

impl View for WidgetTheme {
    type V = WidgetThemeView;

    open spec fn view(&self) -> WidgetThemeView {
        WidgetThemeView {
            from: text_view(self.from),
            full_id: self.full_id@,
            id: self.id@,
            parent_handle: match self.parent_handle {
                Some(h) => Some(h.id as int),
                None => None,
            },
            handle: self.handle.id as int,
            text: text_view(self.text),
            text_color: self.text_color,
            font: self.font,
            background: self.background,
            foreground: self.foreground,
            wants_mouse: self.wants_mouse,
            wants_scroll: self.wants_scroll,
            text_align: self.text_align,
            pos: self.pos,
            size: self.size,
            width_from: self.width_from,
            height_from: self.height_from,
            border: self.border,
            align: self.align,
            child_align: self.child_align,
            layout: self.layout,
            layout_spacing: self.layout_spacing,
            children: indices(self.children@),
        }
    }
}

/// The indices that a list of handles stands for.
pub open spec fn indices(handles: Seq<WidgetThemeHandle>) -> Seq<int> {
    Seq::new(handles.len(), |i: int| handles[i].id as int)
}

/// The first of two optional values that is set.
pub open spec fn or_else<T>(first: Option<T>, second: Option<T>) -> Option<T> {
    match first {
        Some(_) => first,
        None => second,
    }
}

/// The record `dest` after it has inherited from `source`: every field that
/// `dest` has set stays, every other field is taken from `source`, and so is
/// a pending `from` where `dest` has none. What places the record in the
/// arena (ids, handles, children) stays as it is.
pub open spec fn inherited(dest: WidgetThemeView, source: WidgetThemeView) -> WidgetThemeView {
    WidgetThemeView {
        from: or_else(dest.from, source.from),
        text: or_else(dest.text, source.text),
        text_color: or_else(dest.text_color, source.text_color),
        font: or_else(dest.font, source.font),
        background: or_else(dest.background, source.background),
        foreground: or_else(dest.foreground, source.foreground),
        wants_mouse: or_else(dest.wants_mouse, source.wants_mouse),
        wants_scroll: or_else(dest.wants_scroll, source.wants_scroll),
        text_align: or_else(dest.text_align, source.text_align),
        pos: or_else(dest.pos, source.pos),
        size: or_else(dest.size, source.size),
        width_from: or_else(dest.width_from, source.width_from),
        height_from: or_else(dest.height_from, source.height_from),
        border: or_else(dest.border, source.border),
        align: or_else(dest.align, source.align),
        child_align: or_else(dest.child_align, source.child_align),
        layout: or_else(dest.layout, source.layout),
        layout_spacing: or_else(dest.layout_spacing, source.layout_spacing),
        ..dest
    }
}

/// A copy of an optional string.
pub fn copy_text(text: &Option<String>) -> (copy: Option<String>)
    ensures
        text_view(copy) == text_view(*text),
{
    match text {
        Some(s) => Some(s.clone()),
        None => None,
    }
}

/// The first of two optional values that is set.
pub fn first_set<T: Copy>(first: Option<T>, second: Option<T>) -> (value: Option<T>)
    ensures
        value == or_else(first, second),
{
    match first {
        Some(_) => first,
        None => second,
    }
}

/// Fills an optional string that is not set with a copy of `source`.
pub fn fill_text(slot: &mut Option<String>, source: &Option<String>)
    ensures
        text_view(*final(slot)) == or_else(
            text_view(*old(slot)),
            text_view(*source),
        ),
{
    if slot.is_none() {
        *slot = copy_text(source);
    }
}

/// A copy of a list of handles.
pub fn copy_handles(handles: &Vec<WidgetThemeHandle>) -> (copy: Vec<WidgetThemeHandle>)
    ensures
        copy@ == handles@,
{
    let mut copy: Vec<WidgetThemeHandle> = Vec::new();
    let mut i: usize = 0;
    while i < handles.len()
        invariant
            i <= handles.len(),
            copy@ == handles@.take(i as int),
        decreases handles.len() - i,
    {
        copy.push(handles[i]);
        assert(copy@ =~= handles@.take(i + 1));
        i += 1;
    }
    assert(handles@.take(handles.len() as int) =~= handles@);
    copy
}

impl WidgetTheme {
    /// A copy of the record, equal to it in every field.
    pub fn duplicate(&self) -> (copy: WidgetTheme)
        ensures
            copy@ == self@,
    {
        let copy = WidgetTheme {
            from: copy_text(&self.from),
            full_id: self.full_id.clone(),
            id: self.id.clone(),
            parent_handle: self.parent_handle,
            handle: self.handle,
            text: copy_text(&self.text),
            text_color: self.text_color,
            font: self.font,
            background: self.background,
            foreground: self.foreground,
            wants_mouse: self.wants_mouse,
            wants_scroll: self.wants_scroll,
            text_align: self.text_align,
            pos: self.pos,
            size: self.size,
            width_from: self.width_from,
            height_from: self.height_from,
            border: self.border,
            align: self.align,
            child_align: self.child_align,
            layout: self.layout,
            layout_spacing: self.layout_spacing,
            children: copy_handles(&self.children),
        };
        assert(copy@.children =~= self@.children);
        copy
    }

    /// Takes from `source` every style field that this record has not set,
    /// and its pending `from` where this record has none.
    pub fn inherit(&mut self, source: &WidgetTheme)
        ensures
            final(self)@ == inherited(old(self)@, source@),
    {
        fill_text(&mut self.from, &source.from);
        fill_text(&mut self.text, &source.text);
        self.text_color = first_set(self.text_color, source.text_color);
        self.font = first_set(self.font, source.font);
        self.background = first_set(self.background, source.background);
        self.foreground = first_set(self.foreground, source.foreground);
        self.wants_mouse = first_set(self.wants_mouse, source.wants_mouse);
        self.wants_scroll = first_set(self.wants_scroll, source.wants_scroll);
        self.text_align = first_set(self.text_align, source.text_align);
        self.pos = first_set(self.pos, source.pos);
        self.size = first_set(self.size, source.size);
        self.width_from = first_set(self.width_from, source.width_from);
        self.height_from = first_set(self.height_from, source.height_from);
        self.border = first_set(self.border, source.border);
        self.align = first_set(self.align, source.align);
        self.child_align = first_set(self.child_align, source.child_align);
        self.layout = first_set(self.layout, source.layout);
        self.layout_spacing = first_set(self.layout_spacing, source.layout_spacing);
    }
}

} // verus!

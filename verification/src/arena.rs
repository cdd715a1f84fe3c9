//! The arena of widget themes: a flat list of records addressed by handle,
//! with the index from fully-qualified id to handle.

use vstd::prelude::*;
use vstd::hash_map::StringHashMap;
use crate::resources::lookup;
use crate::sound::sound;
use crate::text::{join_path, path_of};
use crate::widget_theme::{inherited, WidgetTheme, WidgetThemeHandle, WidgetThemeView};

verus! {

/// The records of an arena and its index from fully-qualified id to handle.
pub struct ArenaView {
    pub themes: Seq<WidgetThemeView>,
    pub handles: Map<Seq<char>, int>,
}

impl ArenaView {
    /// Every record stands at its own handle, every child stands behind its
    /// parent, and every handle, of a child or of the index, is the handle
    /// of a record.
    pub open spec fn linked(self) -> bool {
        &&& forall|h: int| 0 <= h < self.themes.len() ==> (#[trigger] self.themes[h]).handle == h
        &&& forall|h: int, i: int|
            0 <= h < self.themes.len() && 0 <= i < self.themes[h].children.len() ==> h
                < #[trigger] self.themes[h].children[i] < self.themes.len()
        &&& forall|k: Seq<char>|
            self.handles.contains_key(k) ==> 0 <= #[trigger] self.handles[k] < self.themes.len()
    }

    /// The arena without records.
    pub open spec fn empty() -> ArenaView {
        ArenaView { themes: Seq::empty(), handles: Map::empty() }
    }

    /// The arena with one more record at its end.
    pub open spec fn with_record(self, record: WidgetThemeView) -> ArenaView {
        ArenaView { themes: self.themes.push(record), ..self }
    }

    /// The arena with `child` as one more child of the record at `parent`.
    pub open spec fn with_child(self, parent: int, child: int) -> ArenaView {
        ArenaView {
            themes: self.themes.update(
                parent,
                WidgetThemeView {
                    children: self.themes[parent].children.push(child),
                    ..self.themes[parent]
                },
            ),
            ..self
        }
    }

    /// The arena after the record at `to` has inherited from `source`.
    pub open spec fn with_inherited(self, to: int, source: WidgetThemeView) -> ArenaView {
        ArenaView {
            themes: self.themes.update(to, inherited(self.themes[to], source)),
            ..self
        }
    }

    /// The arena with no `from` pending in the record at `to`.
    pub open spec fn with_from_cleared(self, to: int) -> ArenaView {
        ArenaView {
            themes: self.themes.update(to, WidgetThemeView { from: None, ..self.themes[to] }),
            ..self
        }
    }

    /// The fully-qualified id of a widget with the local id `id` below the
    /// record at `parent`, or at the top level.
    pub open spec fn path(self, parent: Option<int>, id: Seq<char>) -> Seq<char> {
        match parent {
            Some(p) => join_path(self.themes[p].full_id, id),
            None => id,
        }
    }

    /// The arena with `record` at its end, made the last child of its
    /// parent, if it has one, and indexed by its fully-qualified id.
    pub open spec fn placed(self, record: WidgetThemeView) -> ArenaView {
        let below = match record.parent_handle {
            Some(p) => self.with_child(p, record.handle),
            None => self,
        };
        below.with_record(record).with_path(record.full_id, record.handle)
    }

    /// The arena with `full_id` indexed to the record at `handle`.
    pub open spec fn with_path(self, full_id: Seq<char>, handle: int) -> ArenaView {
        ArenaView { handles: self.handles.insert(full_id, handle), ..self }
    }
}

/// The index that an optional handle stands for.
pub open spec fn handle_view(handle: Option<WidgetThemeHandle>) -> Option<int> {
    match handle {
        Some(h) => Some(h.id as int),
        None => None,
    }
}

/// The arena of widget themes while a theme is built: the records, and the
/// index from fully-qualified id to handle.
pub struct Arena {
    themes: Vec<WidgetTheme>,
    handles: StringHashMap<WidgetThemeHandle>,
}

impl View for Arena {
    type V = ArenaView;

    closed spec fn view(&self) -> ArenaView {
        ArenaView {
            themes: Seq::new(self.themes.len() as nat, |i: int| self.themes[i]@),
            handles: Map::new(
                |k: Seq<char>| self.handles@.contains_key(k),
                |k: Seq<char>| self.handles@[k].id as int,
            ),
        }
    }
}

impl Arena {
    /// An arena without records.
    pub fn new() -> (arena: Arena)
        ensures
            arena@ == ArenaView::empty(),
            arena@.linked(),
            sound(arena@),
    {
        let arena = Arena { themes: Vec::new(), handles: StringHashMap::new() };
        assert(arena@.themes =~= Seq::<WidgetThemeView>::empty());
        assert(arena@.handles =~= Map::<Seq<char>, int>::empty());
        arena
    }

    /// The number of records.
    pub fn len(&self) -> (n: usize)
        ensures
            n == self@.themes.len(),
    {
        self.themes.len()
    }

    /// The record at `handle`.
    pub fn get(&self, handle: WidgetThemeHandle) -> (theme: &WidgetTheme)
        requires
            handle.id < self@.themes.len(),
        ensures
            theme@ == self@.themes[handle.id as int],
    {
        &self.themes[handle.id as usize]
    }

    /// The handle of the record with the fully-qualified id `id`.
    pub fn handle(&self, id: &str) -> (handle: Option<WidgetThemeHandle>)
        ensures
            handle_view(handle) == lookup(self@.handles, id@),
    {
        match self.handles.get(id) {
            Some(handle) => Some(*handle),
            None => None,
        }
    }

    /// Puts `record` at the end of the arena.
    pub(crate) fn push(&mut self, record: WidgetTheme)
        ensures
            final(self)@ == old(self)@.with_record(record@),
    {
        self.themes.push(record);
        assert(self@.themes =~= old(self)@.themes.push(record@));
        assert(self@.handles =~= old(self)@.handles);
    }

    /// Makes `child` one more child of the record at `parent`.
    pub(crate) fn push_child(&mut self, parent: WidgetThemeHandle, child: WidgetThemeHandle)
        requires
            parent.id < old(self)@.themes.len(),
        ensures
            final(self)@ == old(self)@.with_child(parent.id as int, child.id as int),
    {
        let ghost before = self.themes[parent.id as int]@;
        self.themes[parent.id as usize].children.push(child);
        assert(self.themes[parent.id as int]@.children =~= before.children.push(child.id as int));
        assert(self@.themes =~= old(self)@.with_child(parent.id as int, child.id as int).themes);
        assert(self@.handles =~= old(self)@.handles);
    }

    /// Puts `record` at the end of the arena, makes it the last child of its
    /// parent, if it has one, and indexes it by its fully-qualified id.
    pub(crate) fn place(&mut self, record: WidgetTheme)
        requires
            record@.handle == old(self)@.themes.len(),
            record@.parent_handle matches Some(p) ==> 0 <= p < old(self)@.themes.len(),
        ensures
            final(self)@ == old(self)@.placed(record@),
    {
        let full_id = record.full_id.clone();
        let handle = record.handle;
        match record.parent_handle {
            Some(parent) => {
                self.push_child(parent, handle);
            },
            None => {},
        }
        self.push(record);
        self.index(full_id, handle);
    }

    /// The fully-qualified id of a widget with the local id `id` below the
    /// record at `parent`, or at the top level.
    pub fn path(&self, parent: Option<WidgetThemeHandle>, id: &str) -> (path: String)
        requires
            parent matches Some(p) ==> p.id < self@.themes.len(),
        ensures
            path@ == self@.path(handle_view(parent), id@),
    {
        match parent {
            Some(p) => path_of(self.get(p).full_id.as_str(), id),
            None => String::from_str(id),
        }
    }

    /// Lets the record at `to` inherit from the record `source`.
    pub(crate) fn inherit(&mut self, to: WidgetThemeHandle, source: &WidgetTheme)
        requires
            to.id < old(self)@.themes.len(),
        ensures
            final(self)@ == old(self)@.with_inherited(to.id as int, source@),
    {
        self.themes[to.id as usize].inherit(source);
        assert(self@.themes =~= old(self)@.with_inherited(to.id as int, source@).themes);
        assert(self@.handles =~= old(self)@.handles);
    }

    /// Takes the pending `from` out of the record at `to`.
    pub(crate) fn clear_from(&mut self, to: WidgetThemeHandle)
        requires
            to.id < old(self)@.themes.len(),
        ensures
            final(self)@ == old(self)@.with_from_cleared(to.id as int),
    {
        self.themes[to.id as usize].from = None;
        assert(self@.themes =~= old(self)@.with_from_cleared(to.id as int).themes);
        assert(self@.handles =~= old(self)@.handles);
    }

    /// Indexes `full_id` to `handle`.
    pub(crate) fn index(&mut self, full_id: String, handle: WidgetThemeHandle)
        ensures
            final(self)@ == old(self)@.with_path(full_id@, handle.id as int),
    {
        self.handles.insert(full_id, handle);
        assert(self@.themes =~= old(self)@.themes);
        assert(self@.handles =~= old(self)@.handles.insert(full_id@, handle.id as int));
    }
}

/// An arena stays linked when a record is put at its end, made the last
/// child of its parent and indexed.
pub proof fn placing_keeps_links(a: ArenaView, record: WidgetThemeView)
    requires
        a.linked(),
        record.handle == a.themes.len(),
        record.children.len() == 0,
        record.parent_handle matches Some(p) ==> 0 <= p < a.themes.len(),
    ensures
        a.placed(record).linked(),
{
    let placed = a.placed(record);
    assert forall|h: int| 0 <= h < placed.themes.len() implies (#[trigger] placed.themes[h]).handle
        == h by {
        if h < a.themes.len() {
            assert(a.themes[h].handle == h);
        }
    }
    assert forall|h: int, i: int|
        0 <= h < placed.themes.len() && 0 <= i < placed.themes[h].children.len() implies h
        < #[trigger] placed.themes[h].children[i] < placed.themes.len() by {
        if h < a.themes.len() {
            if record.parent_handle == Some(h) && i == a.themes[h].children.len() {
            } else {
                assert(h < a.themes[h].children[i] < a.themes.len());
            }
        }
    }
    assert forall|k: Seq<char>| placed.handles.contains_key(k) implies 0
        <= #[trigger] placed.handles[k] < placed.themes.len() by {
        if a.handles.contains_key(k) {
            assert(0 <= a.handles[k] < a.themes.len());
        }
    }
}

/// A record that inherits keeps its place in the arena.
pub proof fn inheriting_keeps_links(a: ArenaView, to: int, source: WidgetThemeView)
    requires
        a.linked(),
        0 <= to < a.themes.len(),
    ensures
        a.with_inherited(to, source).linked(),
{
    let b = a.with_inherited(to, source);
    assert forall|h: int| 0 <= h < b.themes.len() implies (#[trigger] b.themes[h]).handle == h by {
        assert(a.themes[h].handle == h);
    }
    assert forall|h: int, i: int|
        0 <= h < b.themes.len() && 0 <= i < b.themes[h].children.len() implies h
        < #[trigger] b.themes[h].children[i] < b.themes.len() by {
        assert(h < a.themes[h].children[i] < a.themes.len());
    }
}

/// A record whose pending reference is cleared keeps its place in the arena.
pub proof fn clearing_keeps_links(a: ArenaView, to: int)
    requires
        a.linked(),
        0 <= to < a.themes.len(),
    ensures
        a.with_from_cleared(to).linked(),
{
    let b = a.with_from_cleared(to);
    assert forall|h: int| 0 <= h < b.themes.len() implies (#[trigger] b.themes[h]).handle == h by {
        assert(a.themes[h].handle == h);
    }
    assert forall|h: int, i: int|
        0 <= h < b.themes.len() && 0 <= i < b.themes[h].children.len() implies h
        < #[trigger] b.themes[h].children[i] < b.themes.len() by {
        assert(h < a.themes[h].children[i] < a.themes.len());
    }
}

} // verus!

//! Inheritance between widget themes: the deep merge of a source subtree
//! into a destination record of the arena, and the deep copy of source
//! children that the destination lacks.

use vstd::prelude::*;
use crate::arena::{inheriting_keeps_links, placing_keeps_links, Arena, ArenaView};
use crate::frames::has_child;
use crate::sound::{grafting_keeps_sound, merging_keeps_sound, sound, subtree_is_tidy, tidy};
use crate::widget_theme::{copy_handles, indices, WidgetTheme, WidgetThemeHandle, WidgetThemeView};

verus! {

/// A record with the subtrees of its children: a widget theme taken out of
/// the arena together with everything below it.
#[derive(Debug, PartialEq, Eq)]
pub struct Subtree {
    pub theme: WidgetTheme,
    pub children: Vec<Subtree>,
}

/// The view of a [`Subtree`].
pub struct SubtreeView {
    pub theme: WidgetThemeView,
    pub children: Seq<SubtreeView>,
}

/// The view of a subtree and, through its children, of all below it.
pub open spec fn subtree_view(tree: Subtree) -> SubtreeView
    decreases tree,
{
    SubtreeView {
        theme: tree.theme@,
        children: Seq::new(
            tree.children.len() as nat,
            |i: int|
                if 0 <= i < tree.children.len() {
                    subtree_view(tree.children[i])
                } else {
                    arbitrary()
                },
        ),
    }
}

impl View for Subtree {
    type V = SubtreeView;

    open spec fn view(&self) -> SubtreeView {
        subtree_view(*self)
    }
}

/// The subtree of the arena `themes` that is rooted at `handle`: the record
/// there, and the subtrees rooted at its children, in their order.
pub open spec fn subtree_of(themes: Seq<WidgetThemeView>, handle: int) -> SubtreeView
    decreases themes.len() - handle,
{
    SubtreeView {
        theme: themes[handle],
        children: Seq::new(
            themes[handle].children.len(),
            |i: int|
                {
                    let child = themes[handle].children[i];
                    if handle < child < themes.len() {
                        subtree_of(themes, child)
                    } else {
                        arbitrary()
                    }
                },
        ),
    }
}

/// The copy of the root of `src` that is placed below the record at `to`:
/// the source record with a handle, a parent and a path of its own, and
/// no children yet.
pub open spec fn copy_below(a: ArenaView, src: WidgetThemeView, to: int) -> WidgetThemeView {
    WidgetThemeView {
        full_id: a.path(Some(to), src.id),
        handle: a.themes.len() as int,
        parent_handle: Some(to),
        children: Seq::empty(),
        ..src
    }
}

/// The arena after the subtree `src` has been copied below the record at
/// `to`: the copy of the root gets the next free handle and becomes the last
/// child of `to`, then the subtrees of the source's children are copied
/// below it, one after the other.
pub open spec fn grafted(a: ArenaView, src: SubtreeView, to: int) -> ArenaView
    decreases src, 1nat, 0nat,
{
    let handle = a.themes.len() as int;
    grafted_children(a.placed(copy_below(a, src.theme, to)), src, handle, src.children.len())
}

/// The arena after the subtrees of the first `n` children of `src` have been
/// copied below the record at `to`.
pub open spec fn grafted_children(a: ArenaView, src: SubtreeView, to: int, n: nat) -> ArenaView
    decreases src, 0nat, n,
{
    if n == 0 || n > src.children.len() {
        a
    } else {
        grafted(grafted_children(a, src, to, (n - 1) as nat), src.children[n - 1], to)
    }
}

/// `j` is the first of `children` whose root has the local id `id`.
pub open spec fn is_first_named(children: Seq<SubtreeView>, id: Seq<char>, j: int) -> bool {
    &&& 0 <= j < children.len()
    &&& children[j].theme.id == id
    &&& forall|k: int| 0 <= k < j ==> children[k].theme.id != id
}

/// The first of `children` whose root has the local id `id`.
pub open spec fn first_named(children: Seq<SubtreeView>, id: Seq<char>) -> Option<int> {
    if exists|j: int| is_first_named(children, id, j) {
        Some(choose|j: int| is_first_named(children, id, j))
    } else {
        None
    }
}

/// One of the records at the handles `kids` has the local id `id`.
pub open spec fn any_named(themes: Seq<WidgetThemeView>, kids: Seq<int>, id: Seq<char>) -> bool {
    exists|i: int| 0 <= i < kids.len() && (#[trigger] themes[kids[i]]).id == id
}

/// The arena after the record at `to` has inherited from the subtree `src`.
/// The record takes the fields it has not set from the root of `src`. Each
/// child that it had inherits in the same way from the first child of `src`
/// with the same local id, if there is one. Each child of `src` whose local
/// id none of those children has is copied below `to` with its subtree.
pub open spec fn merged(a: ArenaView, src: SubtreeView, to: int) -> ArenaView
    decreases src, 1nat, 0nat,
{
    let kids = a.themes[to].children;
    let start = a.with_inherited(to, src.theme);
    let met = merged_children(start, src, kids, kids.len());
    grafted_missing(met, src, kids, to, src.children.len())
}

/// The arena after the first `n` of the records at `kids` have inherited
/// from the children of `src` that have their local ids.
pub open spec fn merged_children(a: ArenaView, src: SubtreeView, kids: Seq<int>, n: nat) -> ArenaView
    decreases src, 0nat, n,
{
    if n == 0 || n > kids.len() {
        a
    } else {
        let before = merged_children(a, src, kids, (n - 1) as nat);
        match first_named(src.children, before.themes[kids[n - 1]].id) {
            Some(j) => if 0 <= j < src.children.len() {
                merged(before, src.children[j], kids[n - 1])
            } else {
                before
            },
            None => before,
        }
    }
}

/// The arena after those of the first `n` children of `src` whose local id
/// none of the records at `kids` has have been copied below `to`.
pub open spec fn grafted_missing(a: ArenaView, src: SubtreeView, kids: Seq<int>, to: int, n: nat) -> ArenaView
    decreases src, 0nat, n,
{
    if n == 0 || n > src.children.len() {
        a
    } else {
        let before = grafted_missing(a, src, kids, to, (n - 1) as nat);
        if any_named(before.themes, kids, src.children[n - 1].theme.id) {
            before
        } else {
            grafted(before, src.children[n - 1], to)
        }
    }
}

impl Arena {
    /// Takes a copy of the record at `handle` and of all below it.
    pub fn subtree(&self, handle: WidgetThemeHandle) -> (tree: Subtree)
        requires
            self@.linked(),
            handle.id < self@.themes.len(),
        ensures
            tree@ == subtree_of(self@.themes, handle.id as int),
        decreases self@.themes.len() - handle.id,
    {
        let theme = self.get(handle).duplicate();
        let mut children: Vec<Subtree> = Vec::new();
        let mut i: usize = 0;
        while i < theme.children.len()
            invariant
                i <= theme.children.len(),
                self@.linked(),
                handle.id < self@.themes.len(),
                theme@ == self@.themes[handle.id as int],
                children.len() == i,
                forall|j: int|
                    0 <= j < i ==> (#[trigger] children[j])@ == subtree_of(
                        self@.themes,
                        self@.themes[handle.id as int].children[j],
                    ),
            decreases theme.children.len() - i,
        {
            assert(theme@.children[i as int] == theme.children[i as int].id);
            let child = self.subtree(theme.children[i]);
            children.push(child);
            i += 1;
        }
        let tree = Subtree { theme, children };
        assert(tree@.children =~= subtree_of(self@.themes, handle.id as int).children);
        tree
    }
}

/// Copies the subtree `from` below the record at `to_id`: the root of the
/// copy becomes the last child of `to_id`, and every record of the copy gets
/// a handle and a fully-qualified id of its own.
pub fn add_children_recursive(from: &Subtree, to_id: WidgetThemeHandle, arena: &mut Arena)
    requires
        old(arena)@.linked(),
        to_id.id < old(arena)@.themes.len(),
    ensures
        final(arena)@ == grafted(old(arena)@, from@, to_id.id as int),
        final(arena)@.linked(),
        final(arena)@.themes.len() > old(arena)@.themes.len(),
        sound(old(arena)@) && tidy(from@) && !has_child(
            old(arena)@.themes,
            to_id.id as int,
            from@.theme.id,
        ) ==> sound(final(arena)@),
    decreases from,
{
    proof {
        if sound(old(arena)@) && tidy(from@) && !has_child(
            old(arena)@.themes,
            to_id.id as int,
            from@.theme.id,
        ) {
            grafting_keeps_sound(old(arena)@, from@, to_id.id as int);
        }
    }
    let handle = WidgetThemeHandle { id: arena.len() as u64 };
    let mut record = from.theme.duplicate();
    record.full_id = arena.path(Some(to_id), from.theme.id.as_str());
    record.handle = handle;
    record.parent_handle = Some(to_id);
    record.children = Vec::new();
    proof {
        assert(record@.children =~= Seq::<int>::empty());
        assert(record@ == copy_below(old(arena)@, from@.theme, to_id.id as int));
        placing_keeps_links(old(arena)@, record@);
    }
    arena.place(record);
    let ghost placed = arena@;
    let mut i: usize = 0;
    while i < from.children.len()
        invariant
            i <= from.children.len(),
            from@.children.len() == from.children.len(),
            forall|j: int| 0 <= j < from.children.len() ==> from@.children[j] == from.children[j]@,
            arena@.linked(),
            handle.id < arena@.themes.len(),
            arena@.themes.len() > old(arena)@.themes.len(),
            arena@ == grafted_children(placed, from@, handle.id as int, i as nat),
        decreases from.children.len() - i,
    {
        add_children_recursive(&from.children[i], handle, arena);
        i += 1;
    }
}

/// Finds the first of `children` whose root has the local id `id`.
fn find_child(children: &Vec<Subtree>, id: &String) -> (found: Option<usize>)
    ensures
        match found {
            Some(j) => j < children.len() && first_named(
                Seq::new(children.len() as nat, |i: int| children[i]@),
                id@,
            ) == Some(j as int),
            None => first_named(Seq::new(children.len() as nat, |i: int| children[i]@), id@)
                is None,
        },
{
    let ghost views = Seq::new(children.len() as nat, |i: int| children[i]@);
    let mut j: usize = 0;
    while j < children.len()
        invariant
            j <= children.len(),
            views == Seq::new(children.len() as nat, |i: int| children[i]@),
            forall|k: int| 0 <= k < j ==> views[k].theme.id != id@,
        decreases children.len() - j,
    {
        if children[j].theme.id == *id {
            assert(is_first_named(views, id@, j as int));
            return Some(j);
        }
        j += 1;
    }
    None
}

/// Whether one of the records at `kids` has the local id `id`.
fn any_child_named(arena: &Arena, kids: &Vec<WidgetThemeHandle>, id: &String) -> (found: bool)
    requires
        forall|i: int| 0 <= i < kids.len() ==> kids[i].id < arena@.themes.len(),
    ensures
        found == any_named(arena@.themes, indices(kids@), id@),
{
    let mut i: usize = 0;
    while i < kids.len()
        invariant
            i <= kids.len(),
            forall|k: int| 0 <= k < kids.len() ==> kids[k].id < arena@.themes.len(),
            forall|k: int| 0 <= k < i ==> (#[trigger] arena@.themes[indices(kids@)[k]]).id != id@,
        decreases kids.len() - i,
    {
        if arena.get(kids[i]).id == *id {
            assert(arena@.themes[indices(kids@)[i as int]].id == id@);
            return true;
        }
        i += 1;
    }
    false
}

/// Lets the record at `to_id`, and the records below it, inherit from the
/// subtree `from`.
pub fn merge_subtree(from: &Subtree, to_id: WidgetThemeHandle, arena: &mut Arena)
    requires
        old(arena)@.linked(),
        to_id.id < old(arena)@.themes.len(),
    ensures
        final(arena)@ == merged(old(arena)@, from@, to_id.id as int),
        final(arena)@.linked(),
        final(arena)@.themes.len() >= old(arena)@.themes.len(),
        sound(old(arena)@) && tidy(from@) ==> sound(final(arena)@),
    decreases from,
{
    proof {
        if sound(old(arena)@) && tidy(from@) {
            merging_keeps_sound(old(arena)@, from@, to_id.id as int);
        }
    }
    let to_children = copy_handles(&arena.get(to_id).children);
    let ghost kids = old(arena)@.themes[to_id.id as int].children;
    assert(kids =~= indices(to_children@));
    assert forall|i: int| 0 <= i < to_children.len() implies to_children[i].id < arena@.themes.len() by {
        assert(kids[i] == to_children[i].id);
        assert(to_id.id < old(arena)@.themes[to_id.id as int].children[i] < arena@.themes.len());
    }
    arena.inherit(to_id, &from.theme);
    let ghost start = arena@;
    proof {
        inheriting_keeps_links(old(arena)@, to_id.id as int, from.theme@);
    }
    let mut i: usize = 0;
    while i < to_children.len()
        invariant
            i <= to_children.len(),
            kids == indices(to_children@),
            from@.children.len() == from.children.len(),
            from@.children == Seq::new(from.children.len() as nat, |j: int| from.children[j]@),
            arena@.linked(),
            arena@.themes.len() >= old(arena)@.themes.len(),
            forall|k: int| 0 <= k < to_children.len() ==> to_children[k].id < arena@.themes.len(),
            arena@ == merged_children(start, from@, kids, i as nat),
        decreases to_children.len() - i,
    {
        let child_id = to_children[i];
        assert(kids[i as int] == child_id.id);
        match find_child(&from.children, &arena.get(child_id).id) {
            Some(j) => {
                merge_subtree(&from.children[j], child_id, arena);
            },
            None => {},
        }
        i += 1;
    }
    let ghost met = arena@;
    let mut n: usize = 0;
    while n < from.children.len()
        invariant
            n <= from.children.len(),
            kids == indices(to_children@),
            from@.children.len() == from.children.len(),
            from@.children == Seq::new(from.children.len() as nat, |j: int| from.children[j]@),
            arena@.linked(),
            to_id.id < arena@.themes.len(),
            arena@.themes.len() >= old(arena)@.themes.len(),
            forall|k: int| 0 <= k < to_children.len() ==> to_children[k].id < arena@.themes.len(),
            arena@ == grafted_missing(met, from@, kids, to_id.id as int, n as nat),
        decreases from.children.len() - n,
    {
        if !any_child_named(arena, &to_children, &from.children[n].theme.id) {
            add_children_recursive(&from.children[n], to_id, arena);
        }
        n += 1;
    }
}

/// Lets the record at `to_id`, and the records below it, inherit from the
/// record at `from_id` and the records below that, as they are when the
/// merge begins.
pub fn merge_from(from_id: WidgetThemeHandle, to_id: WidgetThemeHandle, arena: &mut Arena)
    requires
        old(arena)@.linked(),
        from_id.id < old(arena)@.themes.len(),
        to_id.id < old(arena)@.themes.len(),
    ensures
        final(arena)@ == merged(
            old(arena)@,
            subtree_of(old(arena)@.themes, from_id.id as int),
            to_id.id as int,
        ),
        final(arena)@.linked(),
        final(arena)@.themes.len() >= old(arena)@.themes.len(),
        sound(old(arena)@) ==> sound(final(arena)@),
{
    let from = arena.subtree(from_id);
    proof {
        if sound(old(arena)@) {
            subtree_is_tidy(old(arena)@, from_id.id as int);
        }
    }
    merge_subtree(&from, to_id, arena);
}

} // verus!

//! The shape that an arena of widget themes keeps while records are added,
//! inherit and are copied: ids without separators, paths made of the ids
//! from a top-level widget down, children that know their parent, and an
//! index that knows every record by its path and no other path.

use vstd::prelude::*;
use crate::arena::{
    clearing_keeps_links,
    inheriting_keeps_links,
    placing_keeps_links,
    ArenaView,
};
use crate::builder::{created, created_all, created_children, first_record};
use crate::resources::{bindings, ResourcesView};
use crate::definition::WidgetThemeDefinitionView;
use crate::frames::{
    copies_of_missing,
    grafting_children,
    grafting_missing,
    has_child,
    merging,
    merging_children,
    same_content,
    same_fields,
    same_place,
};
use crate::inherit::{
    any_named,
    copy_below,
    first_named,
    grafted,
    grafted_children,
    grafted_missing,
    merged,
    merged_children,
    subtree_of,
    SubtreeView,
};
use crate::resolve::{has_pending, pass, resolved, resolved_at};
use crate::text::{join_path, separator};
use crate::widget_theme::WidgetThemeView;

verus! {

/// A local id: a sequence of characters without the path separator.
pub open spec fn clean(id: Seq<char>) -> bool {
    !id.contains(separator())
}

/// The record at `h` says truly where it stands: without a parent its path
/// is its local id; with one, its path is the parent's path, the separator
/// and its local id, and it is one of the children of that parent, which
/// stands before it.
pub open spec fn rooted(a: ArenaView, h: int) -> bool {
    let record = a.themes[h];
    match record.parent_handle {
        None => record.full_id == record.id,
        Some(p) => {
            &&& 0 <= p < h
            &&& record.full_id == join_path(a.themes[p].full_id, record.id)
            &&& a.themes[p].children.contains(h)
        },
    }
}

/// The arena is linked, every local id is clean, every record says truly
/// where it stands, no record is twice the child of its parent, and the
/// index holds the path of every record, and only those, each with the
/// handle of its record: so no two records have the same path.
pub open spec fn sound(a: ArenaView) -> bool {
    &&& a.linked()
    &&& forall|h: int| 0 <= h < a.themes.len() ==> clean((#[trigger] a.themes[h]).id)
    &&& forall|h: int| 0 <= h < a.themes.len() ==> #[trigger] rooted(a, h)
    &&& forall|h: int, i: int|
        0 <= h < a.themes.len() && 0 <= i < a.themes[h].children.len()
            ==> a.themes[#[trigger] a.themes[h].children[i]].parent_handle == Some(h)
    &&& forall|h: int, i: int, j: int|
        0 <= h < a.themes.len() && 0 <= i < j < a.themes[h].children.len()
            ==> #[trigger] a.themes[h].children[i] != #[trigger] a.themes[h].children[j]
    &&& forall|h: int|
        0 <= h < a.themes.len() ==> a.handles.contains_key((#[trigger] a.themes[h]).full_id)
            && a.handles[a.themes[h].full_id] == h
    &&& forall|k: Seq<char>|
        a.handles.contains_key(k) ==> a.themes[#[trigger] a.handles[k]].full_id == k
}

/// A path of a parent path and a clean local id has only one such parting.
pub proof fn path_parts(first: Seq<char>, id1: Seq<char>, second: Seq<char>, id2: Seq<char>)
    requires
        clean(id1),
        clean(id2),
        join_path(first, id1) == join_path(second, id2),
    ensures
        first == second,
        id1 == id2,
{
    let path = join_path(first, id1);
    let other = join_path(second, id2);
    assert(path.len() == first.len() + 1 + id1.len());
    assert(other.len() == second.len() + 1 + id2.len());
    if first.len() < second.len() {
        let at = second.len() as int;
        assert(other[at] == separator());
        assert(path[at] == id1[at - first.len() - 1]);
        assert(id1.contains(separator()));
    } else if second.len() < first.len() {
        let at = first.len() as int;
        assert(path[at] == separator());
        assert(other[at] == id2[at - second.len() - 1]);
        assert(id2.contains(separator()));
    } else {
        assert forall|i: int| 0 <= i < first.len() implies first[i] == second[i] by {
            assert(path[i] == first[i]);
            assert(other[i] == second[i]);
        }
        assert(first =~= second);
        assert forall|i: int| 0 <= i < id1.len() implies id1[i] == id2[i] by {
            assert(path[first.len() + 1 + i] == id1[i]);
            assert(other[second.len() + 1 + i] == id2[i]);
        }
        assert(id1 =~= id2);
    }
}

/// A path of a parent path and a local id is no clean local id.
pub proof fn joined_is_not_clean(parent: Seq<char>, id: Seq<char>)
    ensures
        !clean(join_path(parent, id)),
{
    assert(join_path(parent, id)[parent.len() as int] == separator());
}

/// In a sound arena no record has the path that a new child of the record
/// at `to` would have, if none of the children of that record has the new
/// child's local id.
pub proof fn fresh_path(a: ArenaView, to: int, id: Seq<char>)
    requires
        sound(a),
        0 <= to < a.themes.len(),
        clean(id),
        !has_child(a.themes, to, id),
    ensures
        !a.handles.contains_key(a.path(Some(to), id)),
{
    let path = a.path(Some(to), id);
    if a.handles.contains_key(path) {
        let h = a.handles[path];
        assert(0 <= h < a.themes.len());
        assert(a.themes[h].full_id == path);
        assert(rooted(a, h));
        assert(clean(a.themes[h].id));
        match a.themes[h].parent_handle {
            None => {
                joined_is_not_clean(a.themes[to].full_id, id);
            },
            Some(p) => {
                path_parts(a.themes[p].full_id, a.themes[h].id, a.themes[to].full_id, id);
                assert(a.handles[a.themes[p].full_id] == p);
                assert(a.handles[a.themes[to].full_id] == to);
                assert(p == to);
                let i = choose|i: int|
                    0 <= i < a.themes[to].children.len() && a.themes[to].children[i] == h;
                assert(a.themes[a.themes[to].children[i]].id == id);
            },
        }
    }
}

/// A sound arena stays sound when a record with a clean local id and a path
/// that is not indexed yet is placed in it.
pub proof fn placing_keeps_sound(a: ArenaView, record: WidgetThemeView)
    requires
        sound(a),
        record.handle == a.themes.len(),
        record.children.len() == 0,
        record.parent_handle matches Some(p) ==> 0 <= p < a.themes.len(),
        clean(record.id),
        record.full_id == a.path(record.parent_handle, record.id),
        !a.handles.contains_key(record.full_id),
    ensures
        sound(a.placed(record)),
{
    let b = a.placed(record);
    let n = a.themes.len() as int;
    placing_keeps_links(a, record);
    assert forall|h: int| 0 <= h < b.themes.len() implies clean((#[trigger] b.themes[h]).id) by {
        if h < n {
            assert(clean(a.themes[h].id));
        }
    }
    assert forall|h: int| 0 <= h < b.themes.len() implies #[trigger] rooted(b, h) by {
        if h < n {
            assert(rooted(a, h));
            match a.themes[h].parent_handle {
                None => {},
                Some(p) => {
                    let i = choose|i: int|
                        0 <= i < a.themes[p].children.len() && a.themes[p].children[i] == h;
                    assert(b.themes[p].children[i] == h);
                },
            }
        } else {
            match record.parent_handle {
                None => {},
                Some(p) => {
                    assert(b.themes[p].children[a.themes[p].children.len() as int] == n);
                },
            }
        }
    }
    assert forall|h: int, i: int|
        0 <= h < b.themes.len() && 0 <= i < b.themes[h].children.len() implies b.themes[
    #[trigger] b.themes[h].children[i]].parent_handle == Some(h) by {
        if h < n {
            if record.parent_handle == Some(h) && i == a.themes[h].children.len() {
            } else {
                assert(a.themes[a.themes[h].children[i]].parent_handle == Some(h));
                assert(h < a.themes[h].children[i] < n);
            }
        }
    }
    assert forall|h: int, i: int, j: int|
        0 <= h < b.themes.len() && 0 <= i < j < b.themes[h].children.len() implies #[trigger] b.themes[h].children[i]
        != #[trigger] b.themes[h].children[j] by {
        if h < n {
            assert(h < a.themes[h].children[i] < n);
            if record.parent_handle == Some(h) && j == a.themes[h].children.len() {
            } else {
                assert(a.themes[h].children[i] != a.themes[h].children[j]);
            }
        }
    }
    assert forall|h: int| 0 <= h < b.themes.len() implies b.handles.contains_key(
        (#[trigger] b.themes[h]).full_id,
    ) && b.handles[b.themes[h].full_id] == h by {
        if h < n {
            assert(a.handles.contains_key(a.themes[h].full_id));
            assert(a.handles[a.themes[h].full_id] == h);
        }
    }
    assert forall|k: Seq<char>| b.handles.contains_key(k) implies b.themes[
    #[trigger] b.handles[k]].full_id == k by {
        if k != record.full_id {
            assert(a.handles.contains_key(k));
            assert(a.themes[a.handles[k]].full_id == k);
            assert(0 <= a.handles[k] < n);
        }
    }
}

/// A sound arena is sound after a widget and all below it have been added.
pub proof fn creating_keeps_sound(
    a: ArenaView,
    res: ResourcesView,
    parent: Option<int>,
    id: Seq<char>,
    def: WidgetThemeDefinitionView,
)
    requires
        sound(a),
        parent matches Some(p) ==> 0 <= p < a.themes.len(),
        created(a, res, parent, id, def) is Ok,
    ensures
        sound(created(a, res, parent, id, def)->Ok_0),
        created(a, res, parent, id, def)->Ok_0.themes.len() > a.themes.len(),
    decreases def, 1nat, 0nat,
{
    let handle = a.themes.len() as int;
    let record = first_record(def, bindings(res, def), handle, parent, id, a.path(parent, id));
    placing_keeps_sound(a, record);
    creating_children_keeps_sound(a.placed(record), res, handle, def, def.children.len());
}

/// A sound arena is sound after the first `n` children of a definition,
/// and all below them, have been added below the record at `handle`.
pub proof fn creating_children_keeps_sound(
    a: ArenaView,
    res: ResourcesView,
    handle: int,
    def: WidgetThemeDefinitionView,
    n: nat,
)
    requires
        sound(a),
        0 <= handle < a.themes.len(),
        n <= def.children.len(),
        created_children(a, res, handle, def, n) is Ok,
    ensures
        sound(created_children(a, res, handle, def, n)->Ok_0),
        created_children(a, res, handle, def, n)->Ok_0.themes.len() >= a.themes.len(),
    decreases def, 0nat, n,
{
    if n > 0 {
        creating_children_keeps_sound(a, res, handle, def, (n - 1) as nat);
        let before = created_children(a, res, handle, def, (n - 1) as nat)->Ok_0;
        creating_keeps_sound(before, res, Some(handle), def.children[n - 1].0, def.children[n - 1].1);
    }
}

/// A sound arena is sound after the first `n` of a list of top-level
/// widgets, and all below them, have been added.
pub proof fn creating_all_keeps_sound(
    a: ArenaView,
    res: ResourcesView,
    defs: Seq<(Seq<char>, WidgetThemeDefinitionView)>,
    n: nat,
)
    requires
        sound(a),
        n <= defs.len(),
        created_all(a, res, defs, n) is Ok,
    ensures
        sound(created_all(a, res, defs, n)->Ok_0),
    decreases n,
{
    if n > 0 {
        creating_all_keeps_sound(a, res, defs, (n - 1) as nat);
        let before = created_all(a, res, defs, (n - 1) as nat)->Ok_0;
        creating_keeps_sound(before, res, None, defs[n - 1].0, defs[n - 1].1);
    }
}

/// The arena without records is sound.
pub proof fn empty_is_sound()
    ensures
        sound(ArenaView::empty()),
{
}

/// A subtree whose local ids are clean and in which no two children of one
/// record have the same local id.
pub open spec fn tidy(src: SubtreeView) -> bool
    decreases src,
{
    &&& clean(src.theme.id)
    &&& forall|i: int, j: int|
        0 <= i < j < src.children.len() ==> (#[trigger] src.children[i]).theme.id != (
        #[trigger] src.children[j]).theme.id
    &&& forall|i: int| 0 <= i < src.children.len() ==> tidy(#[trigger] src.children[i])
}

/// Every subtree of a sound arena is tidy.
pub proof fn subtree_is_tidy(a: ArenaView, h: int)
    requires
        sound(a),
        0 <= h < a.themes.len(),
    ensures
        tidy(subtree_of(a.themes, h)),
    decreases a.themes.len() - h,
{
    let tree = subtree_of(a.themes, h);
    let kids = a.themes[h].children;
    assert(clean(a.themes[h].id));
    assert forall|i: int| 0 <= i < kids.len() implies h < #[trigger] kids[i] < a.themes.len() by {
        assert(h < a.themes[h].children[i] < a.themes.len());
    }
    assert forall|i: int| 0 <= i < tree.children.len() implies tidy(#[trigger] tree.children[i]) by {
        assert(h < kids[i] < a.themes.len());
        subtree_is_tidy(a, kids[i]);
    }
    assert forall|i: int, j: int| 0 <= i < j < tree.children.len() implies (
    #[trigger] tree.children[i]).theme.id != (#[trigger] tree.children[j]).theme.id by {
        let first = kids[i];
        let second = kids[j];
        assert(h < first < a.themes.len());
        assert(h < second < a.themes.len());
        assert(a.themes[h].children[i] != a.themes[h].children[j]);
        assert(a.themes[a.themes[h].children[i]].parent_handle == Some(h));
        assert(a.themes[a.themes[h].children[j]].parent_handle == Some(h));
        assert(rooted(a, first));
        assert(rooted(a, second));
        assert(tree.children[i] == subtree_of(a.themes, first));
        assert(tree.children[j] == subtree_of(a.themes, second));
        assert(tree.children[i].theme == a.themes[first]);
        assert(tree.children[j].theme == a.themes[second]);
        if a.themes[first].id == a.themes[second].id {
            assert(a.themes[first].full_id == join_path(a.themes[h].full_id, a.themes[first].id));
            assert(a.themes[second].full_id == join_path(a.themes[h].full_id, a.themes[second].id));
            assert(a.handles[a.themes[first].full_id] == first);
            assert(a.handles[a.themes[second].full_id] == second);
            assert(false);
        }
    }
}

/// A sound arena stays sound when a record inherits.
pub proof fn inheriting_keeps_sound(a: ArenaView, to: int, source: WidgetThemeView)
    requires
        sound(a),
        0 <= to < a.themes.len(),
    ensures
        sound(a.with_inherited(to, source)),
{
    let b = a.with_inherited(to, source);
    inheriting_keeps_links(a, to, source);
    same_places_keep_sound(a, b);
}

/// A sound arena stays sound when a pending reference is cleared.
pub proof fn clearing_keeps_sound(a: ArenaView, to: int)
    requires
        sound(a),
        0 <= to < a.themes.len(),
    ensures
        sound(a.with_from_cleared(to)),
{
    let b = a.with_from_cleared(to);
    clearing_keeps_links(a, to);
    same_places_keep_sound(a, b);
}

/// An arena is sound if it has, record for record, the ids, handles,
/// parents and children of a sound arena, and the same index.
proof fn same_places_keep_sound(a: ArenaView, b: ArenaView)
    requires
        sound(a),
        b.linked(),
        b.themes.len() == a.themes.len(),
        b.handles == a.handles,
        forall|h: int|
            0 <= h < a.themes.len() ==> same_place(#[trigger] b.themes[h], a.themes[h])
                && b.themes[h].children == a.themes[h].children,
    ensures
        sound(b),
{
    assert forall|h: int| 0 <= h < b.themes.len() implies clean((#[trigger] b.themes[h]).id) by {
        assert(clean(a.themes[h].id));
    }
    assert forall|h: int| 0 <= h < b.themes.len() implies #[trigger] rooted(b, h) by {
        assert(rooted(a, h));
        assert(same_place(b.themes[h], a.themes[h]));
        match a.themes[h].parent_handle {
            None => {},
            Some(p) => {
                assert(same_place(b.themes[p], a.themes[p]));
            },
        }
    }
    assert forall|h: int, i: int|
        0 <= h < b.themes.len() && 0 <= i < b.themes[h].children.len() implies b.themes[
    #[trigger] b.themes[h].children[i]].parent_handle == Some(h) by {
        assert(same_place(b.themes[h], a.themes[h]));
        assert(a.themes[a.themes[h].children[i]].parent_handle == Some(h));
        assert(h < a.themes[h].children[i] < a.themes.len());
        assert(same_place(b.themes[a.themes[h].children[i]], a.themes[a.themes[h].children[i]]));
    }
    assert forall|h: int, i: int, j: int|
        0 <= h < b.themes.len() && 0 <= i < j < b.themes[h].children.len() implies #[trigger] b.themes[h].children[i]
        != #[trigger] b.themes[h].children[j] by {
        assert(same_place(b.themes[h], a.themes[h]));
        assert(a.themes[h].children[i] != a.themes[h].children[j]);
    }
    assert forall|h: int| 0 <= h < b.themes.len() implies b.handles.contains_key(
        (#[trigger] b.themes[h]).full_id,
    ) && b.handles[b.themes[h].full_id] == h by {
        assert(same_place(b.themes[h], a.themes[h]));
        assert(a.handles.contains_key(a.themes[h].full_id));
        assert(a.handles[a.themes[h].full_id] == h);
    }
    assert forall|k: Seq<char>| b.handles.contains_key(k) implies b.themes[
    #[trigger] b.handles[k]].full_id == k by {
        assert(a.themes[a.handles[k]].full_id == k);
        assert(0 <= a.handles[k] < a.themes.len());
        assert(same_place(b.themes[a.handles[k]], a.themes[a.handles[k]]));
    }
}

/// A sound arena stays sound when a tidy subtree is copied below a record
/// none of whose children has the local id of the subtree's root.
pub proof fn grafting_keeps_sound(a: ArenaView, src: SubtreeView, to: int)
    requires
        sound(a),
        0 <= to < a.themes.len(),
        tidy(src),
        !has_child(a.themes, to, src.theme.id),
    ensures
        sound(grafted(a, src, to)),
    decreases src, 1nat, 0nat,
{
    let handle = a.themes.len() as int;
    let record = copy_below(a, src.theme, to);
    fresh_path(a, to, src.theme.id);
    placing_keeps_sound(a, record);
    grafting_children_keeps_sound(a.placed(record), src, handle, src.children.len());
}

/// A sound arena stays sound when the first `n` children of a tidy subtree
/// are copied below a record that has no children.
pub proof fn grafting_children_keeps_sound(a: ArenaView, src: SubtreeView, to: int, n: nat)
    requires
        sound(a),
        0 <= to < a.themes.len(),
        tidy(src),
        n <= src.children.len(),
        a.themes[to].children.len() == 0,
    ensures
        sound(grafted_children(a, src, to, n)),
    decreases src, 0nat, n,
{
    if n > 0 {
        let before = grafted_children(a, src, to, (n - 1) as nat);
        let last = src.children[n - 1];
        grafting_children_keeps_sound(a, src, to, (n - 1) as nat);
        grafting_children(a, src, to, (n - 1) as nat);
        if has_child(before.themes, to, last.theme.id) {
            let kids = before.themes[to].children;
            let i = choose|i: int|
                0 <= i < kids.len() && (#[trigger] before.themes[kids[i]]).id == last.theme.id;
            assert(a.themes.len() <= before.themes[to].children[0 + i] < before.themes.len());
            assert(same_content(subtree_of(before.themes, kids[i]), src.children[i]));
            assert(same_fields(subtree_of(before.themes, kids[i]).theme, src.children[i].theme));
            assert(src.children[i].theme.id == src.children[n - 1].theme.id);
        }
        grafting_keeps_sound(before, last, to);
    }
}

/// A sound arena stays sound when those of the first `n` children of a tidy
/// subtree are copied below a record whose local id none of the children
/// `kids` that the record had has.
pub proof fn grafting_missing_keeps_sound(
    a: ArenaView,
    src: SubtreeView,
    kids: Seq<int>,
    to: int,
    n: nat,
)
    requires
        sound(a),
        0 <= to < a.themes.len(),
        tidy(src),
        n <= src.children.len(),
        kids == a.themes[to].children,
    ensures
        sound(grafted_missing(a, src, kids, to, n)),
    decreases n,
{
    if n > 0 {
        let before = grafted_missing(a, src, kids, to, (n - 1) as nat);
        let last = src.children[n - 1];
        grafting_missing_keeps_sound(a, src, kids, to, (n - 1) as nat);
        grafting_missing(a, src, kids, to, (n - 1) as nat);
        assert forall|i: int| 0 <= i < kids.len() implies to < #[trigger] kids[i] < a.themes.len() by {
            assert(to < a.themes[to].children[i] < a.themes.len());
        }
        copies_of_missing(a, src, kids, to, (n - 1) as nat);
        if !any_named(before.themes, kids, last.theme.id) {
            if has_child(before.themes, to, last.theme.id) {
                let now = before.themes[to].children;
                let i = choose|i: int|
                    0 <= i < now.len() && (#[trigger] before.themes[now[i]]).id == last.theme.id;
                assert(same_place(before.themes[to], a.themes[to]));
                if i < kids.len() {
                    assert(now[i] == kids[i]);
                    assert(before.themes[kids[i]].id == last.theme.id);
                } else {
                    let first = src.children.take(n - 1);
                    let j = choose|j: int|
                        0 <= j < first.len() && (#[trigger] first[j]).theme.id
                            == before.themes[now[i]].id;
                    assert(src.children[j].theme.id == src.children[n - 1].theme.id);
                }
            }
            grafting_keeps_sound(before, last, to);
        }
    }
}

/// A sound arena stays sound when a record inherits from a tidy subtree.
pub proof fn merging_keeps_sound(a: ArenaView, src: SubtreeView, to: int)
    requires
        sound(a),
        0 <= to < a.themes.len(),
        tidy(src),
    ensures
        sound(merged(a, src, to)),
    decreases src, 1nat, 0nat,
{
    let kids = a.themes[to].children;
    let start = a.with_inherited(to, src.theme);
    inheriting_keeps_sound(a, to, src.theme);
    assert forall|i: int| 0 <= i < kids.len() implies to < #[trigger] kids[i] < start.themes.len() by {
        assert(to < a.themes[to].children[i] < a.themes.len());
    }
    merging_children_keeps_sound(start, src, kids, kids.len(), to);
    merging_children(start, src, kids, kids.len(), to);
    let met = merged_children(start, src, kids, kids.len());
    assert(met.themes[to] == start.themes[to]);
    grafting_missing_keeps_sound(met, src, kids, to, src.children.len());
}

/// A sound arena stays sound when the first `n` of the records at `kids`
/// inherit from the children of a tidy subtree.
pub proof fn merging_children_keeps_sound(
    a: ArenaView,
    src: SubtreeView,
    kids: Seq<int>,
    n: nat,
    to: int,
)
    requires
        sound(a),
        tidy(src),
        0 <= to,
        n <= kids.len(),
        forall|i: int| 0 <= i < kids.len() ==> to < #[trigger] kids[i] < a.themes.len(),
    ensures
        sound(merged_children(a, src, kids, n)),
    decreases src, 0nat, n,
{
    if n > 0 {
        let before = merged_children(a, src, kids, (n - 1) as nat);
        merging_children_keeps_sound(a, src, kids, (n - 1) as nat, to);
        merging_children(a, src, kids, (n - 1) as nat, to);
        let kid = kids[n - 1];
        match first_named(src.children, before.themes[kid].id) {
            Some(j) => {
                if 0 <= j < src.children.len() {
                    merging_keeps_sound(before, src.children[j], kid);
                }
            },
            None => {},
        }
    }
}

/// A sound arena is sound after the record at `to` has been resolved.
pub proof fn resolving_at_keeps_sound(a: ArenaView, to: int)
    requires
        sound(a),
        0 <= to < a.themes.len(),
        resolved_at(a, to) is Ok,
    ensures
        sound(resolved_at(a, to)->Ok_0),
        resolved_at(a, to)->Ok_0.themes.len() >= a.themes.len(),
{
    match a.themes[to].from {
        None => {},
        Some(name) => {
            let from = a.handles[name];
            if a.themes[from].from is None {
                let cleared = a.with_from_cleared(to);
                clearing_keeps_sound(a, to);
                subtree_is_tidy(cleared, from);
                merging_keeps_sound(cleared, subtree_of(cleared.themes, from), to);
                merging(cleared, subtree_of(cleared.themes, from), to);
            }
        },
    }
}

/// A sound arena is sound after a pass has gone over its first `n` records.
pub proof fn pass_keeps_sound(a: ArenaView, n: nat)
    requires
        sound(a),
        n <= a.themes.len(),
        pass(a, n) is Ok,
    ensures
        sound(pass(a, n)->Ok_0),
        pass(a, n)->Ok_0.themes.len() >= a.themes.len(),
    decreases n,
{
    if n > 0 {
        pass_keeps_sound(a, (n - 1) as nat);
        resolving_at_keeps_sound(pass(a, (n - 1) as nat)->Ok_0, n - 1);
    }
}

/// A sound arena is sound after its references have been resolved.
pub proof fn resolving_keeps_sound(a: ArenaView, passes: nat)
    requires
        sound(a),
        resolved(a, passes) is Ok,
    ensures
        sound(resolved(a, passes)->Ok_0),
    decreases passes,
{
    if has_pending(a) && passes > 0 {
        pass_keeps_sound(a, a.themes.len());
        resolving_keeps_sound(pass(a, a.themes.len())->Ok_0, (passes - 1) as nat);
    }
}

/// The path `k` is the path of a record of the arena.
pub open spec fn is_path(a: ArenaView, k: Seq<char>) -> bool {
    exists|h: int| 0 <= h < a.themes.len() && (#[trigger] a.themes[h]).full_id == k
}

/// The index of a sound arena holds the paths of its records and no other
/// path.
pub proof fn index_is_the_paths(a: ArenaView)
    requires
        sound(a),
    ensures
        forall|k: Seq<char>| a.handles.contains_key(k) <==> is_path(a, k),
{
    assert forall|k: Seq<char>| a.handles.contains_key(k) <==> is_path(a, k) by {
        if a.handles.contains_key(k) {
            let h = a.handles[k];
            assert(0 <= h < a.themes.len());
            assert(a.themes[h].full_id == k);
        }
        if is_path(a, k) {
            let h = choose|h: int| 0 <= h < a.themes.len() && (#[trigger] a.themes[h]).full_id == k;
            assert(a.handles.contains_key(a.themes[h].full_id));
        }
    }
}

} // verus!

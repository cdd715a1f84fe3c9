//! Which definitions the builder accepts: those whose widgets have clean
//! local ids, different from those of their siblings, and name only
//! registered resources.

use vstd::prelude::*;
use crate::arena::{placing_keeps_links, ArenaView};
use crate::builder::{
    created,
    created_all,
    created_children,
    creating_children,
    first_record,
};
use crate::definition::WidgetThemeDefinitionView;
use crate::frames::has_child;
use crate::resources::{bindings, missing, ResourcesView};
use crate::sound::{
    clean,
    creating_all_keeps_sound,
    creating_children_keeps_sound,
    fresh_path,
    joined_is_not_clean,
    placing_keeps_sound,
    sound,
};

verus! {

/// The definition and every definition below it name only resources that
/// are registered, and the children of each have clean local ids, no two
/// of them the same.
pub open spec fn admissible(def: WidgetThemeDefinitionView, res: ResourcesView) -> bool
    decreases def,
{
    &&& missing(res, def) is None
    &&& forall|i: int| 0 <= i < def.children.len() ==> clean((#[trigger] def.children[i]).0)
    &&& forall|i: int, j: int|
        0 <= i < j < def.children.len() ==> (#[trigger] def.children[i]).0 != (
        #[trigger] def.children[j]).0
    &&& forall|i: int|
        0 <= i < def.children.len() ==> admissible((#[trigger] def.children[i]).1, res)
}

/// The top-level widgets have clean local ids, no two of them the same,
/// and admissible definitions.
pub open spec fn all_admissible(
    defs: Seq<(Seq<char>, WidgetThemeDefinitionView)>,
    res: ResourcesView,
) -> bool {
    &&& forall|i: int| 0 <= i < defs.len() ==> clean((#[trigger] defs[i]).0)
    &&& forall|i: int, j: int|
        0 <= i < j < defs.len() ==> (#[trigger] defs[i]).0 != (#[trigger] defs[j]).0
    &&& forall|i: int| 0 <= i < defs.len() ==> admissible((#[trigger] defs[i]).1, res)
}

/// A widget with a clean local id, an admissible definition and a path
/// that is not indexed yet is added to a sound arena without error.
pub proof fn creating_succeeds(
    a: ArenaView,
    res: ResourcesView,
    parent: Option<int>,
    id: Seq<char>,
    def: WidgetThemeDefinitionView,
)
    requires
        sound(a),
        parent matches Some(p) ==> 0 <= p < a.themes.len(),
        clean(id),
        admissible(def, res),
        !a.handles.contains_key(a.path(parent, id)),
    ensures
        created(a, res, parent, id, def) is Ok,
    decreases def, 1nat, 0nat,
{
    let handle = a.themes.len() as int;
    let record = first_record(def, bindings(res, def), handle, parent, id, a.path(parent, id));
    placing_keeps_sound(a, record);
    placing_keeps_links(a, record);
    creating_children_succeed(a.placed(record), res, handle, def, def.children.len());
}

/// The first `n` children of an admissible definition are added without
/// error below a record of a sound arena that has no children yet.
pub proof fn creating_children_succeed(
    a: ArenaView,
    res: ResourcesView,
    handle: int,
    def: WidgetThemeDefinitionView,
    n: nat,
)
    requires
        sound(a),
        0 <= handle < a.themes.len(),
        a.themes[handle].children.len() == 0,
        n <= def.children.len(),
        admissible(def, res),
    ensures
        created_children(a, res, handle, def, n) is Ok,
    decreases def, 0nat, n,
{
    if n > 0 {
        creating_children_succeed(a, res, handle, def, (n - 1) as nat);
        let before = created_children(a, res, handle, def, (n - 1) as nat)->Ok_0;
        let id = def.children[n - 1].0;
        creating_children_keeps_sound(a, res, handle, def, (n - 1) as nat);
        creating_children(a, res, handle, def, (n - 1) as nat);
        if has_child(before.themes, handle, id) {
            let kids = before.themes[handle].children;
            let k = choose|k: int| 0 <= k < kids.len() && (#[trigger] before.themes[kids[k]]).id == id;
            assert(a.themes.len() <= before.themes[handle].children[0 + k] < before.themes.len());
            assert(def.children[k].0 != def.children[n - 1].0);
        }
        assert(clean(def.children[n - 1].0));
        assert(admissible(def.children[n - 1].1, res));
        fresh_path(before, handle, id);
        creating_succeeds(before, res, Some(handle), id, def.children[n - 1].1);
    }
}

/// The paths that adding a widget indexes are the path of the widget and
/// paths with a separator.
pub proof fn creating_indexes(
    a: ArenaView,
    res: ResourcesView,
    parent: Option<int>,
    id: Seq<char>,
    def: WidgetThemeDefinitionView,
)
    requires
        created(a, res, parent, id, def) is Ok,
    ensures
        forall|k: Seq<char>| #[trigger]
            created(a, res, parent, id, def)->Ok_0.handles.contains_key(k)
                ==> a.handles.contains_key(k) || k == a.path(parent, id) || !clean(k),
    decreases def, 1nat, 0nat,
{
    let handle = a.themes.len() as int;
    let record = first_record(def, bindings(res, def), handle, parent, id, a.path(parent, id));
    creating_children_index(a.placed(record), res, handle, def, def.children.len());
}

/// The paths that adding children indexes are paths with a separator.
pub proof fn creating_children_index(
    a: ArenaView,
    res: ResourcesView,
    handle: int,
    def: WidgetThemeDefinitionView,
    n: nat,
)
    requires
        n <= def.children.len(),
        created_children(a, res, handle, def, n) is Ok,
    ensures
        forall|k: Seq<char>| #[trigger]
            created_children(a, res, handle, def, n)->Ok_0.handles.contains_key(k)
                ==> a.handles.contains_key(k) || !clean(k),
    decreases def, 0nat, n,
{
    if n > 0 {
        let before = created_children(a, res, handle, def, (n - 1) as nat)->Ok_0;
        creating_children_index(a, res, handle, def, (n - 1) as nat);
        creating_indexes(before, res, Some(handle), def.children[n - 1].0, def.children[n - 1].1);
        joined_is_not_clean(before.themes[handle].full_id, def.children[n - 1].0);
    }
}

/// The paths that the first `n` top-level widgets index in an arena without
/// records are their local ids and paths with a separator.
proof fn creating_all_index(
    res: ResourcesView,
    defs: Seq<(Seq<char>, WidgetThemeDefinitionView)>,
    n: nat,
)
    requires
        n <= defs.len(),
        created_all(ArenaView::empty(), res, defs, n) is Ok,
    ensures
        forall|k: Seq<char>| #[trigger]
            created_all(ArenaView::empty(), res, defs, n)->Ok_0.handles.contains_key(k) ==> !clean(
                k,
            ) || exists|i: int| 0 <= i < n && (#[trigger] defs[i]).0 == k,
    decreases n,
{
    if n > 0 {
        let before = created_all(ArenaView::empty(), res, defs, (n - 1) as nat)->Ok_0;
        let b = created_all(ArenaView::empty(), res, defs, n)->Ok_0;
        creating_all_index(res, defs, (n - 1) as nat);
        creating_indexes(before, res, None, defs[n - 1].0, defs[n - 1].1);
        assert forall|k: Seq<char>| #[trigger] b.handles.contains_key(k) implies !clean(k)
            || exists|i: int| 0 <= i < n && (#[trigger] defs[i]).0 == k by {
            if clean(k) {
                if before.handles.contains_key(k) {
                    let i = choose|i: int| 0 <= i < n - 1 && (#[trigger] defs[i]).0 == k;
                    assert(defs[i].0 == k);
                } else {
                    assert(defs[n - 1].0 == k);
                }
            }
        }
    }
}

/// Top-level widgets with clean local ids, no two the same, and with
/// admissible definitions are added to an arena without records without
/// error.
pub proof fn creating_all_succeed(
    res: ResourcesView,
    defs: Seq<(Seq<char>, WidgetThemeDefinitionView)>,
    n: nat,
)
    requires
        n <= defs.len(),
        all_admissible(defs, res),
    ensures
        created_all(ArenaView::empty(), res, defs, n) is Ok,
    decreases n,
{
    if n > 0 {
        creating_all_succeed(res, defs, (n - 1) as nat);
        let before = created_all(ArenaView::empty(), res, defs, (n - 1) as nat)->Ok_0;
        creating_all_keeps_sound(ArenaView::empty(), res, defs, (n - 1) as nat);
        creating_all_index(res, defs, (n - 1) as nat);
        let id = defs[n - 1].0;
        assert(clean(id));
        if before.handles.contains_key(id) {
            let i = choose|i: int| 0 <= i < n - 1 && (#[trigger] defs[i]).0 == id;
            assert(defs[i].0 != defs[n - 1].0);
        }
        assert(admissible(defs[n - 1].1, res));
        creating_succeeds(before, res, None, id, defs[n - 1].1);
    }
}

} // verus!

//! The theme graph builder: it flattens a tree of widget definitions into
//! the arena, one record for each widget, with handles given in preorder.

use vstd::prelude::*;
use crate::arena::{handle_view, placing_keeps_links, Arena, ArenaView};
use crate::definition::{WidgetThemeDefinition, WidgetThemeDefinitionView};
use crate::error::{Error, ErrorView};
use crate::frames::{keeps_places, keeps_places_on, placing_keeps_places, subtree_stable};
use crate::inherit::{subtree_of, SubtreeView};
use crate::resources::{bindings, missing, Bound, Resources, ResourcesView};
use crate::sound::{placing_keeps_sound, sound};
use crate::text::{has_separator, join_path, separator};
use crate::widget_theme::{copy_text, WidgetTheme, WidgetThemeHandle, WidgetThemeView};

verus! {

/// The record made from one definition, before it has children.
pub open spec fn first_record(
    def: WidgetThemeDefinitionView,
    bound: Bound,
    handle: int,
    parent: Option<int>,
    id: Seq<char>,
    full_id: Seq<char>,
) -> WidgetThemeView {
    WidgetThemeView {
        from: def.from,
        full_id,
        id,
        parent_handle: parent,
        handle,
        text: def.text,
        text_color: def.text_color,
        font: bound.font,
        background: bound.background,
        foreground: bound.foreground,
        wants_mouse: def.wants_mouse,
        wants_scroll: def.wants_scroll,
        text_align: def.text_align,
        pos: def.pos,
        size: def.size,
        width_from: def.width_from,
        height_from: def.height_from,
        border: def.border,
        align: def.align,
        child_align: def.child_align,
        layout: def.layout,
        layout_spacing: def.layout_spacing,
        children: Seq::empty(),
    }
}

/// The arena after the widget `id` with definition `def` has been added
/// below the record at `parent`, or at the top level, and all the widgets
/// below it; or the first error met on the way. The new record gets the next
/// free handle, becomes the last child of its parent and is indexed by its
/// path; then its children are added, one subtree after the other.
pub open spec fn created(
    a: ArenaView,
    res: ResourcesView,
    parent: Option<int>,
    id: Seq<char>,
    def: WidgetThemeDefinitionView,
) -> Result<ArenaView, ErrorView>
    decreases def, 1nat, 0nat,
{
    let full_id = a.path(parent, id);
    let handle = a.themes.len() as int;
    if id.contains(separator()) {
        Err(ErrorView::Name { id })
    } else if missing(res, def) is Some {
        let (kind, name) = missing(res, def).unwrap();
        Err(ErrorView::MissingResource { kind, name, widget: full_id })
    } else if a.handles.contains_key(full_id) {
        Err(ErrorView::DuplicateId { full_id })
    } else {
        let record = first_record(def, bindings(res, def), handle, parent, id, full_id);
        created_children(a.placed(record), res, handle, def, def.children.len())
    }
}

/// The widget `id` is refused for what it is itself, before any record is
/// placed: its local id holds the separator, it names a resource that is not
/// registered, or its path is indexed already.
pub open spec fn refused_at_once(
    a: ArenaView,
    res: ResourcesView,
    parent: Option<int>,
    id: Seq<char>,
    def: WidgetThemeDefinitionView,
) -> bool {
    ||| id.contains(separator())
    ||| missing(res, def) is Some
    ||| a.handles.contains_key(a.path(parent, id))
}

/// The arena after the first `n` children of `def` have been added below
/// the record at `handle`, each with its subtree.
pub open spec fn created_children(
    a: ArenaView,
    res: ResourcesView,
    handle: int,
    def: WidgetThemeDefinitionView,
    n: nat,
) -> Result<ArenaView, ErrorView>
    decreases def, 0nat, n,
{
    if n == 0 || n > def.children.len() {
        Ok(a)
    } else {
        match created_children(a, res, handle, def, (n - 1) as nat) {
            Err(e) => Err(e),
            Ok(before) => created(
                before,
                res,
                Some(handle),
                def.children[n - 1].0,
                def.children[n - 1].1,
            ),
        }
    }
}

/// The arena after the first `n` of the top-level widgets `defs` have been
/// added, each with its subtree.
pub open spec fn created_all(
    a: ArenaView,
    res: ResourcesView,
    defs: Seq<(Seq<char>, WidgetThemeDefinitionView)>,
    n: nat,
) -> Result<ArenaView, ErrorView>
    decreases n,
{
    if n == 0 || n > defs.len() {
        Ok(a)
    } else {
        match created_all(a, res, defs, (n - 1) as nat) {
            Err(e) => Err(e),
            Ok(before) => created(before, res, None, defs[n - 1].0, defs[n - 1].1),
        }
    }
}

/// An error met while the first children are added is the error of adding
/// all of them.
proof fn child_error_stays(
    a: ArenaView,
    res: ResourcesView,
    handle: int,
    def: WidgetThemeDefinitionView,
    i: nat,
    n: nat,
    e: ErrorView,
)
    requires
        i <= n <= def.children.len(),
        created_children(a, res, handle, def, i) == Err::<ArenaView, ErrorView>(e),
    ensures
        created_children(a, res, handle, def, n) == Err::<ArenaView, ErrorView>(e),
    decreases n,
{
    if i < n {
        child_error_stays(a, res, handle, def, i, (n - 1) as nat, e);
    }
}

impl WidgetTheme {
    /// Adds the widget `id` with definition `def`, and all the widgets
    /// below it, to the arena, below the record at `parent_handle` or at the
    /// top level. Returns the handle of the new record.
    ///
    /// An error that lies with the widget itself (its local id, a resource
    /// that it names, its path) leaves the arena as it was. An error that lies
    /// with a widget below it leaves in the arena the records that were placed
    /// before it was met; the arena is still linked then, and sound if it was.
    /// Either way every record that the arena had keeps its place and its
    /// fields.
    pub fn create(
        parent_handle: Option<WidgetThemeHandle>,
        id: &str,
        arena: &mut Arena,
        def: &WidgetThemeDefinition,
        resources: &Resources,
    ) -> (r: Result<WidgetThemeHandle, Error>)
        requires
            old(arena)@.linked(),
            parent_handle matches Some(p) ==> p.id < old(arena)@.themes.len(),
        ensures
            match r {
                Ok(handle) => {
                    &&& created(old(arena)@, resources@, handle_view(parent_handle), id@, def@)
                        == Ok::<ArenaView, ErrorView>(final(arena)@)
                    &&& handle.id == old(arena)@.themes.len()
                    &&& final(arena)@.themes.len() > old(arena)@.themes.len()
                },
                Err(e) => {
                    &&& created(old(arena)@, resources@, handle_view(parent_handle), id@, def@)
                        == Err::<ArenaView, ErrorView>(e@)
                    &&& refused_at_once(
                        old(arena)@,
                        resources@,
                        handle_view(parent_handle),
                        id@,
                        def@,
                    ) ==> final(arena)@ == old(arena)@
                },
            },
            final(arena)@.linked(),
            keeps_places(old(arena)@, final(arena)@),
            sound(old(arena)@) ==> sound(final(arena)@),
        decreases def,
    {
        if has_separator(id) {
            return Err(Error::Name { id: String::from_str(id) });
        }
        let full_id = arena.path(parent_handle, id);
        let bound = match resources.bind(def, full_id.as_str()) {
            Ok(bound) => bound,
            Err(e) => {
                return Err(e);
            },
        };
        if arena.handle(full_id.as_str()).is_some() {
            return Err(Error::DuplicateId { full_id });
        }
        let handle = WidgetThemeHandle { id: arena.len() as u64 };
        let theme = WidgetTheme {
            from: copy_text(&def.from),
            parent_handle,
            handle,
            id: String::from_str(id),
            full_id,
            text: copy_text(&def.text),
            text_color: def.text_color,
            font: bound.font,
            background: bound.background,
            foreground: bound.foreground,
            wants_mouse: def.wants_mouse,
            wants_scroll: def.wants_scroll,
            text_align: def.text_align,
            pos: def.pos,
            size: def.size,
            width_from: def.width_from,
            height_from: def.height_from,
            align: def.align,
            child_align: def.child_align,
            border: def.border,
            layout: def.layout,
            layout_spacing: def.layout_spacing,
            children: Vec::new(),
        };
        proof {
            assert(theme@.children =~= Seq::<int>::empty());
            assert(theme@ == first_record(
                def@,
                bindings(resources@, def@),
                handle.id as int,
                handle_view(parent_handle),
                id@,
                old(arena)@.path(handle_view(parent_handle), id@),
            ));
            placing_keeps_links(old(arena)@, theme@);
            if sound(old(arena)@) {
                placing_keeps_sound(old(arena)@, theme@);
            }
            placing_keeps_places(old(arena)@, theme@);
        }
        arena.place(theme);
        let ghost start = arena@;
        let mut i: usize = 0;
        while i < def.children.len()
            invariant
                i <= def.children.len(),
                def@.children.len() == def.children.len(),
                forall|j: int|
                    0 <= j < def.children.len() ==> def@.children[j] == (
                        def.children[j].0@,
                        def.children[j].1@,
                    ),
                handle.id < arena@.themes.len(),
                handle.id == old(arena)@.themes.len(),
                arena@.themes.len() > old(arena)@.themes.len(),
                arena@.linked(),
                keeps_places(old(arena)@, arena@),
                sound(old(arena)@) ==> sound(arena@),
                !id@.contains(separator()),
                missing(resources@, def@) is None,
                !old(arena)@.handles.contains_key(old(arena)@.path(handle_view(parent_handle), id@)),
                start == old(arena)@.placed(
                    first_record(
                        def@,
                        bindings(resources@, def@),
                        handle.id as int,
                        handle_view(parent_handle),
                        id@,
                        old(arena)@.path(handle_view(parent_handle), id@),
                    ),
                ),
                created_children(start, resources@, handle.id as int, def@, i as nat) == Ok::<
                    ArenaView,
                    ErrorView,
                >(arena@),
            decreases def.children.len() - i,
        {
            let ghost before = arena@;
            let added = WidgetTheme::create(
                Some(handle),
                def.children[i].0.as_str(),
                arena,
                &def.children[i].1,
                resources,
            );
            proof {
                keeps_places_on(old(arena)@, before, arena@);
            }
            match added {
                Ok(_) => {},
                Err(e) => {
                    proof {
                        assert(created(
                            before,
                            resources@,
                            Some(handle.id as int),
                            def@.children[i as int].0,
                            def@.children[i as int].1,
                        ) == Err::<ArenaView, ErrorView>(e@));
                        child_error_stays(
                            start,
                            resources@,
                            handle.id as int,
                            def@,
                            (i + 1) as nat,
                            def@.children.len(),
                            e@,
                        );
                    }
                    return Err(e);
                },
            }
            i += 1;
        }
        Ok(handle)
    }
}

/// The number of widgets that a definition describes: one, and those that
/// the definitions of its children describe.
pub open spec fn nodes(def: WidgetThemeDefinitionView) -> nat
    decreases def, 1nat, 0nat,
{
    1 + nodes_below(def, def.children.len())
}

/// The number of widgets that the first `n` children of a definition
/// describe.
pub open spec fn nodes_below(def: WidgetThemeDefinitionView, n: nat) -> nat
    decreases def, 0nat, n,
{
    if n == 0 || n > def.children.len() {
        0
    } else {
        nodes_below(def, (n - 1) as nat) + nodes(def.children[n - 1].1)
    }
}

/// The number of widgets that the first `n` definitions of a list describe.
pub open spec fn nodes_of_all(defs: Seq<(Seq<char>, WidgetThemeDefinitionView)>, n: nat) -> nat
    decreases n,
{
    if n == 0 || n > defs.len() {
        0
    } else {
        nodes_of_all(defs, (n - 1) as nat) + nodes(defs[n - 1].1)
    }
}

/// Neither the definition nor any definition below it has a `from`.
pub open spec fn unreferenced(def: WidgetThemeDefinitionView) -> bool
    decreases def,
{
    &&& def.from is None
    &&& forall|i: int| 0 <= i < def.children.len() ==> unreferenced((#[trigger] def.children[i]).1)
}

/// The subtree `tree` is what the definition `def` of the widget `id`
/// describes: its root is the record made from the definition, with the
/// path `full_id`, and its children are, in the order of the definition, what
/// the definitions of the children describe, each with a path below that of
/// the root.
pub open spec fn describes(
    def: WidgetThemeDefinitionView,
    res: ResourcesView,
    id: Seq<char>,
    full_id: Seq<char>,
    tree: SubtreeView,
) -> bool
    decreases def,
{
    &&& tree.theme == (WidgetThemeView {
        children: tree.theme.children,
        ..first_record(
            def,
            bindings(res, def),
            tree.theme.handle,
            tree.theme.parent_handle,
            id,
            full_id,
        )
    })
    &&& tree.children.len() == def.children.len()
    &&& forall|i: int|
        0 <= i < def.children.len() ==> describes(
            def.children[i].1,
            res,
            def.children[i].0,
            join_path(full_id, def.children[i].0),
            #[trigger] tree.children[i],
        )
}

/// A widget that has been added stands in the arena as its definition
/// describes it: the subtree at the first handle that was free holds a
/// record for the widget and for every widget below it, each with the fields
/// of its definition and with its path. No record that the arena had has
/// changed, but that the parent has one more child.
pub proof fn creating(
    a: ArenaView,
    res: ResourcesView,
    parent: Option<int>,
    id: Seq<char>,
    def: WidgetThemeDefinitionView,
)
    requires
        a.linked(),
        parent matches Some(p) ==> 0 <= p < a.themes.len(),
        created(a, res, parent, id, def) is Ok,
    ensures
        ({
            let b = created(a, res, parent, id, def)->Ok_0;
            &&& b.linked()
            &&& b.themes.len() == a.themes.len() + nodes(def)
            &&& forall|h: int|
                0 <= h < a.themes.len() && parent != Some(h) ==> b.themes[h] == a.themes[h]
            &&& parent matches Some(p) ==> b.themes[p] == a.with_child(
                p,
                a.themes.len() as int,
            ).themes[p]
            &&& b.themes[a.themes.len() as int].parent_handle == parent
            &&& describes(def, res, id, a.path(parent, id), subtree_of(b.themes, a.themes.len() as int))
        }),
    decreases def, 1nat, 0nat,
{
    let handle = a.themes.len() as int;
    let record = first_record(def, bindings(res, def), handle, parent, id, a.path(parent, id));
    let placed = a.placed(record);
    placing_keeps_links(a, record);
    creating_children(placed, res, handle, def, def.children.len());
    let b = created(a, res, parent, id, def)->Ok_0;
    assert forall|h: int| 0 <= h < a.themes.len() && parent != Some(h) implies b.themes[h]
        == a.themes[h] by {
        assert(b.themes[h] == placed.themes[h]);
    }
    let tree = subtree_of(b.themes, handle);
    assert forall|i: int| 0 <= i < def.children.len() implies describes(
        def.children[i].1,
        res,
        def.children[i].0,
        join_path(a.path(parent, id), def.children[i].0),
        #[trigger] tree.children[i],
    ) by {
        let child = b.themes[handle].children[0 + i];
        assert(handle < child < b.themes.len());
    }
}

/// What adding the first `n` children of a definition below the record at
/// `handle` changes: the record gets `n` more children, each the root of what
/// the definition of the child describes, and nothing else that the arena
/// had changes.
pub proof fn creating_children(
    a: ArenaView,
    res: ResourcesView,
    handle: int,
    def: WidgetThemeDefinitionView,
    n: nat,
)
    requires
        a.linked(),
        0 <= handle < a.themes.len(),
        n <= def.children.len(),
        created_children(a, res, handle, def, n) is Ok,
    ensures
        ({
            let b = created_children(a, res, handle, def, n)->Ok_0;
            let had = a.themes[handle].children.len() as int;
            &&& b.linked()
            &&& b.themes.len() == a.themes.len() + nodes_below(def, n)
            &&& forall|h: int| 0 <= h < a.themes.len() && h != handle ==> b.themes[h] == a.themes[h]
            &&& b.themes[handle] == (WidgetThemeView {
                children: b.themes[handle].children,
                ..a.themes[handle]
            })
            &&& b.themes[handle].children.len() == had + n
            &&& b.themes[handle].children.take(had) == a.themes[handle].children
            &&& forall|i: int|
                0 <= i < n ==> a.themes.len() <= #[trigger] b.themes[handle].children[had + i]
                    < b.themes.len() && describes(
                    def.children[i].1,
                    res,
                    def.children[i].0,
                    join_path(a.themes[handle].full_id, def.children[i].0),
                    subtree_of(b.themes, b.themes[handle].children[had + i]),
                )
        }),
    decreases def, 0nat, n,
{
    let had = a.themes[handle].children.len() as int;
    if n == 0 {
        assert(a.themes[handle].children.take(had) =~= a.themes[handle].children);
    } else {
        let before = created_children(a, res, handle, def, (n - 1) as nat)->Ok_0;
        creating_children(a, res, handle, def, (n - 1) as nat);
        creating(before, res, Some(handle), def.children[n - 1].0, def.children[n - 1].1);
        let b = created_children(a, res, handle, def, n)->Ok_0;
        assert(b.themes[handle].children =~= before.themes[handle].children.push(
            before.themes.len() as int,
        ));
        assert(b.themes[handle].children.take(had) =~= before.themes[handle].children.take(had));
        assert forall|i: int| 0 <= i < n implies a.themes.len() <= #[trigger] b.themes[handle].children[had
            + i] < b.themes.len() && describes(
            def.children[i].1,
            res,
            def.children[i].0,
            join_path(a.themes[handle].full_id, def.children[i].0),
            subtree_of(b.themes, b.themes[handle].children[had + i]),
        ) by {
            if i < n - 1 {
                let child = before.themes[handle].children[had + i];
                assert(b.themes[handle].children[had + i] == child);
                assert forall|h: int| child <= h < before.themes.len() implies b.themes[h]
                    == before.themes[h] by {}
                subtree_stable(before, b, child);
            }
        }
    }
}

/// What adding the first `n` widgets of a list at the top level makes: one
/// record for each widget that the definitions describe, behind the records
/// that the arena had, which do not change; each top-level widget stands at
/// the handle behind the widgets of the definitions before it, as its
/// definition describes it.
pub proof fn creating_all(
    a: ArenaView,
    res: ResourcesView,
    defs: Seq<(Seq<char>, WidgetThemeDefinitionView)>,
    n: nat,
)
    requires
        a.linked(),
        n <= defs.len(),
        created_all(a, res, defs, n) is Ok,
    ensures
        ({
            let b = created_all(a, res, defs, n)->Ok_0;
            &&& b.linked()
            &&& b.themes.len() == a.themes.len() + nodes_of_all(defs, n)
            &&& forall|h: int| 0 <= h < a.themes.len() ==> b.themes[h] == a.themes[h]
            &&& forall|i: int|
                0 <= i < n ==> describes(
                    (#[trigger] defs[i]).1,
                    res,
                    defs[i].0,
                    defs[i].0,
                    subtree_of(b.themes, (a.themes.len() + nodes_of_all(defs, i as nat)) as int),
                )
        }),
    decreases n,
{
    if n > 0 {
        let before = created_all(a, res, defs, (n - 1) as nat)->Ok_0;
        let b = created_all(a, res, defs, n)->Ok_0;
        creating_all(a, res, defs, (n - 1) as nat);
        creating(before, res, None, defs[n - 1].0, defs[n - 1].1);
        assert(b == created(before, res, None, defs[n - 1].0, defs[n - 1].1)->Ok_0);
        assert(b.themes.len() == a.themes.len() + nodes_of_all(defs, n));
        assert forall|h: int| 0 <= h < a.themes.len() implies b.themes[h] == a.themes[h] by {
            assert(before.themes[h] == a.themes[h]);
        }
        assert forall|i: int| 0 <= i < n implies describes(
            (#[trigger] defs[i]).1,
            res,
            defs[i].0,
            defs[i].0,
            subtree_of(b.themes, (a.themes.len() + nodes_of_all(defs, i as nat)) as int),
        ) by {
            let root = (a.themes.len() + nodes_of_all(defs, i as nat)) as int;
            if i < n - 1 {
                earlier_root(defs, i as nat, (n - 1) as nat);
                assert(0 <= root < before.themes.len());
                assert(subtree_of(b.themes, root) == subtree_of(before.themes, root)) by {
                    subtree_stable(before, b, root);
                }
            } else {
                assert(root == before.themes.len());
            }
        }
    }
}

/// The widgets of the first definitions are fewer than those of more
/// definitions.
proof fn earlier_root(defs: Seq<(Seq<char>, WidgetThemeDefinitionView)>, i: nat, n: nat)
    requires
        i < n <= defs.len(),
    ensures
        nodes_of_all(defs, i) < nodes_of_all(defs, n),
    decreases n,
{
    assert(nodes(defs[n - 1].1) >= 1);
    if i < n - 1 {
        earlier_root(defs, i, (n - 1) as nat);
    }
}

/// A widget whose definition has no `from`, at any depth, adds no pending
/// reference to the arena: a record of the new arena in which one is pending
/// is a record that the arena had, with the same reference.
pub proof fn creating_adds_no_reference(
    a: ArenaView,
    res: ResourcesView,
    parent: Option<int>,
    id: Seq<char>,
    def: WidgetThemeDefinitionView,
)
    requires
        a.linked(),
        parent matches Some(p) ==> 0 <= p < a.themes.len(),
        created(a, res, parent, id, def) is Ok,
        unreferenced(def),
    ensures
        forall|h: int|
            0 <= h < created(a, res, parent, id, def)->Ok_0.themes.len() && (
            #[trigger] created(a, res, parent, id, def)->Ok_0.themes[h]).from is Some ==> h
                < a.themes.len() && a.themes[h].from is Some,
    decreases def, 1nat, 0nat,
{
    let handle = a.themes.len() as int;
    let record = first_record(def, bindings(res, def), handle, parent, id, a.path(parent, id));
    let placed = a.placed(record);
    placing_keeps_links(a, record);
    creating_children_add_no_reference(placed, res, handle, def, def.children.len());
    let b = created(a, res, parent, id, def)->Ok_0;
    assert forall|h: int| 0 <= h < b.themes.len() && (#[trigger] b.themes[h]).from is Some implies h
        < a.themes.len() && a.themes[h].from is Some by {
        assert(h < placed.themes.len() && placed.themes[h].from is Some);
    }
}

/// The first `n` children of a definition without any `from` add no
/// pending reference to the arena.
pub proof fn creating_children_add_no_reference(
    a: ArenaView,
    res: ResourcesView,
    handle: int,
    def: WidgetThemeDefinitionView,
    n: nat,
)
    requires
        a.linked(),
        0 <= handle < a.themes.len(),
        n <= def.children.len(),
        created_children(a, res, handle, def, n) is Ok,
        unreferenced(def),
    ensures
        forall|h: int|
            0 <= h < created_children(a, res, handle, def, n)->Ok_0.themes.len() && (
            #[trigger] created_children(a, res, handle, def, n)->Ok_0.themes[h]).from is Some ==> h
                < a.themes.len() && a.themes[h].from is Some,
    decreases def, 0nat, n,
{
    if n > 0 {
        let before = created_children(a, res, handle, def, (n - 1) as nat)->Ok_0;
        creating_children_add_no_reference(a, res, handle, def, (n - 1) as nat);
        creating_children(a, res, handle, def, (n - 1) as nat);
        assert(unreferenced(def.children[n - 1].1));
        creating_adds_no_reference(
            before,
            res,
            Some(handle),
            def.children[n - 1].0,
            def.children[n - 1].1,
        );
        let b = created_children(a, res, handle, def, n)->Ok_0;
        assert forall|h: int| 0 <= h < b.themes.len() && (#[trigger] b.themes[h]).from is Some implies h
            < a.themes.len() && a.themes[h].from is Some by {
            assert(h < before.themes.len() && before.themes[h].from is Some);
        }
    }
}

/// Top-level widgets whose definitions have no `from`, at any depth, add no
/// pending reference to the arena.
pub proof fn creating_all_add_no_reference(
    a: ArenaView,
    res: ResourcesView,
    defs: Seq<(Seq<char>, WidgetThemeDefinitionView)>,
    n: nat,
)
    requires
        a.linked(),
        n <= defs.len(),
        created_all(a, res, defs, n) is Ok,
        forall|i: int| 0 <= i < defs.len() ==> unreferenced((#[trigger] defs[i]).1),
    ensures
        forall|h: int|
            0 <= h < created_all(a, res, defs, n)->Ok_0.themes.len() && (#[trigger] created_all(
                a,
                res,
                defs,
                n,
            )->Ok_0.themes[h]).from is Some ==> h < a.themes.len() && a.themes[h].from is Some,
    decreases n,
{
    if n > 0 {
        let before = created_all(a, res, defs, (n - 1) as nat)->Ok_0;
        creating_all_add_no_reference(a, res, defs, (n - 1) as nat);
        creating_all(a, res, defs, (n - 1) as nat);
        assert(unreferenced(defs[n - 1].1));
        creating_adds_no_reference(before, res, None, defs[n - 1].0, defs[n - 1].1);
        let b = created_all(a, res, defs, n)->Ok_0;
        assert forall|h: int| 0 <= h < b.themes.len() && (#[trigger] b.themes[h]).from is Some implies h
            < a.themes.len() && a.themes[h].from is Some by {
            assert(h < before.themes.len() && before.themes[h].from is Some);
        }
    }
}

} // verus!

//! What inheritance changes in an arena and what it leaves alone.

use vstd::prelude::*;
use crate::arena::{clearing_keeps_links, inheriting_keeps_links, placing_keeps_links, ArenaView};
use crate::inherit::{
    any_named,
    copy_below,
    first_named,
    grafted,
    grafted_children,
    grafted_missing,
    merged,
    merged_children,
    subtree_of,
    SubtreeView,
};
use crate::resolve::{has_pending, pass, resolved, resolved_at};
use crate::widget_theme::{inherited, or_else, WidgetThemeView};

verus! {

/// Two records agree in everything but their place in the arena: their
/// local id, their pending reference and every style field are the same.
pub open spec fn same_fields(a: WidgetThemeView, b: WidgetThemeView) -> bool {
    a == (WidgetThemeView {
        full_id: a.full_id,
        handle: a.handle,
        parent_handle: a.parent_handle,
        children: a.children,
        ..b
    })
}

/// Two subtrees have the same shape, and records that stand at the same
/// place in them agree in everything but their place in the arena.
pub open spec fn same_content(a: SubtreeView, b: SubtreeView) -> bool
    decreases a,
{
    &&& same_fields(a.theme, b.theme)
    &&& a.children.len() == b.children.len()
    &&& forall|i: int| 0 <= i < a.children.len() ==> same_content(a.children[i], b.children[i])
}

/// A subtree is the same in two arenas that agree from its root on.
pub proof fn subtree_stable(a: ArenaView, b: ArenaView, root: int)
    requires
        a.linked(),
        0 <= root < a.themes.len() <= b.themes.len(),
        forall|h: int| root <= h < a.themes.len() ==> b.themes[h] == a.themes[h],
    ensures
        subtree_of(b.themes, root) == subtree_of(a.themes, root),
    decreases a.themes.len() - root,
{
    let kids = a.themes[root].children;
    assert forall|i: int| 0 <= i < kids.len() implies subtree_of(b.themes, kids[i]) == subtree_of(
        a.themes,
        kids[i],
    ) by {
        assert(root < a.themes[root].children[i] < a.themes.len());
        subtree_stable(a, b, kids[i]);
    }
    assert forall|i: int| 0 <= i < kids.len() implies root < #[trigger] kids[i]
        < a.themes.len() by {
        assert(root < a.themes[root].children[i] < a.themes.len());
    }
    assert(subtree_of(b.themes, root).children =~= subtree_of(a.themes, root).children);
}

/// What copying a subtree below a record changes. Every record that the
/// arena had stays as it is, but for the record at `to`, which gets one more
/// child: the root of the copy, at the first handle that was free. The copy
/// has the shape of `src`, and its records agree with those of `src` in
/// everything but their place in the arena.
pub proof fn grafting(a: ArenaView, src: SubtreeView, to: int)
    requires
        a.linked(),
        0 <= to < a.themes.len(),
    ensures
        ({
            let b = grafted(a, src, to);
            &&& b.linked()
            &&& b.themes.len() > a.themes.len()
            &&& forall|h: int| 0 <= h < a.themes.len() && h != to ==> b.themes[h] == a.themes[h]
            &&& b.themes[to] == a.with_child(to, a.themes.len() as int).themes[to]
            &&& same_content(subtree_of(b.themes, a.themes.len() as int), src)
        }),
    decreases src, 1nat, 0nat,
{
    let handle = a.themes.len() as int;
    let record = copy_below(a, src.theme, to);
    let placed = a.placed(record);
    placing_keeps_links(a, record);
    grafting_children(placed, src, handle, src.children.len());
    let b = grafted(a, src, to);
    assert(b == grafted_children(placed, src, handle, src.children.len()));
    assert forall|h: int| 0 <= h < a.themes.len() && h != to implies b.themes[h] == a.themes[h] by {
        assert(b.themes[h] == placed.themes[h]);
    }
    assert(b.themes[to] == placed.themes[to]);
    let copy = subtree_of(b.themes, handle);
    assert(copy.children.len() == src.children.len());
    assert forall|i: int| 0 <= i < copy.children.len() implies same_content(
        copy.children[i],
        src.children[i],
    ) by {
        let child = b.themes[handle].children[0 + i];
        assert(handle < child < b.themes.len());
    }
}

/// What copying the first `n` children of `src` below the record at `to`
/// changes: the record at `to` gets `n` more children, and nothing else that
/// the arena had changes.
pub proof fn grafting_children(a: ArenaView, src: SubtreeView, to: int, n: nat)
    requires
        a.linked(),
        0 <= to < a.themes.len(),
        n <= src.children.len(),
    ensures
        ({
            let b = grafted_children(a, src, to, n);
            let had = a.themes[to].children.len() as int;
            &&& b.linked()
            &&& b.themes.len() >= a.themes.len()
            &&& forall|h: int| 0 <= h < a.themes.len() && h != to ==> b.themes[h] == a.themes[h]
            &&& b.themes[to] == (WidgetThemeView { children: b.themes[to].children, ..a.themes[to] })
            &&& b.themes[to].children.len() == had + n
            &&& b.themes[to].children.take(had) == a.themes[to].children
            &&& forall|i: int|
                0 <= i < n ==> a.themes.len() <= #[trigger] b.themes[to].children[had + i]
                    < b.themes.len() && same_content(
                    subtree_of(b.themes, b.themes[to].children[had + i]),
                    src.children[i],
                )
        }),
    decreases src, 0nat, n,
{
    let had = a.themes[to].children.len() as int;
    if n == 0 {
        assert(a.themes[to].children.take(had) =~= a.themes[to].children);
    } else {
        let before = grafted_children(a, src, to, (n - 1) as nat);
        grafting_children(a, src, to, (n - 1) as nat);
        grafting(before, src.children[n - 1], to);
        let b = grafted(before, src.children[n - 1], to);
        assert(b == grafted_children(a, src, to, n));
        assert(b.themes[to].children =~= before.themes[to].children.push(
            before.themes.len() as int,
        ));
        assert(b.themes[to].children.take(had) =~= before.themes[to].children.take(had));
        assert forall|i: int| 0 <= i < n implies a.themes.len() <= #[trigger] b.themes[to].children[had
            + i] < b.themes.len() && same_content(
            subtree_of(b.themes, b.themes[to].children[had + i]),
            src.children[i],
        ) by {
            if i < n - 1 {
                let child = before.themes[to].children[had + i];
                assert(b.themes[to].children[had + i] == child);
                assert forall|h: int| child <= h < before.themes.len() implies b.themes[h]
                    == before.themes[h] by {}
                subtree_stable(before, b, child);
            }
        }
    }
}

/// The list `first` is the beginning of the list `whole`.
pub open spec fn is_prefix(first: Seq<int>, whole: Seq<int>) -> bool {
    &&& first.len() <= whole.len()
    &&& forall|i: int| 0 <= i < first.len() ==> whole[i] == first[i]
}

/// The record `now` stands where the record `before` stood: it has the same
/// ids, handle and parent, and the children of `before` are its first
/// children.
pub open spec fn same_place(now: WidgetThemeView, before: WidgetThemeView) -> bool {
    &&& now.id == before.id
    &&& now.full_id == before.full_id
    &&& now.handle == before.handle
    &&& now.parent_handle == before.parent_handle
    &&& is_prefix(before.children, now.children)
}

/// Whatever the record `before` had set, a style field or a pending
/// reference, the record `now` has set to the same value.
pub open spec fn keeps_fields(now: WidgetThemeView, before: WidgetThemeView) -> bool {
    same_fields(now, inherited(before, now))
}

/// Every record of `a` stands in `b` where it stood in `a`, and has set in
/// `b`, to the same value, whatever it had set in `a`.
pub open spec fn keeps_places(a: ArenaView, b: ArenaView) -> bool {
    &&& a.themes.len() <= b.themes.len()
    &&& forall|h: int| 0 <= h < a.themes.len() ==> same_place(#[trigger] b.themes[h], a.themes[h])
    &&& forall|h: int| 0 <= h < a.themes.len() ==> keeps_fields(#[trigger] b.themes[h], a.themes[h])
}

/// What inheriting from a subtree changes. No record before the one at `to`
/// changes, and every record that the arena had keeps its place. The record
/// at `to` has every field that it had set, takes every other field from the
/// root of `src`, and keeps the children that it had as its first children.
pub proof fn merging(a: ArenaView, src: SubtreeView, to: int)
    requires
        a.linked(),
        0 <= to < a.themes.len(),
    ensures
        ({
            let b = merged(a, src, to);
            &&& b.linked()
            &&& keeps_places(a, b)
            &&& forall|h: int| 0 <= h < to ==> b.themes[h] == a.themes[h]
            &&& b.themes[to] == (WidgetThemeView {
                children: b.themes[to].children,
                ..inherited(a.themes[to], src.theme)
            })
        }),
    decreases src, 1nat, 0nat,
{
    let kids = a.themes[to].children;
    let start = a.with_inherited(to, src.theme);
    inheriting_keeps_links(a, to, src.theme);
    assert forall|i: int| 0 <= i < kids.len() implies to < #[trigger] kids[i] < start.themes.len() by {
        assert(to < a.themes[to].children[i] < a.themes.len());
    }
    merging_children(start, src, kids, kids.len(), to);
    let met = merged_children(start, src, kids, kids.len());
    grafting_missing(met, src, kids, to, src.children.len());
    let b = grafted_missing(met, src, kids, to, src.children.len());
    assert(b == merged(a, src, to));
    assert forall|h: int| 0 <= h < a.themes.len() implies same_place(
        #[trigger] b.themes[h],
        a.themes[h],
    ) by {
        assert(same_place(met.themes[h], start.themes[h]));
        assert(same_place(b.themes[h], met.themes[h]));
    }
    assert forall|h: int| 0 <= h < to implies b.themes[h] == a.themes[h] by {
        assert(met.themes[h] == start.themes[h]);
    }
}

/// What it changes that the first `n` of the records at `kids`, which all
/// stand behind the record at `to`, inherit from the children of `src`: no
/// record up to the one at `to`, and the place of no record.
pub proof fn merging_children(a: ArenaView, src: SubtreeView, kids: Seq<int>, n: nat, to: int)
    requires
        a.linked(),
        0 <= to,
        n <= kids.len(),
        forall|i: int| 0 <= i < kids.len() ==> to < #[trigger] kids[i] < a.themes.len(),
    ensures
        ({
            let b = merged_children(a, src, kids, n);
            &&& b.linked()
            &&& keeps_places(a, b)
            &&& forall|h: int| 0 <= h <= to ==> b.themes[h] == a.themes[h]
        }),
    decreases src, 0nat, n,
{
    if n > 0 {
        let before = merged_children(a, src, kids, (n - 1) as nat);
        merging_children(a, src, kids, (n - 1) as nat, to);
        let kid = kids[n - 1];
        match first_named(src.children, before.themes[kid].id) {
            Some(j) => {
                if 0 <= j < src.children.len() {
                    merging(before, src.children[j], kid);
                    let b = merged(before, src.children[j], kid);
                    assert forall|h: int| 0 <= h < a.themes.len() implies same_place(
                        #[trigger] b.themes[h],
                        a.themes[h],
                    ) by {
                        assert(same_place(before.themes[h], a.themes[h]));
                        assert(same_place(b.themes[h], before.themes[h]));
                    }
                }
            },
            None => {},
        }
    }
}

/// What it changes that those of the first `n` children of `src` that none
/// of the records at `kids` is named like are copied below the record at
/// `to`: that record gets more children, and nothing else that the arena had
/// changes.
pub proof fn grafting_missing(a: ArenaView, src: SubtreeView, kids: Seq<int>, to: int, n: nat)
    requires
        a.linked(),
        0 <= to < a.themes.len(),
        n <= src.children.len(),
    ensures
        ({
            let b = grafted_missing(a, src, kids, to, n);
            &&& b.linked()
            &&& keeps_places(a, b)
            &&& forall|h: int| 0 <= h < a.themes.len() && h != to ==> b.themes[h] == a.themes[h]
            &&& b.themes[to] == (WidgetThemeView { children: b.themes[to].children, ..a.themes[to] })
        }),
    decreases src, 0nat, n,
{
    if n > 0 {
        let before = grafted_missing(a, src, kids, to, (n - 1) as nat);
        grafting_missing(a, src, kids, to, (n - 1) as nat);
        if !any_named(before.themes, kids, src.children[n - 1].theme.id) {
            grafting(before, src.children[n - 1], to);
            let b = grafted(before, src.children[n - 1], to);
            assert forall|h: int| 0 <= h < a.themes.len() implies same_place(
                #[trigger] b.themes[h],
                a.themes[h],
            ) by {
                assert(same_place(before.themes[h], a.themes[h]));
            }
        }
    }
}

/// One of the children of the record at `h` has the local id `id`.
pub open spec fn has_child(themes: Seq<WidgetThemeView>, h: int, id: Seq<char>) -> bool {
    any_named(themes, themes[h].children, id)
}

/// The root of one of `children` has the local id `id`.
pub open spec fn names(children: Seq<SubtreeView>, id: Seq<char>) -> bool {
    exists|j: int| 0 <= j < children.len() && (#[trigger] children[j]).theme.id == id
}

/// The subtree below the `i`-th child of the record at `h` has the shape
/// and the field values of `tree`.
pub open spec fn is_copy_at(themes: Seq<WidgetThemeView>, h: int, i: int, tree: SubtreeView) -> bool {
    &&& 0 <= i < themes[h].children.len()
    &&& same_content(subtree_of(themes, themes[h].children[i]), tree)
}

/// The subtree below one of the children of the record at `h` has the shape
/// and the field values of `tree`.
pub open spec fn has_copy(themes: Seq<WidgetThemeView>, h: int, tree: SubtreeView) -> bool {
    exists|i: int| is_copy_at(themes, h, i, tree)
}

/// After a record has inherited from a subtree, it has a child of a given
/// local id exactly if it had one before or the root of the subtree has
/// one. Where only the root of the subtree has one, the record has a child
/// below which the subtree is a copy of the one below that child: of the same
/// shape, and with the same value in every field.
pub proof fn children_union(a: ArenaView, src: SubtreeView, to: int)
    requires
        a.linked(),
        0 <= to < a.themes.len(),
    ensures
        ({
            let b = merged(a, src, to);
            &&& forall|id: Seq<char>|
                has_child(b.themes, to, id) <==> has_child(a.themes, to, id) || names(
                    src.children,
                    id,
                )
            &&& forall|j: int|
                0 <= j < src.children.len() && !has_child(
                    a.themes,
                    to,
                    (#[trigger] src.children[j]).theme.id,
                ) ==> has_copy(b.themes, to, src.children[j])
        }),
{
    let kids = a.themes[to].children;
    let start = a.with_inherited(to, src.theme);
    inheriting_keeps_links(a, to, src.theme);
    assert forall|i: int| 0 <= i < kids.len() implies to < #[trigger] kids[i] < start.themes.len() by {
        assert(to < a.themes[to].children[i] < a.themes.len());
    }
    merging_children(start, src, kids, kids.len(), to);
    let met = merged_children(start, src, kids, kids.len());
    grafting_missing(met, src, kids, to, src.children.len());
    copies_of_missing(met, src, kids, to, src.children.len());
    let b = grafted_missing(met, src, kids, to, src.children.len());
    assert(b == merged(a, src, to));
    assert(met.themes[to].children == kids);
    assert(is_prefix(kids, b.themes[to].children));
    // the children that the record had keep their local ids
    assert forall|i: int| 0 <= i < kids.len() implies (#[trigger] b.themes[kids[i]]).id
        == a.themes[kids[i]].id && b.themes[to].children[i] == kids[i] by {
        assert(same_place(met.themes[kids[i]], start.themes[kids[i]]));
        assert(same_place(b.themes[kids[i]], met.themes[kids[i]]));
    }
    assert forall|id: Seq<char>| any_named(met.themes, kids, id) == any_named(
        a.themes,
        kids,
        id,
    ) by {
        if any_named(met.themes, kids, id) {
            let i = choose|i: int| 0 <= i < kids.len() && (#[trigger] met.themes[kids[i]]).id == id;
            assert(same_place(met.themes[kids[i]], start.themes[kids[i]]));
            assert(a.themes[kids[i]].id == id);
        }
        if any_named(a.themes, kids, id) {
            let i = choose|i: int| 0 <= i < kids.len() && (#[trigger] a.themes[kids[i]]).id == id;
            assert(same_place(met.themes[kids[i]], start.themes[kids[i]]));
            assert(met.themes[kids[i]].id == id);
        }
    }
    assert forall|id: Seq<char>|
        has_child(b.themes, to, id) <==> has_child(a.themes, to, id) || names(
            src.children,
            id,
        ) by {
        let now = b.themes[to].children;
        if has_child(b.themes, to, id) {
            let i = choose|i: int| 0 <= i < now.len() && (#[trigger] b.themes[now[i]]).id == id;
            if i < kids.len() {
                assert(b.themes[kids[i]].id == a.themes[kids[i]].id);
                assert(a.themes[kids[i]].id == id);
            } else {
                let all = src.children.take(src.children.len() as int);
                let j = choose|j: int|
                    0 <= j < all.len() && (#[trigger] all[j]).theme.id == b.themes[now[i]].id;
                assert(src.children[j].theme.id == id);
            }
        }
        if has_child(a.themes, to, id) {
            let i = choose|i: int| 0 <= i < kids.len() && (#[trigger] a.themes[kids[i]]).id == id;
            assert(b.themes[kids[i]].id == id);
            assert(b.themes[now[i]].id == id);
        } else if names(src.children, id) {
            let j = choose|j: int|
                0 <= j < src.children.len() && (#[trigger] src.children[j]).theme.id == id;
            assert(!any_named(met.themes, kids, src.children[j].theme.id));
            assert(has_copy(b.themes, to, src.children[j]));
            let i = choose|i: int| is_copy_at(b.themes, to, i, src.children[j]);
            assert(b.themes[now[i]].id == id);
        }
    }
    assert forall|j: int|
        0 <= j < src.children.len() && !has_child(
            a.themes,
            to,
            (#[trigger] src.children[j]).theme.id,
        ) implies has_copy(b.themes, to, src.children[j]) by {
        assert(!any_named(met.themes, kids, src.children[j].theme.id));
    }
}

/// Each child of `src` that is copied below the record at `to` is found
/// there, and each child that the record gets is such a copy.
pub proof fn copies_of_missing(a: ArenaView, src: SubtreeView, kids: Seq<int>, to: int, n: nat)
    requires
        a.linked(),
        0 <= to < a.themes.len(),
        n <= src.children.len(),
        forall|i: int| 0 <= i < kids.len() ==> to < #[trigger] kids[i] < a.themes.len(),
    ensures
        ({
            let b = grafted_missing(a, src, kids, to, n);
            let had = a.themes[to].children.len() as int;
            &&& forall|j: int|
                0 <= j < n && !any_named(a.themes, kids, (#[trigger] src.children[j]).theme.id)
                    ==> has_copy(b.themes, to, src.children[j])
            &&& forall|i: int|
                had <= i < b.themes[to].children.len() ==> names(
                    src.children.take(n as int),
                    (#[trigger] b.themes[b.themes[to].children[i]]).id,
                )
        }),
    decreases n,
{
    if n > 0 {
        let before = grafted_missing(a, src, kids, to, (n - 1) as nat);
        let last = src.children[n - 1];
        let had = a.themes[to].children.len() as int;
        copies_of_missing(a, src, kids, to, (n - 1) as nat);
        grafting_missing(a, src, kids, to, (n - 1) as nat);
        assert forall|id: Seq<char>| any_named(before.themes, kids, id) == any_named(
            a.themes,
            kids,
            id,
        ) by {
            if any_named(before.themes, kids, id) {
                let i = choose|i: int|
                    0 <= i < kids.len() && (#[trigger] before.themes[kids[i]]).id == id;
                assert(a.themes[kids[i]].id == id);
            }
            if any_named(a.themes, kids, id) {
                let i = choose|i: int| 0 <= i < kids.len() && (#[trigger] a.themes[kids[i]]).id == id;
                assert(before.themes[kids[i]].id == id);
            }
        }
        if !any_named(before.themes, kids, last.theme.id) {
            grafting(before, last, to);
            let b = grafted(before, last, to);
            let now = b.themes[to].children;
            let then = before.themes[to].children;
            assert(now =~= then.push(before.themes.len() as int));
            assert forall|j: int|
                0 <= j < n && !any_named(
                    a.themes,
                    kids,
                    (#[trigger] src.children[j]).theme.id,
                ) implies has_copy(b.themes, to, src.children[j]) by {
                if j < n - 1 {
                    let i = choose|i: int| is_copy_at(before.themes, to, i, src.children[j]);
                    assert(to < before.themes[to].children[i] < before.themes.len());
                    subtree_stable(before, b, then[i]);
                    assert(is_copy_at(b.themes, to, i, src.children[j]));
                } else {
                    assert(is_copy_at(b.themes, to, then.len() as int, last));
                }
            }
            assert forall|i: int| had <= i < now.len() implies names(
                src.children.take(n as int),
                (#[trigger] b.themes[now[i]]).id,
            ) by {
                if i < then.len() {
                    assert(to < before.themes[to].children[i] < before.themes.len());
                    assert(b.themes[now[i]] == before.themes[then[i]]);
                    let j = choose|j: int|
                        0 <= j < src.children.take(n - 1).len() && (#[trigger] src.children.take(
                            n - 1,
                        )[j]).theme.id == before.themes[then[i]].id;
                    assert(src.children.take(n as int)[j].theme.id == b.themes[now[i]].id);
                } else {
                    assert(same_fields(subtree_of(b.themes, now[i]).theme, last.theme));
                    assert(src.children.take(n as int)[n - 1].theme.id == b.themes[now[i]].id);
                }
            }
        } else {
            let now = before.themes[to].children;
            assert forall|i: int| had <= i < now.len() implies names(
                src.children.take(n as int),
                (#[trigger] before.themes[now[i]]).id,
            ) by {
                let j = choose|j: int|
                    0 <= j < src.children.take(n - 1).len() && (#[trigger] src.children.take(
                        n - 1,
                    )[j]).theme.id == before.themes[now[i]].id;
                assert(src.children.take(n as int)[j].theme.id == before.themes[now[i]].id);
            }
        }
    }
}

/// Of two optional values the first wins where it is set; the second is
/// taken where only it is set; and where neither is set, none is.
pub proof fn first_set_wins<T>(dest: Option<T>, source: Option<T>)
    ensures
        dest is Some ==> or_else(dest, source) == dest,
        dest is None && source is Some ==> or_else(dest, source) == source,
        dest is None && source is None ==> or_else(dest, source) is None,
{
}

/// After the record at `to` has inherited from the subtree `src`, each of
/// its style fields holds what the record had set in it, or else what the
/// root of `src` has set in it; and its pending reference is the one it had,
/// or else that of the root of `src`.
pub proof fn merge_precedence(a: ArenaView, src: SubtreeView, to: int)
    requires
        a.linked(),
        0 <= to < a.themes.len(),
    ensures
        ({
            let dest = a.themes[to];
            let source = src.theme;
            let now = merged(a, src, to).themes[to];
            &&& now.from == or_else(dest.from, source.from)
            &&& now.text == or_else(dest.text, source.text)
            &&& now.text_color == or_else(dest.text_color, source.text_color)
            &&& now.font == or_else(dest.font, source.font)
            &&& now.background == or_else(dest.background, source.background)
            &&& now.foreground == or_else(dest.foreground, source.foreground)
            &&& now.wants_mouse == or_else(dest.wants_mouse, source.wants_mouse)
            &&& now.wants_scroll == or_else(
                dest.wants_scroll,
                source.wants_scroll,
            )
            &&& now.text_align == or_else(dest.text_align, source.text_align)
            &&& now.pos == or_else(dest.pos, source.pos)
            &&& now.size == or_else(dest.size, source.size)
            &&& now.width_from == or_else(dest.width_from, source.width_from)
            &&& now.height_from == or_else(dest.height_from, source.height_from)
            &&& now.border == or_else(dest.border, source.border)
            &&& now.align == or_else(dest.align, source.align)
            &&& now.child_align == or_else(dest.child_align, source.child_align)
            &&& now.layout == or_else(dest.layout, source.layout)
            &&& now.layout_spacing == or_else(
                dest.layout_spacing,
                source.layout_spacing,
            )
        }),
{
    merging(a, src, to);
}

/// The record `now` stands where the record `before` stood and has set, to
/// the same value, every style field that `before` had set.
pub open spec fn keeps_style(now: WidgetThemeView, before: WidgetThemeView) -> bool {
    &&& same_place(now, before)
    &&& same_fields(
        WidgetThemeView { from: None, ..now },
        inherited(WidgetThemeView { from: None, ..before }, WidgetThemeView { from: None, ..now }),
    )
}

/// Every record of `a` stands in `b` where it stood in `a`, with every
/// style field that it had set in `a`.
pub open spec fn keeps_styles(a: ArenaView, b: ArenaView) -> bool {
    &&& a.themes.len() <= b.themes.len()
    &&& forall|h: int| 0 <= h < a.themes.len() ==> keeps_style(#[trigger] b.themes[h], a.themes[h])
}

/// A record whose reference is resolved has, in each style field, what it
/// had set there, or else what its source has set there; and no reference is
/// pending in it.
pub proof fn resolving_at_inherits(a: ArenaView, to: int)
    requires
        a.linked(),
        0 <= to < a.themes.len(),
        a.themes[to].from is Some,
        a.handles.contains_key(a.themes[to].from->0),
        a.themes[a.handles[a.themes[to].from->0]].from is None,
    ensures
        ({
            let from = a.handles[a.themes[to].from->0];
            let b = resolved_at(a, to)->Ok_0;
            &&& resolved_at(a, to) is Ok
            &&& b.themes[to] == (WidgetThemeView {
                from: None,
                children: b.themes[to].children,
                ..inherited(a.themes[to], a.themes[from])
            })
        }),
{
    let from = a.handles[a.themes[to].from->0];
    let cleared = a.with_from_cleared(to);
    clearing_keeps_links(a, to);
    merging(cleared, subtree_of(cleared.themes, from), to);
}

/// Resolving the record at `to` moves no record that the arena had and
/// changes no style field that is set in one.
pub proof fn resolving_at_keeps_styles(a: ArenaView, to: int)
    requires
        a.linked(),
        0 <= to < a.themes.len(),
        resolved_at(a, to) is Ok,
    ensures
        resolved_at(a, to)->Ok_0.linked(),
        keeps_styles(a, resolved_at(a, to)->Ok_0),
{
    match a.themes[to].from {
        None => {},
        Some(name) => {
            let from = a.handles[name];
            if a.themes[from].from is None {
                let cleared = a.with_from_cleared(to);
                clearing_keeps_links(a, to);
                merging(cleared, subtree_of(cleared.themes, from), to);
                let b = merged(cleared, subtree_of(cleared.themes, from), to);
                assert forall|h: int| 0 <= h < a.themes.len() implies keeps_style(
                    #[trigger] b.themes[h],
                    a.themes[h],
                ) by {
                    assert(same_place(b.themes[h], cleared.themes[h]));
                    assert(keeps_fields(b.themes[h], cleared.themes[h]));
                }
            }
        },
    }
}

/// Keeping places and styles from one arena to the next goes on from the
/// first to the last.
pub proof fn keeps_styles_on(a: ArenaView, b: ArenaView, c: ArenaView)
    requires
        keeps_styles(a, b),
        keeps_styles(b, c),
    ensures
        keeps_styles(a, c),
{
    assert forall|h: int| 0 <= h < a.themes.len() implies keeps_style(
        #[trigger] c.themes[h],
        a.themes[h],
    ) by {
        assert(keeps_style(b.themes[h], a.themes[h]));
        assert(keeps_style(c.themes[h], b.themes[h]));
    }
}

/// A pass moves no record that the arena had and changes no style field
/// that is set in one.
pub proof fn pass_keeps_styles(a: ArenaView, n: nat)
    requires
        a.linked(),
        n <= a.themes.len(),
        pass(a, n) is Ok,
    ensures
        pass(a, n)->Ok_0.linked(),
        keeps_styles(a, pass(a, n)->Ok_0),
    decreases n,
{
    if n > 0 {
        let before = pass(a, (n - 1) as nat)->Ok_0;
        pass_keeps_styles(a, (n - 1) as nat);
        resolving_at_keeps_styles(before, n - 1);
        keeps_styles_on(a, before, resolved_at(before, n - 1)->Ok_0);
    }
}

/// Resolution moves no record that the arena had and changes no style field
/// that is set in one: what an author has set, or what a record has once
/// inherited, no later merge takes away.
pub proof fn resolving_keeps_styles(a: ArenaView, passes: nat)
    requires
        a.linked(),
        resolved(a, passes) is Ok,
    ensures
        keeps_styles(a, resolved(a, passes)->Ok_0),
    decreases passes,
{
    if has_pending(a) && passes > 0 {
        let next = pass(a, a.themes.len())->Ok_0;
        pass_keeps_styles(a, a.themes.len());
        resolving_keeps_styles(next, (passes - 1) as nat);
        keeps_styles_on(a, next, resolved(a, passes)->Ok_0);
    }
}

/// Keeping places and fields from one arena to the next goes on from the
/// first to the last.
pub proof fn keeps_places_on(a: ArenaView, b: ArenaView, c: ArenaView)
    requires
        keeps_places(a, b),
        keeps_places(b, c),
    ensures
        keeps_places(a, c),
{
    assert forall|h: int| 0 <= h < a.themes.len() implies same_place(
        #[trigger] c.themes[h],
        a.themes[h],
    ) && keeps_fields(c.themes[h], a.themes[h]) by {
        assert(same_place(b.themes[h], a.themes[h]));
        assert(same_place(c.themes[h], b.themes[h]));
        assert(keeps_fields(b.themes[h], a.themes[h]));
        assert(keeps_fields(c.themes[h], b.themes[h]));
    }
}

/// Placing a record moves no record that the arena had and changes no
/// field of one.
pub proof fn placing_keeps_places(a: ArenaView, record: WidgetThemeView)
    requires
        record.parent_handle matches Some(p) ==> 0 <= p < a.themes.len(),
    ensures
        keeps_places(a, a.placed(record)),
{
    let b = a.placed(record);
    assert forall|h: int| 0 <= h < a.themes.len() implies same_place(
        #[trigger] b.themes[h],
        a.themes[h],
    ) && keeps_fields(b.themes[h], a.themes[h]) by {}
}

} // verus!

//! What stands below a record, and that a merge changes nothing else:
//! in particular not the source that it copies from.

use vstd::prelude::*;
use crate::arena::ArenaView;
use crate::frames::{grafting_missing, keeps_places, merging, merging_children, same_place};
use crate::inherit::{first_named, merged, merged_children, subtree_of, SubtreeView};
use crate::sound::{
    inheriting_keeps_sound,
    merging_children_keeps_sound,
    sound,
    subtree_is_tidy,
    tidy,
};

verus! {

/// The record at `h` is the record at `root` or stands below it: `root` is
/// found on the way from `h` up through the parents.
pub open spec fn is_below(a: ArenaView, root: int, h: int) -> bool
    decreases h,
{
    h == root || (a.themes[h].parent_handle matches Some(p) && 0 <= p < h && is_below(a, root, p))
}

/// Of two records that a third one stands below, one stands below the
/// other.
pub proof fn one_way_up(a: ArenaView, x: int, y: int, h: int)
    requires
        is_below(a, x, h),
        is_below(a, y, h),
    ensures
        is_below(a, x, y) || is_below(a, y, x),
    decreases h,
{
    if h != x && h != y {
        one_way_up(a, x, y, a.themes[h].parent_handle->0);
    }
}

/// What stands below a child of a record stands below the record.
pub proof fn below_the_parent(a: ArenaView, root: int, child: int, h: int)
    requires
        a.themes[child].parent_handle == Some(root),
        0 <= root < child,
        is_below(a, child, h),
    ensures
        is_below(a, root, h),
    decreases h,
{
    if h != child {
        below_the_parent(a, root, child, a.themes[h].parent_handle->0);
    } else {
        assert(is_below(a, root, root));
    }
}

/// What stood below a record before records kept their places still does,
/// if it was there before.
proof fn below_as_before(a: ArenaView, b: ArenaView, root: int, h: int)
    requires
        keeps_places(a, b),
        0 <= h < a.themes.len(),
        is_below(b, root, h),
    ensures
        is_below(a, root, h),
    decreases h,
{
    assert(same_place(b.themes[h], a.themes[h]));
    if h != root {
        below_as_before(a, b, root, b.themes[h].parent_handle->0);
    }
}

/// A subtree is the same in two arenas that agree on the records below its
/// root.
pub proof fn subtree_same(a: ArenaView, b: ArenaView, root: int)
    requires
        sound(a),
        0 <= root < a.themes.len() <= b.themes.len(),
        forall|h: int|
            0 <= h < a.themes.len() && is_below(a, root, h) ==> #[trigger] b.themes[h]
                == a.themes[h],
    ensures
        subtree_of(b.themes, root) == subtree_of(a.themes, root),
    decreases a.themes.len() - root,
{
    let kids = a.themes[root].children;
    assert(is_below(a, root, root));
    assert(b.themes[root] == a.themes[root]);
    assert forall|i: int| 0 <= i < kids.len() implies root < #[trigger] kids[i] < a.themes.len()
        && subtree_of(b.themes, kids[i]) == subtree_of(a.themes, kids[i]) by {
        let kid = kids[i];
        assert(root < a.themes[root].children[i] < a.themes.len());
        assert(a.themes[a.themes[root].children[i]].parent_handle == Some(root));
        assert forall|h: int| 0 <= h < a.themes.len() && is_below(a, kid, h) implies #[trigger] b.themes[h]
            == a.themes[h] by {
            below_the_parent(a, root, kid, h);
        }
        subtree_same(a, b, kid);
    }
    assert(subtree_of(b.themes, root).children =~= subtree_of(a.themes, root).children);
}

/// A record that inherits from a tidy subtree changes nothing but itself
/// and what stands below it: every other record that the arena had stays as
/// it is.
pub proof fn merging_stays_below(a: ArenaView, src: SubtreeView, to: int)
    requires
        sound(a),
        0 <= to < a.themes.len(),
        tidy(src),
    ensures
        forall|h: int|
            0 <= h < a.themes.len() && !is_below(a, to, h) ==> #[trigger] merged(
                a,
                src,
                to,
            ).themes[h] == a.themes[h],
    decreases src, 1nat, 0nat,
{
    let kids = a.themes[to].children;
    let start = a.with_inherited(to, src.theme);
    inheriting_keeps_sound(a, to, src.theme);
    assert forall|i: int| 0 <= i < kids.len() implies to < #[trigger] kids[i] < start.themes.len()
        && start.themes[kids[i]].parent_handle == Some(to) by {
        assert(to < a.themes[to].children[i] < a.themes.len());
        assert(a.themes[a.themes[to].children[i]].parent_handle == Some(to));
    }
    merging_children_stays_below(start, src, kids, kids.len(), to);
    merging_children_keeps_sound(start, src, kids, kids.len(), to);
    merging_children(start, src, kids, kids.len(), to);
    let met = merged_children(start, src, kids, kids.len());
    grafting_missing(met, src, kids, to, src.children.len());
    let b = merged(a, src, to);
    assert forall|h: int| 0 <= h < a.themes.len() && !is_below(a, to, h) implies #[trigger] b.themes[h]
        == a.themes[h] by {
        assert(is_below(a, to, to));
        assert(same_place(start.themes[h], a.themes[h]));
        if is_below(start, to, h) {
            same_places_keep_below(a, start, to, h);
        }
        assert(met.themes[h] == start.themes[h]);
    }
}

/// What stood below a record still does where every record has the parent
/// that it had.
proof fn same_places_keep_below(a: ArenaView, b: ArenaView, root: int, h: int)
    requires
        a.themes.len() == b.themes.len(),
        forall|k: int|
            0 <= k < a.themes.len() ==> (#[trigger] b.themes[k]).parent_handle
                == a.themes[k].parent_handle,
        0 <= h < a.themes.len(),
        is_below(b, root, h),
    ensures
        is_below(a, root, h),
    decreases h,
{
    assert(b.themes[h].parent_handle == a.themes[h].parent_handle);
    if h != root {
        same_places_keep_below(a, b, root, b.themes[h].parent_handle->0);
    }
}

/// That the first `n` of the children `kids` of the record at `to` inherit
/// changes no record that does not stand below the record at `to`.
proof fn merging_children_stays_below(
    a: ArenaView,
    src: SubtreeView,
    kids: Seq<int>,
    n: nat,
    to: int,
)
    requires
        sound(a),
        tidy(src),
        0 <= to,
        n <= kids.len(),
        forall|i: int|
            0 <= i < kids.len() ==> to < #[trigger] kids[i] < a.themes.len()
                && a.themes[kids[i]].parent_handle == Some(to),
    ensures
        forall|h: int|
            0 <= h < a.themes.len() && !is_below(a, to, h) ==> #[trigger] merged_children(
                a,
                src,
                kids,
                n,
            ).themes[h] == a.themes[h],
    decreases src, 0nat, n,
{
    if n > 0 {
        let before = merged_children(a, src, kids, (n - 1) as nat);
        merging_children_stays_below(a, src, kids, (n - 1) as nat, to);
        merging_children_keeps_sound(a, src, kids, (n - 1) as nat, to);
        merging_children(a, src, kids, (n - 1) as nat, to);
        let kid = kids[n - 1];
        match first_named(src.children, before.themes[kid].id) {
            Some(j) => {
                if 0 <= j < src.children.len() {
                    merging_stays_below(before, src.children[j], kid);
                    let b = merged(before, src.children[j], kid);
                    assert forall|h: int|
                        0 <= h < a.themes.len() && !is_below(a, to, h) implies #[trigger] b.themes[h]
                        == a.themes[h] by {
                        if is_below(before, kid, h) {
                            below_as_before(a, before, kid, h);
                            below_the_parent(a, to, kid, h);
                        }
                        assert(before.themes[h] == a.themes[h]);
                    }
                }
            },
            None => {},
        }
    }
}

/// Where neither of two records stands below the other, the subtree at
/// `from` is left as it is when the record at `to` inherits from it: the
/// source of a merge is never changed by the merge.
pub proof fn source_is_left_alone(a: ArenaView, from: int, to: int)
    requires
        sound(a),
        0 <= from < a.themes.len(),
        0 <= to < a.themes.len(),
        !is_below(a, to, from),
        !is_below(a, from, to),
    ensures
        subtree_of(merged(a, subtree_of(a.themes, from), to).themes, from) == subtree_of(
            a.themes,
            from,
        ),
{
    let src = subtree_of(a.themes, from);
    let b = merged(a, src, to);
    subtree_is_tidy(a, from);
    merging_stays_below(a, src, to);
    merging(a, src, to);
    assert forall|h: int| 0 <= h < a.themes.len() && is_below(a, from, h) implies #[trigger] b.themes[h]
        == a.themes[h] by {
        if is_below(a, to, h) {
            one_way_up(a, from, to, h);
        }
    }
    subtree_same(a, b, from);
}

} // verus!

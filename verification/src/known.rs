//! Where the pending references of an arena come from, and that references
//! that name indexed paths still do so after any step of the resolution.

use vstd::prelude::*;
use crate::arena::{clearing_keeps_links, inheriting_keeps_links, placing_keeps_links, ArenaView};
use crate::frames::{
    grafting_children,
    grafting_missing,
    merging,
    merging_children,
    same_place,
};
use crate::inherit::{
    any_named,
    copy_below,
    first_named,
    grafted,
    grafted_children,
    grafted_missing,
    merged,
    merged_children,
    subtree_of,
    SubtreeView,
};
use crate::resolve::{pass, resolved_at};
use crate::sound::{pass_keeps_sound, resolving_at_keeps_sound, sound};

verus! {

/// The root of the subtree, or a record below it, has a pending reference
/// to the path `name`.
pub open spec fn refers(src: SubtreeView, name: Seq<char>) -> bool
    decreases src,
{
    src.theme.from == Some(name) || exists|i: int|
        0 <= i < src.children.len() && refers(#[trigger] src.children[i], name)
}

/// The record at `h` of `b` has a pending reference that it had in `a`, or
/// one that the subtree `src` holds, or none.
pub open spec fn reference_from(a: ArenaView, src: SubtreeView, b: ArenaView, h: int) -> bool {
    b.themes[h].from is Some ==> (h < a.themes.len() && a.themes[h].from == b.themes[h].from)
        || refers(src, b.themes[h].from->0)
}

/// A pending reference in a subtree of the arena is the pending reference
/// of a record of the arena.
pub proof fn reference_of_a_record(a: ArenaView, root: int, name: Seq<char>)
    requires
        a.linked(),
        0 <= root < a.themes.len(),
        refers(subtree_of(a.themes, root), name),
    ensures
        exists|h: int| 0 <= h < a.themes.len() && (#[trigger] a.themes[h]).from == Some(name),
    decreases a.themes.len() - root,
{
    let tree = subtree_of(a.themes, root);
    if tree.theme.from == Some(name) {
        assert(a.themes[root].from == Some(name));
    } else {
        let i = choose|i: int| 0 <= i < tree.children.len() && refers(#[trigger] tree.children[i], name);
        let kid = a.themes[root].children[i];
        assert(root < kid < a.themes.len());
        reference_of_a_record(a, kid, name);
    }
}

/// After a subtree has been copied below a record, every pending reference
/// is one that its record had before or one that the subtree holds.
pub proof fn references_of_grafted(a: ArenaView, src: SubtreeView, to: int)
    requires
        a.linked(),
        0 <= to < a.themes.len(),
    ensures
        forall|h: int|
            0 <= h < grafted(a, src, to).themes.len() ==> #[trigger] reference_from(
                a,
                src,
                grafted(a, src, to),
                h,
            ),
    decreases src, 1nat, 0nat,
{
    let handle = a.themes.len() as int;
    let record = copy_below(a, src.theme, to);
    let placed = a.placed(record);
    placing_keeps_links(a, record);
    references_of_grafted_children(placed, src, handle, src.children.len());
    let b = grafted(a, src, to);
    assert(b == grafted_children(placed, src, handle, src.children.len()));
    assert forall|h: int| 0 <= h < b.themes.len() implies #[trigger] reference_from(a, src, b, h) by {
        assert(reference_from(placed, src, b, h));
        if b.themes[h].from is Some && h < placed.themes.len() && placed.themes[h].from
            == b.themes[h].from {
            if h == handle {
                assert(src.theme.from == b.themes[h].from);
            }
        }
    }
}

/// After the first `n` children of a subtree have been copied below a
/// record, every pending reference is one that its record had before or one
/// that the subtree holds.
pub proof fn references_of_grafted_children(a: ArenaView, src: SubtreeView, to: int, n: nat)
    requires
        a.linked(),
        0 <= to < a.themes.len(),
        n <= src.children.len(),
    ensures
        forall|h: int|
            0 <= h < grafted_children(a, src, to, n).themes.len() ==> #[trigger] reference_from(
                a,
                src,
                grafted_children(a, src, to, n),
                h,
            ),
    decreases src, 0nat, n,
{
    if n > 0 {
        let before = grafted_children(a, src, to, (n - 1) as nat);
        let last = src.children[n - 1];
        references_of_grafted_children(a, src, to, (n - 1) as nat);
        grafting_children(a, src, to, (n - 1) as nat);
        references_of_grafted(before, last, to);
        let b = grafted(before, last, to);
        assert forall|h: int| 0 <= h < b.themes.len() implies #[trigger] reference_from(a, src, b, h) by {
            assert(reference_from(before, last, b, h));
            if b.themes[h].from is Some {
                if h < before.themes.len() && before.themes[h].from == b.themes[h].from {
                    assert(reference_from(a, src, before, h));
                } else {
                    assert(refers(src.children[n - 1], b.themes[h].from->0));
                }
            }
        }
    }
}

/// After a record has inherited from a subtree, every pending reference is
/// one that its record had before or one that the subtree holds.
pub proof fn references_of_merged(a: ArenaView, src: SubtreeView, to: int)
    requires
        a.linked(),
        0 <= to < a.themes.len(),
    ensures
        forall|h: int|
            0 <= h < merged(a, src, to).themes.len() ==> #[trigger] reference_from(
                a,
                src,
                merged(a, src, to),
                h,
            ),
    decreases src, 1nat, 0nat,
{
    let kids = a.themes[to].children;
    let start = a.with_inherited(to, src.theme);
    inheriting_keeps_links(a, to, src.theme);
    assert forall|i: int| 0 <= i < kids.len() implies to < #[trigger] kids[i] < start.themes.len() by {
        assert(to < a.themes[to].children[i] < a.themes.len());
    }
    references_of_merged_children(start, src, kids, kids.len(), to);
    merging_children(start, src, kids, kids.len(), to);
    let met = merged_children(start, src, kids, kids.len());
    references_of_grafted_missing(met, src, kids, to, src.children.len());
    let b = merged(a, src, to);
    assert(b == grafted_missing(met, src, kids, to, src.children.len()));
    assert forall|h: int| 0 <= h < b.themes.len() implies #[trigger] reference_from(a, src, b, h) by {
        assert(reference_from(met, src, b, h));
        if b.themes[h].from is Some && h < met.themes.len() && met.themes[h].from
            == b.themes[h].from {
            assert(reference_from(start, src, met, h));
        }
    }
}

/// After the first `n` of the records at `kids` have inherited from the
/// children of a subtree, every pending reference is one that its record had
/// before or one that the subtree holds.
pub proof fn references_of_merged_children(
    a: ArenaView,
    src: SubtreeView,
    kids: Seq<int>,
    n: nat,
    to: int,
)
    requires
        a.linked(),
        0 <= to,
        n <= kids.len(),
        forall|i: int| 0 <= i < kids.len() ==> to < #[trigger] kids[i] < a.themes.len(),
    ensures
        forall|h: int|
            0 <= h < merged_children(a, src, kids, n).themes.len() ==> #[trigger] reference_from(
                a,
                src,
                merged_children(a, src, kids, n),
                h,
            ),
    decreases src, 0nat, n,
{
    if n > 0 {
        let before = merged_children(a, src, kids, (n - 1) as nat);
        references_of_merged_children(a, src, kids, (n - 1) as nat, to);
        merging_children(a, src, kids, (n - 1) as nat, to);
        let kid = kids[n - 1];
        match first_named(src.children, before.themes[kid].id) {
            Some(j) => {
                if 0 <= j < src.children.len() {
                    references_of_merged(before, src.children[j], kid);
                    let b = merged(before, src.children[j], kid);
                    assert forall|h: int| 0 <= h < b.themes.len() implies #[trigger] reference_from(
                        a,
                        src,
                        b,
                        h,
                    ) by {
                        assert(reference_from(before, src.children[j], b, h));
                        if b.themes[h].from is Some {
                            if h < before.themes.len() && before.themes[h].from
                                == b.themes[h].from {
                                assert(reference_from(a, src, before, h));
                            } else {
                                assert(refers(src.children[j], b.themes[h].from->0));
                            }
                        }
                    }
                }
            },
            None => {},
        }
    }
}

/// After those of the first `n` children of a subtree that the record at
/// `to` lacks have been copied below it, every pending reference is one that
/// its record had before or one that the subtree holds.
pub proof fn references_of_grafted_missing(
    a: ArenaView,
    src: SubtreeView,
    kids: Seq<int>,
    to: int,
    n: nat,
)
    requires
        a.linked(),
        0 <= to < a.themes.len(),
        n <= src.children.len(),
    ensures
        forall|h: int|
            0 <= h < grafted_missing(a, src, kids, to, n).themes.len() ==> #[trigger] reference_from(
                a,
                src,
                grafted_missing(a, src, kids, to, n),
                h,
            ),
    decreases src, 0nat, n,
{
    if n > 0 {
        let before = grafted_missing(a, src, kids, to, (n - 1) as nat);
        let last = src.children[n - 1];
        references_of_grafted_missing(a, src, kids, to, (n - 1) as nat);
        grafting_missing(a, src, kids, to, (n - 1) as nat);
        if !any_named(before.themes, kids, last.theme.id) {
            references_of_grafted(before, last, to);
            let b = grafted(before, last, to);
            assert forall|h: int| 0 <= h < b.themes.len() implies #[trigger] reference_from(
                a,
                src,
                b,
                h,
            ) by {
                assert(reference_from(before, last, b, h));
                if b.themes[h].from is Some {
                    if h < before.themes.len() && before.themes[h].from == b.themes[h].from {
                        assert(reference_from(a, src, before, h));
                    } else {
                        assert(refers(src.children[n - 1], b.themes[h].from->0));
                    }
                }
            }
        }
    }
}

/// The pending reference of the record at `h`, if it has one, names a path
/// that is indexed.
pub open spec fn known_at(a: ArenaView, h: int) -> bool {
    a.themes[h].from is Some ==> a.handles.contains_key(a.themes[h].from->0)
}

/// Every pending reference of the arena names a path that is indexed.
pub open spec fn all_known(a: ArenaView) -> bool {
    forall|h: int| 0 <= h < a.themes.len() ==> #[trigger] known_at(a, h)
}

/// A sound arena that has the records of another sound arena under their
/// paths indexes every path that the other indexes.
pub proof fn index_grows(a: ArenaView, b: ArenaView)
    requires
        sound(a),
        sound(b),
        a.themes.len() <= b.themes.len(),
        forall|h: int|
            0 <= h < a.themes.len() ==> (#[trigger] b.themes[h]).full_id == a.themes[h].full_id,
    ensures
        forall|k: Seq<char>| a.handles.contains_key(k) ==> b.handles.contains_key(k),
{
    assert forall|k: Seq<char>| a.handles.contains_key(k) implies b.handles.contains_key(k) by {
        let h = a.handles[k];
        assert(0 <= h < a.themes.len());
        assert(a.themes[h].full_id == k);
        assert(b.themes[h].full_id == k);
        assert(b.handles.contains_key(b.themes[h].full_id));
    }
}

/// In a sound arena all of whose pending references name indexed paths, the
/// record at `to` is resolved without error, and all pending references still
/// name indexed paths then.
pub proof fn resolving_at_keeps_known(a: ArenaView, to: int)
    requires
        sound(a),
        all_known(a),
        0 <= to < a.themes.len(),
    ensures
        resolved_at(a, to) is Ok,
        all_known(resolved_at(a, to)->Ok_0),
{
    assert(known_at(a, to));
    match a.themes[to].from {
        None => {},
        Some(name) => {
            let from = a.handles[name];
            if a.themes[from].from is None {
                let cleared = a.with_from_cleared(to);
                let src = subtree_of(cleared.themes, from);
                let b = merged(cleared, src, to);
                clearing_keeps_links(a, to);
                resolving_at_keeps_sound(a, to);
                merging(cleared, src, to);
                references_of_merged(cleared, src, to);
                assert forall|h: int| 0 <= h < a.themes.len() implies (#[trigger] b.themes[h]).full_id
                    == a.themes[h].full_id by {
                    assert(same_place(b.themes[h], cleared.themes[h]));
                }
                index_grows(a, b);
                assert forall|h: int| 0 <= h < b.themes.len() implies #[trigger] known_at(b, h) by {
                    assert(reference_from(cleared, src, b, h));
                    if b.themes[h].from is Some {
                        let wanted = b.themes[h].from->0;
                        if h < cleared.themes.len() && cleared.themes[h].from == b.themes[h].from {
                            assert(h != to);
                            assert(known_at(a, h));
                        } else {
                            reference_of_a_record(cleared, from, wanted);
                            let other = choose|other: int|
                                0 <= other < cleared.themes.len() && (
                                #[trigger] cleared.themes[other]).from == Some(wanted);
                            assert(other != to);
                            assert(known_at(a, other));
                        }
                    }
                }
            }
        },
    }
}

/// In a sound arena all of whose pending references name indexed paths, a
/// pass meets no error, and all pending references still name indexed paths
/// after it.
pub proof fn pass_keeps_known(a: ArenaView, n: nat)
    requires
        sound(a),
        all_known(a),
        n <= a.themes.len(),
    ensures
        pass(a, n) is Ok,
        all_known(pass(a, n)->Ok_0),
    decreases n,
{
    if n > 0 {
        pass_keeps_known(a, (n - 1) as nat);
        pass_keeps_sound(a, (n - 1) as nat);
        resolving_at_keeps_known(pass(a, (n - 1) as nat)->Ok_0, n - 1);
    }
}

} // verus!

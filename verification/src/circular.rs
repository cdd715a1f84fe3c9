//! References that can never be resolved: records that wait for each
//! other.

use vstd::prelude::*;
use crate::arena::ArenaView;
use crate::error::ErrorView;
use crate::frames::{keeps_fields, merging, same_place};
use crate::inherit::{merged, subtree_of};
use crate::known::{all_known, pass_keeps_known};
use crate::resolve::{
    has_pending,
    pass,
    pass_fails_on_unknown_reference,
    resolved,
    resolved_at,
};
use crate::sound::{
    clearing_keeps_sound,
    merging_keeps_sound,
    pass_keeps_sound,
    sound,
    subtree_is_tidy,
};

verus! {

/// Every record of the set `waiting` has a pending reference to the path
/// of a record of the set: they wait for each other, in a circle or in
/// chains that end in one.
pub open spec fn wait_in_circles(a: ArenaView, waiting: Set<int>) -> bool {
    forall|x: int| waiting.contains(x) ==> #[trigger] waits(a, waiting, x)
}

/// The record at `x` has a pending reference to the path of a record of the
/// set `waiting`.
pub open spec fn waits(a: ArenaView, waiting: Set<int>, x: int) -> bool {
    &&& 0 <= x < a.themes.len()
    &&& a.themes[x].from is Some
    &&& a.handles.contains_key(a.themes[x].from->0)
    &&& waiting.contains(a.handles[a.themes[x].from->0])
}

/// Records that wait in circles still do so after any record has been
/// resolved.
proof fn waiting_outlasts_a_step(a: ArenaView, to: int, waiting: Set<int>)
    requires
        sound(a),
        wait_in_circles(a, waiting),
        0 <= to < a.themes.len(),
        resolved_at(a, to) is Ok,
    ensures
        wait_in_circles(resolved_at(a, to)->Ok_0, waiting),
{
    match a.themes[to].from {
        None => {},
        Some(name) => {
            let from = a.handles[name];
            if a.themes[from].from is None {
                let cleared = a.with_from_cleared(to);
                let src = subtree_of(cleared.themes, from);
                clearing_keeps_sound(a, to);
                subtree_is_tidy(cleared, from);
                merging(cleared, src, to);
                merging_keeps_sound(cleared, src, to);
                let b = merged(cleared, src, to);
                if waiting.contains(to) {
                    assert(waits(a, waiting, to));
                    assert(waits(a, waiting, from));
                }
                assert forall|x: int| waiting.contains(x) implies #[trigger] waits(
                    b,
                    waiting,
                    x,
                ) by {
                    assert(waits(a, waiting, x));
                    let y = a.handles[a.themes[x].from->0];
                    assert(waits(a, waiting, y));
                    assert(a.themes[y].full_id == a.themes[x].from->0);
                    assert(same_place(b.themes[x], cleared.themes[x]));
                    assert(same_place(b.themes[y], cleared.themes[y]));
                    assert(keeps_fields(b.themes[x], cleared.themes[x]));
                    assert(b.handles[b.themes[y].full_id] == y);
                }
            }
        },
    }
}

/// Records that wait in circles still do so after a pass.
proof fn waiting_outlasts_a_pass(a: ArenaView, n: nat, waiting: Set<int>)
    requires
        sound(a),
        wait_in_circles(a, waiting),
        n <= a.themes.len(),
        pass(a, n) is Ok,
    ensures
        wait_in_circles(pass(a, n)->Ok_0, waiting),
    decreases n,
{
    if n > 0 {
        waiting_outlasts_a_pass(a, (n - 1) as nat, waiting);
        pass_keeps_sound(a, (n - 1) as nat);
        waiting_outlasts_a_step(pass(a, (n - 1) as nat)->Ok_0, n - 1, waiting);
    }
}

/// A sound arena in which some records wait in circles is never resolved,
/// however many passes are allowed: resolution ends in the error of a
/// circular reference, unless it meets a reference to a path that is not
/// indexed before. Two records that refer to each other are such records, and
/// so is a record that refers to itself.
pub proof fn circle_is_refused(a: ArenaView, waiting: Set<int>, one: int, passes: nat)
    requires
        sound(a),
        wait_in_circles(a, waiting),
        waiting.contains(one),
    ensures
        resolved(a, passes) is Err,
        resolved(a, passes)->Err_0 is CircularReference || resolved(a, passes)->Err_0
            is UnknownReference,
    decreases passes,
{
    assert(waits(a, waiting, one));
    assert(a.themes[one].from is Some);
    assert(has_pending(a));
    if passes > 0 {
        match pass(a, a.themes.len()) {
            Err(_) => {
                pass_fails_on_unknown_reference(a, a.themes.len());
            },
            Ok(next) => {
                pass_keeps_sound(a, a.themes.len());
                waiting_outlasts_a_pass(a, a.themes.len(), waiting);
                circle_is_refused(next, waiting, one, (passes - 1) as nat);
            },
        }
    }
}

/// Two records that refer to each other wait in a circle.
pub proof fn two_wait_in_a_circle(a: ArenaView, x: int, y: int)
    requires
        sound(a),
        0 <= x < a.themes.len(),
        0 <= y < a.themes.len(),
        a.themes[x].from == Some(a.themes[y].full_id),
        a.themes[y].from == Some(a.themes[x].full_id),
    ensures
        wait_in_circles(a, set![x, y]),
{
    assert(a.handles[a.themes[x].full_id] == x);
    assert(a.handles[a.themes[y].full_id] == y);
    assert(waits(a, set![x, y], x));
    assert(waits(a, set![x, y], y));
}

/// A sound arena in which some records wait in circles, and in which every
/// pending reference names a path that is indexed, is resolved in no number
/// of passes: resolution ends in the error of a circular reference. So does
/// the resolution of a circle of references of any length.
pub proof fn circle_is_a_circular_reference(
    a: ArenaView,
    waiting: Set<int>,
    one: int,
    passes: nat,
)
    requires
        sound(a),
        all_known(a),
        wait_in_circles(a, waiting),
        waiting.contains(one),
    ensures
        resolved(a, passes) == Err::<ArenaView, ErrorView>(ErrorView::CircularReference),
    decreases passes,
{
    assert(waits(a, waiting, one));
    assert(a.themes[one].from is Some);
    assert(has_pending(a));
    if passes > 0 {
        pass_keeps_known(a, a.themes.len());
        pass_keeps_sound(a, a.themes.len());
        waiting_outlasts_a_pass(a, a.themes.len(), waiting);
        circle_is_a_circular_reference(
            pass(a, a.themes.len())->Ok_0,
            waiting,
            one,
            (passes - 1) as nat,
        );
    }
}

} // verus!

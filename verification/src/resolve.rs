//! Resolution of `from` references: passes over the arena, each of which
//! lets every widget theme whose source is ready inherit from it, until no
//! reference is pending.

use vstd::prelude::*;
use crate::arena::{clearing_keeps_links, Arena, ArenaView};
use crate::error::{Error, ErrorView};
use crate::frames::{
    keeps_style,
    keeps_styles,
    keeps_styles_on,
    resolving_at_keeps_styles,
};
use crate::inherit::{merge_from, merged, subtree_of};
use crate::sound::{resolving_at_keeps_sound, sound};
use crate::widget_theme::WidgetThemeHandle;

verus! {

/// The number of passes after which references that are still pending are
/// taken for a circle.
pub const MAX_ITERATIONS: usize = 20;

/// Some record of the arena still has to inherit.
pub open spec fn has_pending(a: ArenaView) -> bool {
    exists|h: int| 0 <= h < a.themes.len() && (#[trigger] a.themes[h]).from is Some
}

/// What a pass does for the record at `to`. A record without a pending
/// reference is left alone. A reference to a path that is not indexed is an
/// error. A record whose source still has a reference pending is left for a
/// later pass. Any other record has its reference cleared and inherits from
/// its source and what is below it.
pub open spec fn resolved_at(a: ArenaView, to: int) -> Result<ArenaView, ErrorView> {
    match a.themes[to].from {
        None => Ok(a),
        Some(name) => if !a.handles.contains_key(name) {
            Err(ErrorView::UnknownReference { name, widget: a.themes[to].id })
        } else {
            let from = a.handles[name];
            if a.themes[from].from is Some {
                Ok(a)
            } else {
                let cleared = a.with_from_cleared(to);
                Ok(merged(cleared, subtree_of(cleared.themes, from), to))
            }
        }
    }
}

/// The arena after a pass has gone over its first `n` records, in the order
/// of their handles, or the first error met.
pub open spec fn pass(a: ArenaView, n: nat) -> Result<ArenaView, ErrorView>
    decreases n,
{
    if n == 0 {
        Ok(a)
    } else {
        match pass(a, (n - 1) as nat) {
            Err(e) => Err(e),
            Ok(before) => resolved_at(before, n - 1),
        }
    }
}

/// The arena once no reference is pending, after at most `passes` passes,
/// each over the records that the arena has when the pass begins.
pub open spec fn resolved(a: ArenaView, passes: nat) -> Result<ArenaView, ErrorView>
    decreases passes,
{
    if !has_pending(a) {
        Ok(a)
    } else if passes == 0 {
        Err(ErrorView::CircularReference)
    } else {
        match pass(a, a.themes.len()) {
            Err(e) => Err(e),
            Ok(next) => resolved(next, (passes - 1) as nat),
        }
    }
}

/// The arena after at most `passes` passes, each made only while a
/// reference is pending; or the error of the pass that failed.
pub open spec fn after_passes(a: ArenaView, passes: nat) -> Result<ArenaView, ErrorView>
    decreases passes,
{
    if passes == 0 || !has_pending(a) {
        Ok(a)
    } else {
        match pass(a, a.themes.len()) {
            Err(e) => Err(e),
            Ok(next) => after_passes(next, (passes - 1) as nat),
        }
    }
}

/// What ends a resolution that may take `passes` passes. It makes no more
/// passes than that, and none once no reference is pending. A pass fails only
/// on a reference to a path that is not indexed, and its error is that of the
/// resolution. Where no pass fails, the references that are then still
/// pending are the error of a circular reference, and an arena without any
/// is the result.
pub proof fn resolution_ends(a: ArenaView, passes: nat)
    ensures
        resolved(a, passes) == match after_passes(a, passes) {
            Err(e) => Err::<ArenaView, ErrorView>(e),
            Ok(b) => if has_pending(b) {
                Err(ErrorView::CircularReference)
            } else {
                Ok(b)
            },
        },
        after_passes(a, passes) matches Err(e) ==> e is UnknownReference,
    decreases passes,
{
    if passes > 0 && has_pending(a) {
        match pass(a, a.themes.len()) {
            Err(_) => {
                pass_fails_on_unknown_reference(a, a.themes.len());
            },
            Ok(next) => {
                resolution_ends(next, (passes - 1) as nat);
            },
        }
    }
}

/// A pass fails only on a reference to a path that is not indexed.
pub proof fn pass_fails_on_unknown_reference(a: ArenaView, n: nat)
    requires
        pass(a, n) is Err,
    ensures
        pass(a, n)->Err_0 is UnknownReference,
    decreases n,
{
    if n > 0 && pass(a, (n - 1) as nat) is Err {
        pass_fails_on_unknown_reference(a, (n - 1) as nat);
    }
}

/// An arena keeps the places and styles of its own records.
proof fn keeps_styles_here(a: ArenaView)
    ensures
        keeps_styles(a, a),
{
    assert forall|h: int| 0 <= h < a.themes.len() implies keeps_style(
        #[trigger] a.themes[h],
        a.themes[h],
    ) by {}
}

/// An error met in the first steps of a pass is the error of the pass.
proof fn pass_error_stays(a: ArenaView, i: nat, n: nat, e: ErrorView)
    requires
        i <= n,
        pass(a, i) == Err::<ArenaView, ErrorView>(e),
    ensures
        pass(a, n) == Err::<ArenaView, ErrorView>(e),
    decreases n,
{
    if i < n {
        pass_error_stays(a, i, (n - 1) as nat, e);
    }
}

impl Arena {
    /// Whether some record still has to inherit.
    pub fn any_pending(&self) -> (pending: bool)
        ensures
            pending == has_pending(self@),
    {
        let mut h: usize = 0;
        while h < self.len()
            invariant
                h <= self@.themes.len(),
                forall|k: int| 0 <= k < h ==> (#[trigger] self@.themes[k]).from is None,
            decreases self@.themes.len() - h,
        {
            if self.get(WidgetThemeHandle { id: h as u64 }).from.is_some() {
                assert(self@.themes[h as int].from is Some);
                return true;
            }
            h += 1;
        }
        false
    }

    /// Lets the record at `to` inherit from the widget that its pending
    /// reference names, if that widget has no reference pending itself. A
    /// reference to a path that is not indexed is an error, and leaves the
    /// arena as it was.
    pub fn resolve_at(&mut self, to: WidgetThemeHandle) -> (r: Result<(), Error>)
        requires
            old(self)@.linked(),
            to.id < old(self)@.themes.len(),
        ensures
            match r {
                Ok(()) => {
                    &&& resolved_at(old(self)@, to.id as int) == Ok::<ArenaView, ErrorView>(
                        final(self)@,
                    )
                },
                Err(e) => {
                    &&& resolved_at(old(self)@, to.id as int) == Err::<ArenaView, ErrorView>(e@)
                    &&& final(self)@ == old(self)@
                },
            },
            final(self)@.linked(),
            keeps_styles(old(self)@, final(self)@),
            sound(old(self)@) ==> sound(final(self)@),
    {
        proof {
            if sound(old(self)@) && resolved_at(old(self)@, to.id as int) is Ok {
                resolving_at_keeps_sound(old(self)@, to.id as int);
            }
            if resolved_at(old(self)@, to.id as int) is Ok {
                resolving_at_keeps_styles(old(self)@, to.id as int);
            }
            keeps_styles_here(old(self)@);
        }
        let name = match &self.get(to).from {
            None => {
                return Ok(());
            },
            Some(name) => name.clone(),
        };
        let from_id = match self.handle(name.as_str()) {
            None => {
                let widget = self.get(to).id.clone();
                return Err(Error::UnknownReference { name, widget });
            },
            Some(from_id) => from_id,
        };
        if self.get(from_id).from.is_some() {
            return Ok(());
        }
        self.clear_from(to);
        proof {
            clearing_keeps_links(old(self)@, to.id as int);
        }
        merge_from(from_id, to, self);
        Ok(())
    }

    /// One pass over the records that the arena has when the pass begins.
    /// An error ends the pass where it is met: the arena is then as the steps
    /// before it left it, still linked, and sound if it was. Either way every
    /// record that the arena had keeps its place and every style field that
    /// was set in it.
    pub fn resolve_pass(&mut self) -> (r: Result<(), Error>)
        requires
            old(self)@.linked(),
        ensures
            match r {
                Ok(()) => {
                    &&& pass(old(self)@, old(self)@.themes.len()) == Ok::<ArenaView, ErrorView>(
                        final(self)@,
                    )
                },
                Err(e) => pass(old(self)@, old(self)@.themes.len()) == Err::<ArenaView, ErrorView>(
                    e@,
                ),
            },
            final(self)@.linked(),
            keeps_styles(old(self)@, final(self)@),
            sound(old(self)@) ==> sound(final(self)@),
    {
        proof {
            keeps_styles_here(old(self)@);
        }
        let count: usize = self.len();
        let mut to: usize = 0;
        while to < count
            invariant
                to <= count,
                count == old(self)@.themes.len(),
                self@.linked(),
                self@.themes.len() >= count,
                keeps_styles(old(self)@, self@),
                sound(old(self)@) ==> sound(self@),
                pass(old(self)@, to as nat) == Ok::<ArenaView, ErrorView>(self@),
            decreases count - to,
        {
            let ghost before = self@;
            let step = self.resolve_at(WidgetThemeHandle { id: to as u64 });
            proof {
                keeps_styles_on(old(self)@, before, self@);
            }
            match step {
                Ok(()) => {},
                Err(e) => {
                    proof {
                        pass_error_stays(old(self)@, (to + 1) as nat, count as nat, e@);
                    }
                    return Err(e);
                },
            }
            to += 1;
        }
        Ok(())
    }

    /// Resolves every `from` reference of the arena, in at most
    /// [`MAX_ITERATIONS`] passes. An arena without pending references is left
    /// as it is. References that are still pending after the last pass are
    /// the error of a circular reference.
    pub fn resolve(&mut self) -> (r: Result<(), Error>)
        requires
            old(self)@.linked(),
        ensures
            match r {
                Ok(()) => {
                    &&& resolved(old(self)@, MAX_ITERATIONS as nat) == Ok::<ArenaView, ErrorView>(
                        final(self)@,
                    )
                    &&& !has_pending(final(self)@)
                },
                Err(e) => resolved(old(self)@, MAX_ITERATIONS as nat) == Err::<ArenaView, ErrorView>(
                    e@,
                ),
            },
            !has_pending(old(self)@) ==> r is Ok && final(self)@ == old(self)@,
            r matches Err(e) ==> {
                if after_passes(old(self)@, MAX_ITERATIONS as nat) is Ok {
                    e@ is CircularReference && has_pending(
                        after_passes(old(self)@, MAX_ITERATIONS as nat)->Ok_0,
                    )
                } else {
                    e@ is UnknownReference
                }
            },
            final(self)@.linked(),
            keeps_styles(old(self)@, final(self)@),
            sound(old(self)@) ==> sound(final(self)@),
    {
        proof {
            keeps_styles_here(old(self)@);
        }
        let mut left: usize = MAX_ITERATIONS;
        while self.any_pending()
            invariant
                left <= MAX_ITERATIONS,
                self@.linked(),
                keeps_styles(old(self)@, self@),
                sound(old(self)@) ==> sound(self@),
                resolved(old(self)@, MAX_ITERATIONS as nat) == resolved(self@, left as nat),
                !has_pending(old(self)@) ==> self@ == old(self)@,
            decreases left,
        {
            if left == 0 {
                proof {
                    resolution_ends(old(self)@, MAX_ITERATIONS as nat);
                }
                return Err(Error::CircularReference);
            }
            let ghost before = self@;
            let step = self.resolve_pass();
            proof {
                keeps_styles_on(old(self)@, before, self@);
            }
            match step {
                Ok(()) => {},
                Err(e) => {
                    proof {
                        resolution_ends(old(self)@, MAX_ITERATIONS as nat);
                    }
                    return Err(e);
                },
            }
            left -= 1;
        }
        Ok(())
    }
}

/// An arena in which no reference is pending is resolved as it is, however
/// many passes are allowed.
pub proof fn resolving_the_resolved(a: ArenaView, passes: nat)
    requires
        !has_pending(a),
    ensures
        resolved(a, passes) == Ok::<ArenaView, ErrorView>(a),
{
}

/// No reference is pending in an arena that has been resolved, so that to
/// resolve it again changes nothing.
pub proof fn resolving_twice(a: ArenaView, b: ArenaView, passes: nat, again: nat)
    requires
        resolved(a, passes) == Ok::<ArenaView, ErrorView>(b),
    ensures
        !has_pending(b),
        resolved(b, again) == Ok::<ArenaView, ErrorView>(b),
    decreases passes,
{
    if has_pending(a) && passes > 0 {
        match pass(a, a.themes.len()) {
            Ok(next) => {
                resolving_twice(next, b, (passes - 1) as nat, again);
            },
            Err(_) => {},
        }
    }
}

} // verus!

//! Target references and target inheritance.

use vstd::prelude::*;
use crate::world::{Ent, World};

verus! {

/// A weak reference to another entity, by index. It may dangle once the
/// referenced entity is despawned; every consumer treats a failed lookup as
/// "no target".
#[derive(Clone, Copy, PartialEq, Eq, Structural, Debug, Default)]
pub struct Target(pub Option<usize>);

/// What target inheritance leaves in one entity: an entity marked to inherit
/// and owning a target slot copies its parent's slot, read from the start of
/// the stage; a parent that does not resolve reads as an empty slot.
pub open spec fn inherit_step(ents: Seq<Ent>, i: int) -> Ent {
    let e = ents[i];
    if e.alive && e.inherit_target && e.target is Some {
        let inherited = match e.parent {
            Some(p) => {
                if p < ents.len() && ents[p as int].alive && ents[p as int].target is Some {
                    ents[p as int].target->0
                } else {
                    Target(None)
                }
            },
            None => Target(None),
        };
        Ent { target: Some(inherited), ..e }
    } else {
        e
    }
}

/// Entities marked to inherit copy their parent's current target reference,
/// overwriting their own, so mounts track the hull's choice exactly.
pub fn copy_targets_from_parents(w: &mut World)
    requires
        old(w).wf(),
    ensures
        final(w).wf(),
        final(w)@.len() == old(w)@.len(),
        forall|i: int| 0 <= i < final(w)@.len() ==> final(w)@[i] == inherit_step(old(w)@, i),
        final(w).fx@ == old(w).fx@,
{
    let ghost orig = w@;
    let n: usize = w.ents.len();
    let mut out: Vec<Ent> = Vec::new();
    let mut i: usize = 0;
    while i < n
        invariant
            w@ == orig,
            w.wf(),
            n == orig.len(),
            i <= n,
            out@.len() == i,
            forall|j: int| 0 <= j < i ==> out@[j] == inherit_step(orig, j),
            forall|j: int| 0 <= j < i ==> #[trigger] crate::world::wf_ent(out@[j]),
        decreases n - i,
    {
        let e = w.ents[i];
        let mut upd = e;
        if e.alive && e.inherit_target && e.target.is_some() {
            let inherited: Target = match e.parent {
                Some(p) => {
                    if p < n && w.ents[p].alive && w.ents[p].target.is_some() {
                        w.ents[p].target.unwrap()
                    } else {
                        Target(None)
                    }
                },
                None => Target(None),
            };
            upd.target = Some(inherited);
        }
        proof {
            assert(crate::world::wf_ent(w@[i as int]));
            assert(crate::world::wf_ent(upd));
        }
        out.push(upd);
        proof {
            assert(out@[i as int] == inherit_step(orig, i as int));
        }
        i = i + 1;
    }
    w.ents = out;
}

} // verus!

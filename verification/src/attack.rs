//! Attack payloads carried by effect instances.

use vstd::prelude::*;
use crate::geom::STAT_LIMIT;

verus! {

/// How an attack was resolved. Attacks start as hits; the evasion stage may
/// turn a hit into a miss, and the shield stage may turn a hit into a block.
#[derive(Clone, Copy, PartialEq, Eq, Structural, Debug)]
pub enum AttackResult {
    Hit,
    Miss,
    Blocked,
}

/// An attack payload: its accuracy drives the hit roll against the target's
/// evasion rating.
#[derive(Clone, Copy, PartialEq, Eq, Structural, Debug)]
pub struct Attack {
    pub accuracy: i64,
    pub result: AttackResult,
}

pub open spec fn wf_attack(a: Attack) -> bool {
    0 <= a.accuracy <= STAT_LIMIT
}

impl Attack {
    /// A fresh attack: it counts as a hit until a later stage says otherwise.
    pub fn new(accuracy: i64) -> (a: Attack)
        requires
            0 <= accuracy <= STAT_LIMIT,
        ensures
            a == (Attack { accuracy, result: AttackResult::Hit }),
            wf_attack(a),
    {
        Attack { accuracy, result: AttackResult::Hit }
    }
}

} // verus!

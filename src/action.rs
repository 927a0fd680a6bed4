use vstd::prelude::*;

use crate::facts::{AiFacts, AiProp};

verus! {

/// The tags of the actions an agent can choose between.
#[derive(Clone, Copy, Debug, PartialEq, Eq, Hash, PartialOrd, Ord, Structural)]
pub enum AiAction {
    Wait,
    MoveCloser,
    ShootAt,
    RunAway,
}

/// One entry of an action catalog: what must hold before the action, what
/// holds after it, and what it costs.
#[derive(Clone, Copy, Debug)]
pub struct ActionSpec {
    pub action: AiAction,
    pub preconditions: AiFacts,
    pub postconditions: AiFacts,
    pub cost: u32,
}

impl ActionSpec {
    pub fn new(action: AiAction, cost: u32) -> (r: ActionSpec)
        ensures
            r.action == action,
            r.cost == cost,
            r.preconditions@ == Map::<AiProp, bool>::empty(),
            r.postconditions@ == Map::<AiProp, bool>::empty(),
    {
        ActionSpec { action, preconditions: AiFacts::new(), postconditions: AiFacts::new(), cost }
    }

    /// Adds a precondition `p == v`.
    pub fn requires_fact(&mut self, p: AiProp, v: bool)
        ensures
            final(self).action == old(self).action,
            final(self).cost == old(self).cost,
            final(self).preconditions@ == old(self).preconditions@.insert(p, v),
            final(self).postconditions@ == old(self).postconditions@,
    {
        self.preconditions.insert(p, v);
    }

    /// Adds an effect `p := v`.
    pub fn produces_fact(&mut self, p: AiProp, v: bool)
        ensures
            final(self).action == old(self).action,
            final(self).cost == old(self).cost,
            final(self).preconditions@ == old(self).preconditions@,
            final(self).postconditions@ == old(self).postconditions@.insert(p, v),
    {
        self.postconditions.insert(p, v);
    }
}

/// The catalog agents plan with: every action at unit cost.
pub fn default_actions() -> (r: Vec<ActionSpec>)
    ensures
        r@.len() == 4,
        r@[0].action == AiAction::Wait,
        r@[0].preconditions@ == Map::<AiProp, bool>::empty(),
        r@[0].postconditions@ == Map::<AiProp, bool>::empty(),
        r@[1].action == AiAction::MoveCloser,
        r@[1].preconditions@ == map![AiProp::HasTarget => true],
        r@[1].postconditions@ == map![AiProp::TargetClose => true],
        r@[2].action == AiAction::ShootAt,
        r@[2].preconditions@ == map![AiProp::TargetClose => true],
        r@[2].postconditions@ == map![AiProp::TargetDead => true],
        r@[3].action == AiAction::RunAway,
        r@[3].preconditions@ == map![AiProp::HealthLow => true],
        r@[3].postconditions@ == map![AiProp::TargetClose => false],
        forall|i: int| 0 <= i < r@.len() ==> #[trigger] r@[i].cost == 1,
{
    let wait = ActionSpec::new(AiAction::Wait, 1);

    let mut move_closer = ActionSpec::new(AiAction::MoveCloser, 1);
    move_closer.requires_fact(AiProp::HasTarget, true);
    move_closer.produces_fact(AiProp::TargetClose, true);

    let mut shoot_at = ActionSpec::new(AiAction::ShootAt, 1);
    shoot_at.requires_fact(AiProp::TargetClose, true);
    shoot_at.produces_fact(AiProp::TargetDead, true);

    let mut run_away = ActionSpec::new(AiAction::RunAway, 1);
    run_away.requires_fact(AiProp::HealthLow, true);
    run_away.produces_fact(AiProp::TargetClose, false);

    assert(Map::<AiProp, bool>::empty().insert(AiProp::HasTarget, true) == map![AiProp::HasTarget => true]);
    assert(Map::<AiProp, bool>::empty().insert(AiProp::TargetClose, true) == map![AiProp::TargetClose => true]);
    assert(Map::<AiProp, bool>::empty().insert(AiProp::TargetDead, true) == map![AiProp::TargetDead => true]);
    assert(Map::<AiProp, bool>::empty().insert(AiProp::HealthLow, true) == map![AiProp::HealthLow => true]);
    assert(Map::<AiProp, bool>::empty().insert(AiProp::TargetClose, false) == map![AiProp::TargetClose => false]);
    vec![wait, move_closer, shoot_at, run_away]
}

} // verus!

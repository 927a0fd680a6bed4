use vstd::prelude::*;

use crate::facts::{AiFacts, AiProp};

verus! {

/// The behavior an agent was spawned with.
#[derive(Clone, Copy, Debug, PartialEq, Eq, Structural)]
pub enum AiKind {
    Wait,
    SeekTarget,
    Follow,
    Guard,
}

/// What an agent is currently trying to achieve.
#[derive(Clone, Copy, Debug, PartialEq, Eq, Structural)]
pub enum AiGoal {
    Wander,
    KillTarget,
    DoNothing,
}

/// The partial fact assignment a goal is reached at.
pub open spec fn goal_end_state(g: AiGoal) -> Map<AiProp, bool> {
    match g {
        AiGoal::Wander => map![AiProp::Moving => true],
        AiGoal::DoNothing => map![AiProp::Exists => false],
        AiGoal::KillTarget => map![AiProp::TargetDead => true, AiProp::HealthLow => false],
    }
}

impl AiGoal {
    /// The desired end-state of this goal.
    pub fn get_end_state(&self) -> (r: AiFacts)
        ensures
            r@ == goal_end_state(*self),
    {
        let props = self.get_props();
        let mut goal = AiFacts::new();
        let mut i: usize = 0;
        while i < props.len()
            invariant
                props@ == goal_props(*self),
                0 <= i <= props@.len(),
                goal@ == props_map(props@.subrange(0, i as int)),
            decreases props@.len() - i,
        {
            let (prop, val) = props[i];
            proof {
                assert(props@.subrange(0, i + 1).drop_last() == props@.subrange(0, i as int));
            }
            goal.insert(prop, val);
            i += 1;
        }
        proof {
            assert(props@.subrange(0, props@.len() as int) == props@);
            lemma_goal_props_map(*self);
        }
        goal
    }

    /// The fact/value pairs of this goal's end-state.
    fn get_props(&self) -> (r: Vec<(AiProp, bool)>)
        ensures
            r@ == goal_props(*self),
    {
        match self {
            AiGoal::Wander => vec![(AiProp::Moving, true)],
            AiGoal::DoNothing => vec![(AiProp::Exists, false)],
            AiGoal::KillTarget => vec![(AiProp::TargetDead, true), (AiProp::HealthLow, false)],
        }
    }

    /// Whether the goal can only be pursued with a resolved target entity.
    pub open spec fn requires_target_spec(&self) -> bool {
        *self == AiGoal::KillTarget
    }

    /// Whether the goal can only be pursued with a resolved target entity.
    pub fn requires_target(&self) -> (r: bool)
        ensures
            r == self.requires_target_spec(),
    {
        match self {
            AiGoal::KillTarget => true,
            _ => false,
        }
    }

    /// Whether the goal can only be pursued with a remembered position.
    pub fn requires_position(&self) -> (r: bool)
        ensures
            !r,
    {
        false
    }
}

/// The end-state of a goal written as an ordered list of pairs.
pub open spec fn goal_props(g: AiGoal) -> Seq<(AiProp, bool)> {
    match g {
        AiGoal::Wander => seq![(AiProp::Moving, true)],
        AiGoal::DoNothing => seq![(AiProp::Exists, false)],
        AiGoal::KillTarget => seq![(AiProp::TargetDead, true), (AiProp::HealthLow, false)],
    }
}

/// The map built by inserting the pairs in order, later pairs winning.
pub open spec fn props_map(s: Seq<(AiProp, bool)>) -> Map<AiProp, bool>
    decreases s.len(),
{
    if s.len() == 0 {
        Map::empty()
    } else {
        props_map(s.drop_last()).insert(s.last().0, s.last().1)
    }
}

proof fn lemma_goal_props_map(g: AiGoal)
    ensures
        props_map(goal_props(g)) == goal_end_state(g),
{
    let s = goal_props(g);
    reveal_with_fuel(props_map, 3);
    match g {
        AiGoal::KillTarget => {
            assert(s.drop_last().drop_last() =~= Seq::<(AiProp, bool)>::empty());
            assert(props_map(s) =~= goal_end_state(g));
        },
        _ => {
            assert(s.drop_last() =~= Seq::<(AiProp, bool)>::empty());
            assert(props_map(s) =~= goal_end_state(g));
        },
    }
}

} // verus!

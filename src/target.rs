use vstd::prelude::*;

use crate::facts::AiFacts;
use crate::goal::{goal_end_state, AiGoal};

verus! {

/// A stable handle of an entity of the world.
#[derive(Clone, Copy, Debug, PartialEq, Eq, Hash, Structural)]
pub struct Entity {
    pub id: u64,
}

/// What a target points at.
#[derive(Clone, Copy, Debug, PartialEq, Eq, Structural)]
pub enum TargetObject {
    Nothing,
    Entity(Entity),
}

/// A prioritized candidate an agent may pursue.
#[derive(Clone, Copy, Debug, PartialEq, Eq, Structural)]
pub struct Target {
    pub obj: TargetObject,
    pub priority: u32,
    pub goal: AiGoal,
}

/// Priority of a target synthesized to attack the player.
pub const ATTACK_PRIORITY: u32 = 100;

impl Target {
    /// A target with no subject and the lowest priority.
    pub fn new(goal: AiGoal) -> (r: Target)
        ensures
            r == (Target { obj: TargetObject::Nothing, priority: 0, goal }),
    {
        Target { obj: TargetObject::Nothing, priority: 0, goal }
    }

    /// The entity the target points at, if any.
    pub fn entity(&self) -> (r: Option<Entity>)
        ensures
            r == match self.obj {
                TargetObject::Nothing => None,
                TargetObject::Entity(e) => Some(e),
            },
    {
        match self.obj {
            TargetObject::Nothing => None,
            TargetObject::Entity(e) => Some(e),
        }
    }
}

/// Highest priority first.
pub open spec fn sorted_by_priority(s: Seq<Target>) -> bool {
    forall|i: int, j: int| 0 <= i < j < s.len() ==> s[i].priority >= s[j].priority
}

/// The targets of one agent, highest priority first; among equal priorities,
/// the one added first comes first.
pub struct TargetQueue {
    items: Vec<Target>,
}

impl View for TargetQueue {
    type V = Seq<Target>;

    closed spec fn view(&self) -> Seq<Target> {
        self.items@
    }
}

impl TargetQueue {
    pub open spec fn wf(&self) -> bool {
        sorted_by_priority(self@)
    }

    pub fn new() -> (r: TargetQueue)
        ensures
            r.wf(),
            r@ == Seq::<Target>::empty(),
    {
        TargetQueue { items: Vec::new() }
    }

    pub fn len(&self) -> (r: usize)
        ensures
            r == self@.len(),
    {
        self.items.len()
    }

    pub fn is_empty(&self) -> (r: bool)
        ensures
            r == (self@.len() == 0),
    {
        self.items.len() == 0
    }

    /// Adds a target behind every target of at least its priority.
    pub fn push(&mut self, t: Target)
        requires
            old(self).wf(),
        ensures
            final(self).wf(),
            exists|k: int|
                0 <= k <= old(self)@.len() && final(self)@ == old(self)@.insert(k, t) && (forall|
                    i: int,
                | 0 <= i < k ==> #[trigger] old(self)@[i].priority >= t.priority) && (forall|
                    i: int,
                | k <= i < old(self)@.len() ==> #[trigger] old(self)@[i].priority < t.priority),
    {
        let mut k: usize = 0;
        while k < self.items.len() && self.items[k].priority >= t.priority
            invariant
                self.items@ == old(self).items@,
                k <= self.items@.len(),
                forall|i: int| 0 <= i < k ==> #[trigger] self.items@[i].priority >= t.priority,
            decreases self.items@.len() - k,
        {
            k += 1;
        }
        proof {
            assert forall|i: int| k <= i < self.items@.len() implies #[trigger] self.items@[i].priority
                < t.priority by {
                assert(self.items@[k as int].priority < t.priority);
            }
        }
        self.items.insert(k, t);
        assert(sorted_by_priority(self.items@)) by {
            assert forall|i: int, j: int|
                0 <= i < j < self.items@.len() implies self.items@[i].priority
                >= self.items@[j].priority by {
                let o = old(self).items@;
                if j < k {
                } else if j == k {
                } else if i < k {
                    assert(self.items@[j] == o[j - 1]);
                } else if i == k {
                    assert(self.items@[j] == o[j - 1]);
                } else {
                    assert(self.items@[i] == o[i - 1]);
                    assert(self.items@[j] == o[j - 1]);
                }
            }
        }
        assert(self@ == old(self)@.insert(k as int, t));
        assert(forall|i: int| 0 <= i < k ==> #[trigger] old(self)@[i].priority >= t.priority);
    }

    /// The target with the highest priority, kept in the queue.
    pub fn peek(&self) -> (r: Option<Target>)
        ensures
            self@.len() == 0 ==> r is None,
            self@.len() > 0 ==> r == Some(self@[0]),
            self.wf() && r is Some ==> forall|i: int|
                0 <= i < self@.len() ==> r->Some_0.priority >= #[trigger] self@[i].priority,
    {
        if self.items.len() == 0 {
            None
        } else {
            Some(self.items[0])
        }
    }

    /// Removes and returns the target with the highest priority.
    pub fn pop(&mut self) -> (r: Option<Target>)
        requires
            old(self).wf(),
        ensures
            final(self).wf(),
            old(self)@.len() == 0 ==> r is None && final(self)@ == old(self)@,
            old(self)@.len() > 0 ==> r == Some(old(self)@[0]) && final(self)@ == old(self)@.drop_first(),
    {
        if self.items.len() == 0 {
            None
        } else {
            let t = self.items.remove(0);
            assert(self.items@ == old(self).items@.drop_first());
            Some(t)
        }
    }
}

/// The target an agent falls back to: attack the player if there is one,
/// else wander.
pub open spec fn default_target(player: Option<Entity>) -> Target {
    match player {
        Some(p) => Target { obj: TargetObject::Entity(p), priority: ATTACK_PRIORITY, goal: AiGoal::KillTarget },
        None => Target { obj: TargetObject::Nothing, priority: 0, goal: AiGoal::Wander },
    }
}

/// A target to attack `entity`.
pub fn attack_target(entity: Entity) -> (r: Target)
    ensures
        r == default_target(Some(entity)),
{
    Target { obj: TargetObject::Entity(entity), priority: ATTACK_PRIORITY, goal: AiGoal::KillTarget }
}

/// The target synthesized when an agent's queue is empty.
pub fn get_default_goal(player: Option<Entity>) -> (r: Target)
    ensures
        r == default_target(player),
{
    match player {
        Some(p) => attack_target(p),
        None => Target::new(AiGoal::Wander),
    }
}

/// Resolves the active target: the head of the queue, or the default target
/// if the queue is empty. The flag tells whether the target was synthesized.
pub fn select_target(targets: &TargetQueue, player: Option<Entity>) -> (r: (Target, bool))
    ensures
        targets@.len() > 0 ==> r == (targets@[0], false),
        targets@.len() == 0 ==> r == (default_target(player), true),
{
    match targets.peek() {
        Some(t) => (t, false),
        None => (get_default_goal(player), true),
    }
}

/// The end-state to plan towards, with the target that was synthesized for it
/// if the queue held none.
pub fn make_new_plan(targets: &TargetQueue, player: Option<Entity>) -> (r: (AiFacts, Option<Target>))
    ensures
        targets@.len() > 0 ==> r.0@ == goal_end_state(targets@[0].goal) && r.1 is None,
        targets@.len() == 0 ==> r.0@ == goal_end_state(default_target(player).goal) && r.1 == Some(
            default_target(player),
        ),
{
    let (target, made) = select_target(targets, player);
    let desired = target.goal.get_end_state();
    if made {
        (desired, Some(target))
    } else {
        (desired, None)
    }
}

} // verus!

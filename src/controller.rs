use vstd::prelude::*;

use crate::action::{ActionSpec, AiAction};
use crate::astar::{find_path, path_outcome, Grid, CALCULATION_LIMIT};
use crate::facts::{AiFacts, AiProp};
use crate::goal::{goal_end_state, AiKind};
use crate::planner::{plan, plan_outcome, unsatisfiable, unsatisfiable_facts};
use crate::sensors::{evaluate, sensed_facts, AgentSnapshot, SensorConfig};
use crate::point::{adjacent, direction_of_offset, reversed, Direction, Point2d};
use crate::target::{default_target, make_new_plan, Entity, Target, TargetQueue};

verus! {

/// The command an agent hands to the action execution interface for one tick.
#[derive(Clone, Copy, Debug, PartialEq, Eq, Structural)]
pub enum AgentCommand {
    Wait,
    Go(Direction),
    /// Fire at the active target.
    Shoot,
}

/// What an agent without a next action reports: the plan it holds, or the
/// facts of the failed residual state that no action can produce.
#[derive(Clone, Debug)]
pub enum StuckReport {
    NeverPlanned,
    Plan(Vec<AiAction>),
    Unsatisfiable(Vec<AiProp>),
}

/// The direction of the first cell of `path` that is adjacent to `from`.
pub open spec fn first_step(from: Point2d, path: Seq<Point2d>) -> Option<Direction>
    decreases path.len(),
{
    if path.len() == 0 {
        None
    } else if adjacent(from, path[0]) {
        direction_of_offset(path[0].x - from.x, path[0].y - from.y)
    } else {
        first_step(from, path.drop_first())
    }
}

/// Whether the action walks along the path towards the target.
pub open spec fn moves(a: AiAction) -> bool {
    a == AiAction::MoveCloser || a == AiAction::RunAway
}

/// The command an action amounts to, given the agent's cell, the target's
/// cell and the path followed: a step towards the target along the path, the
/// opposite step, a shot, or a wait (also when no step is known).
pub open spec fn command_for(
    a: AiAction,
    me: Point2d,
    target: Option<Point2d>,
    path: Seq<Point2d>,
) -> AgentCommand {
    match a {
        AiAction::Wait => AgentCommand::Wait,
        AiAction::ShootAt => AgentCommand::Shoot,
        AiAction::MoveCloser => if target is None {
            AgentCommand::Wait
        } else {
            match first_step(me, path) {
                None => AgentCommand::Wait,
                Some(d) => AgentCommand::Go(d),
            }
        },
        AiAction::RunAway => if target is None {
            AgentCommand::Wait
        } else {
            match first_step(me, path) {
                None => AgentCommand::Wait,
                Some(d) => AgentCommand::Go(reversed(d)),
            }
        },
    }
}

/// The first action of a successful plan.
pub open spec fn first_action(r: Result<Vec<AiAction>, AiFacts>) -> Option<AiAction> {
    match r {
        Ok(p) => if p@.len() > 0 {
            Some(p@[0])
        } else {
            None
        },
        Err(_) => None,
    }
}

/// The direction of the first cell of `path` adjacent to `from`.
pub fn first_step_along(from: Point2d, path: &Vec<Point2d>) -> (r: Option<Direction>)
    ensures
        r == first_step(from, path@),
{
    let mut i: usize = 0;
    assert(path@.subrange(0, path@.len() as int) == path@);
    while i < path.len()
        invariant
            i <= path@.len(),
            first_step(from, path@) == first_step(from, path@.subrange(i as int, path@.len() as int)),
        decreases path@.len() - i,
    {
        let ghost rest = path@.subrange(i as int, path@.len() as int);
        assert(rest[0] == path@[i as int]);
        let d = Direction::from_neighbors(from, path[i]);
        if d.is_some() {
            return d;
        }
        assert(rest.drop_first() == path@.subrange(i + 1, path@.len() as int));
        i += 1;
    }
    None
}

/// The agent holds what planning for `goal` from `facts` returned (a plan,
/// or the residual state it failed at, see `plan_outcome`), and caches the
/// plan's first action.
pub open spec fn plan_cached(
    s: AiState,
    facts: Map<AiProp, bool>,
    goal: Map<AiProp, bool>,
    cat: Seq<ActionSpec>,
) -> bool {
    &&& s.plan is Some
    &&& s.next_action == first_action(s.plan->Some_0)
    &&& plan_outcome(facts, goal, cat, s.plan->Some_0)
}

/// A copy of a list of actions.
fn copy_actions(v: &Vec<AiAction>) -> (r: Vec<AiAction>)
    ensures
        r@ == v@,
{
    let mut r: Vec<AiAction> = Vec::new();
    let mut i: usize = 0;
    while i < v.len()
        invariant
            i <= v@.len(),
            r@ == v@.subrange(0, i as int),
        decreases v@.len() - i,
    {
        r.push(v[i]);
        i += 1;
        assert(r@ =~= v@.subrange(0, i as int));
    }
    assert(v@.subrange(0, v@.len() as int) =~= v@);
    r
}

/// The per-agent state of the controller.
pub struct AiState {
    pub kind: AiKind,
    pub targets: TargetQueue,
    /// End-state of the active goal.
    pub goal: AiFacts,
    /// The last plan computed, or the residual state planning failed at.
    pub plan: Option<Result<Vec<AiAction>, AiFacts>>,
    /// The action dispatched on each tick until the next re-plan.
    pub next_action: Option<AiAction>,
    /// Set when the active target changed; forces a new next action.
    pub target_was_switched: bool,
    pub cached_path: Vec<Point2d>,
    /// Set when the cached path must be recomputed before it is used.
    pub regen_path: bool,
}

impl AiState {
    pub open spec fn wf(&self) -> bool {
        self.targets.wf()
    }

    pub fn new(kind: AiKind) -> (r: AiState)
        ensures
            r.wf(),
            r.kind == kind,
            r.targets@.len() == 0,
            r.goal@ == Map::<AiProp, bool>::empty(),
            r.plan is None,
            r.next_action is None,
            !r.target_was_switched,
            r.cached_path@.len() == 0,
            r.regen_path,
    {
        AiState {
            kind,
            targets: TargetQueue::new(),
            goal: AiFacts::new(),
            plan: None,
            next_action: None,
            target_was_switched: false,
            cached_path: Vec::new(),
            regen_path: true,
        }
    }

    /// Queues a target; if it becomes the active one, the switch flag is set.
    pub fn add_target(&mut self, t: Target)
        requires
            old(self).wf(),
        ensures
            final(self).wf(),
            final(self).targets@.len() == old(self).targets@.len() + 1,
            final(self).targets@.contains(t),
            final(self).target_was_switched == (old(self).target_was_switched
                || old(self).targets@.len() == 0 || final(self).targets@[0] != old(
                self,
            ).targets@[0]),
            final(self).kind == old(self).kind,
            final(self).goal == old(self).goal,
            final(self).next_action == old(self).next_action,
    {
        let before = self.targets.peek();
        self.targets.push(t);
        let after = self.targets.peek();
        proof {
            let k = choose|k: int|
                0 <= k <= old(self).targets@.len() && self.targets@ == old(self).targets@.insert(
                    k,
                    t,
                );
            assert(self.targets@[k] == t);
        }
        if before != after {
            self.target_was_switched = true;
        }
    }

    /// Drops the active target (it expired or its entity is gone); the next
    /// one becomes active and the switch flag is set.
    pub fn drop_target(&mut self)
        requires
            old(self).wf(),
        ensures
            final(self).wf(),
            old(self).targets@.len() > 0 ==> final(self).targets@ == old(self).targets@.drop_first()
                && final(self).target_was_switched,
            old(self).targets@.len() == 0 ==> final(self).targets@ == old(self).targets@
                && final(self).target_was_switched == old(self).target_was_switched,
            final(self).kind == old(self).kind,
            final(self).goal == old(self).goal,
            final(self).next_action == old(self).next_action,
    {
        if self.targets.pop().is_some() {
            self.target_was_switched = true;
        }
    }

    /// Drops the active target if its goal needs a target entity and the world
    /// reports that entity gone; the next target, or the default policy, takes
    /// over.
    pub fn prune_missing_target(&mut self, head_exists: bool)
        requires
            old(self).wf(),
        ensures
            final(self).wf(),
            old(self).targets@.len() > 0 && old(self).targets@[0].goal.requires_target_spec()
                && !head_exists ==> final(self).targets@ == old(self).targets@.drop_first()
                && final(self).target_was_switched,
            !(old(self).targets@.len() > 0 && old(self).targets@[0].goal.requires_target_spec()
                && !head_exists) ==> final(self).targets@ == old(self).targets@
                && final(self).target_was_switched == old(self).target_was_switched,
            final(self).goal == old(self).goal,
            final(self).next_action == old(self).next_action,
    {
        let stale = match self.targets.peek() {
            Some(t) => t.goal.requires_target() && !head_exists,
            None => false,
        };
        if stale {
            self.drop_target();
        }
    }

    /// Resolves the active target and adopts its goal's end-state. Returns the
    /// target synthesized by the default policy, if the queue was empty.
    pub fn update_goal(&mut self, player: Option<Entity>) -> (r: Option<Target>)
        requires
            old(self).wf(),
        ensures
            final(self).wf(),
            final(self).targets@ == old(self).targets@,
            old(self).targets@.len() > 0 ==> final(self).goal@ == goal_end_state(
                old(self).targets@[0].goal,
            ) && r is None,
            old(self).targets@.len() == 0 ==> final(self).goal@ == goal_end_state(
                default_target(player).goal,
            ) && r == Some(default_target(player)),
            final(self).next_action == old(self).next_action,
            final(self).target_was_switched == old(self).target_was_switched,
            final(self).cached_path@ == old(self).cached_path@,
    {
        let (desired, made) = make_new_plan(&self.targets, player);
        self.goal = desired;
        made
    }

    /// Plans from `facts` towards the goal and caches the first action of the
    /// plan (none if planning failed or nothing is left to do).
    pub fn update_next_action(&mut self, facts: &AiFacts, catalog: &Vec<ActionSpec>)
        requires
            old(self).wf(),
        ensures
            final(self).wf(),
            final(self).targets@ == old(self).targets@,
            final(self).goal == old(self).goal,
            final(self).target_was_switched == old(self).target_was_switched,
            final(self).cached_path@ == old(self).cached_path@,
            plan_cached(*final(self), facts@, old(self).goal@, catalog@),
    {
        let result = plan(facts, &self.goal, catalog);
        let next = match &result {
            Ok(p) => if p.len() > 0 {
                Some(p[0])
            } else {
                None
            },
            Err(_) => None,
        };
        self.next_action = next;
        self.plan = Some(result);
    }

    /// Direction of the next step towards `target` along the cached path,
    /// which is recomputed first if the regenerate flag is set.
    pub fn direction_towards(&mut self, me: Point2d, target: Point2d, grid: &Grid) -> (r: Option<
        Direction,
    >)
        requires
            grid.wf(),
        ensures
            old(self).regen_path ==> path_outcome(
                *grid,
                me,
                target,
                CALCULATION_LIMIT as int,
                final(self).cached_path@,
            ),
            !final(self).regen_path,
            !old(self).regen_path ==> final(self).cached_path@ == old(self).cached_path@,
            r == first_step(me, final(self).cached_path@),
            final(self).targets@ == old(self).targets@,
            final(self).goal == old(self).goal,
            final(self).next_action == old(self).next_action,
            final(self).target_was_switched == old(self).target_was_switched,
            final(self).plan == old(self).plan,
    {
        if self.regen_path {
            self.cached_path = find_path(me, target, grid);
        }
        self.regen_path = false;
        first_step_along(me, &self.cached_path)
    }

    /// The command for `action`: move along the path towards the target, away
    /// from it, shoot, or wait (also when no step towards the target is known).
    pub fn dispatch(&mut self, action: AiAction, me: Point2d, target: Option<Point2d>, grid: &Grid) -> (r:
        AgentCommand)
        requires
            grid.wf(),
        ensures
            r == command_for(action, me, target, final(self).cached_path@),
            moves(action) && target is Some && old(self).regen_path ==> path_outcome(
                *grid,
                me,
                target->Some_0,
                CALCULATION_LIMIT as int,
                final(self).cached_path@,
            ),
            !(moves(action) && target is Some && old(self).regen_path) ==> final(self).cached_path@
                == old(self).cached_path@,
            moves(action) && target is Some ==> !final(self).regen_path,
            !(moves(action) && target is Some) ==> final(self).regen_path == old(self).regen_path,
            final(self).targets@ == old(self).targets@,
            final(self).goal == old(self).goal,
            final(self).next_action == old(self).next_action,
            final(self).target_was_switched == old(self).target_was_switched,
            final(self).plan == old(self).plan,
    {
        match action {
            AiAction::Wait => AgentCommand::Wait,
            AiAction::ShootAt => AgentCommand::Shoot,
            AiAction::MoveCloser => match target {
                Some(t) => match self.direction_towards(me, t, grid) {
                    Some(d) => AgentCommand::Go(d),
                    None => AgentCommand::Wait,
                },
                None => AgentCommand::Wait,
            },
            AiAction::RunAway => match target {
                Some(t) => match self.direction_towards(me, t, grid) {
                    Some(d) => AgentCommand::Go(d.reverse()),
                    None => AgentCommand::Wait,
                },
                None => AgentCommand::Wait,
            },
        }
    }

    /// One evaluation of the agent: dispatches the cached next action (wait if
    /// there is none), then, if the active target was switched, clears the
    /// flag and recomputes the next action from `facts`.
    pub fn choose_action(
        &mut self,
        facts: &AiFacts,
        catalog: &Vec<ActionSpec>,
        me: Point2d,
        target: Option<Point2d>,
        grid: &Grid,
    ) -> (r: AgentCommand)
        requires
            old(self).wf(),
            grid.wf(),
        ensures
            final(self).wf(),
            old(self).next_action is None ==> r == AgentCommand::Wait,
            old(self).next_action is Some ==> r == command_for(
                old(self).next_action->Some_0,
                me,
                target,
                final(self).cached_path@,
            ),
            !final(self).target_was_switched,
            !old(self).target_was_switched ==> final(self).next_action == old(self).next_action
                && final(self).plan == old(self).plan,
            old(self).target_was_switched ==> plan_cached(
                *final(self),
                facts@,
                old(self).goal@,
                catalog@,
            ),
            final(self).targets@ == old(self).targets@,
            final(self).goal == old(self).goal,
    {
        let result = match self.next_action {
            Some(action) => self.dispatch(action, me, target, grid),
            None => AgentCommand::Wait,
        };
        if self.target_was_switched {
            self.target_was_switched = false;
            self.update_next_action(facts, catalog);
        }
        result
    }

    /// One tick of the agent. On a recheck tick the goal is resolved from the
    /// target queue (see `update_goal`), the sensors are sampled and the next
    /// action is planned anew, and the cached path is marked for
    /// regeneration; then the cached next action is dispatched (see
    /// `choose_action`).
    pub fn run(
        &mut self,
        snapshot: &AgentSnapshot,
        config: &SensorConfig,
        catalog: &Vec<ActionSpec>,
        me: Point2d,
        target: Option<Point2d>,
        grid: &Grid,
        player: Option<Entity>,
        recheck: bool,
    ) -> (r: AgentCommand)
        requires
            old(self).wf(),
            grid.wf(),
        ensures
            final(self).wf(),
            final(self).targets@ == old(self).targets@,
            !final(self).target_was_switched,
            recheck && old(self).targets@.len() > 0 ==> final(self).goal@ == goal_end_state(
                old(self).targets@[0].goal,
            ),
            recheck && old(self).targets@.len() == 0 ==> final(self).goal@ == goal_end_state(
                default_target(player).goal,
            ),
            !recheck ==> final(self).goal == old(self).goal,
            recheck || old(self).target_was_switched ==> plan_cached(
                *final(self),
                sensed_facts(*snapshot, *config),
                final(self).goal@,
                catalog@,
            ),
            !recheck && !old(self).target_was_switched ==> final(self).next_action == old(self).next_action,
            !recheck && !old(self).target_was_switched ==> final(self).plan == old(self).plan,
            !old(self).target_was_switched && final(self).next_action is None ==> r
                == AgentCommand::Wait,
            !old(self).target_was_switched && final(self).next_action is Some ==> r == command_for(
                final(self).next_action->Some_0,
                me,
                target,
                final(self).cached_path@,
            ),
    {
        let facts = evaluate(snapshot, config);
        if recheck {
            let _made = self.update_goal(player);
            self.update_next_action(&facts, catalog);
            self.regen_path = true;
        }
        self.choose_action(&facts, catalog, me, target, grid)
    }

    /// What an agent without a next action reports for diagnosis.
    pub fn stuck_report(&self, catalog: &Vec<ActionSpec>) -> (r: StuckReport)
        ensures
            self.plan is None ==> r is NeverPlanned,
            self.plan is Some && self.plan->Some_0 is Ok ==> r is Plan && r->Plan_0@
                == self.plan->Some_0->Ok_0@,
            self.plan is Some && self.plan->Some_0 is Err ==> r is Unsatisfiable && forall|
                p: AiProp,
            | (r->Unsatisfiable_0@.contains(p) <==> unsatisfiable(
                self.plan->Some_0->Err_0@,
                catalog@,
                p,
            )),
    {
        match &self.plan {
            None => StuckReport::NeverPlanned,
            Some(Ok(p)) => StuckReport::Plan(copy_actions(p)),
            Some(Err(failed)) => StuckReport::Unsatisfiable(unsatisfiable_facts(failed, catalog)),
        }
    }
}

} // verus!

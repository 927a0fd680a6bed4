use agent_ai::action::{default_actions, ActionSpec, AiAction};
use agent_ai::facts::{default_ai_facts, AiFacts, AiProp};
use agent_ai::goal::AiGoal;
use agent_ai::planner::{plan, plan_achieves, unsatisfiable_facts};

fn facts(pairs: &[(AiProp, bool)]) -> AiFacts {
    let mut f = AiFacts::new();
    for &(p, v) in pairs {
        f.insert(p, v);
    }
    f
}

fn chase_catalog() -> Vec<ActionSpec> {
    let mut move_closer = ActionSpec::new(AiAction::MoveCloser, 1);
    move_closer.requires_fact(AiProp::HasTarget, true);
    move_closer.produces_fact(AiProp::TargetClose, true);
    let mut attack = ActionSpec::new(AiAction::ShootAt, 1);
    attack.requires_fact(AiProp::TargetClose, true);
    attack.produces_fact(AiProp::TargetDead, true);
    vec![move_closer, attack]
}

fn sensed(pairs: &[(AiProp, bool)]) -> AiFacts {
    let mut f = default_ai_facts();
    f.overlay(&facts(pairs));
    f
}

#[test]
fn simple_chase_plans_move_then_attack() {
    let current = sensed(&[
        (AiProp::HasTarget, true),
        (AiProp::TargetClose, false),
        (AiProp::HealthLow, false),
    ]);
    let goal = AiGoal::KillTarget.get_end_state();
    let result = plan(&current, &goal, &chase_catalog());
    assert_eq!(result.ok(), Some(vec![AiAction::MoveCloser, AiAction::ShootAt]));
}

#[test]
fn facts_missing_from_current_are_no_disagreement() {
    let current = facts(&[
        (AiProp::HasTarget, true),
        (AiProp::TargetClose, false),
        (AiProp::HealthLow, false),
    ]);
    let goal = AiGoal::KillTarget.get_end_state();
    assert_eq!(plan(&current, &goal, &chase_catalog()).ok(), Some(vec![]));
    let wander = AiGoal::Wander.get_end_state();
    assert_eq!(plan(&AiFacts::new(), &wander, &Vec::new()).ok(), Some(vec![]));
}

#[test]
fn already_satisfied_goal_gives_empty_plan() {
    let current = facts(&[(AiProp::TargetDead, true), (AiProp::HealthLow, false)]);
    let goal = AiGoal::KillTarget.get_end_state();
    assert_eq!(plan(&current, &goal, &chase_catalog()).ok(), Some(vec![]));
    assert_eq!(plan(&current, &goal, &default_actions()).ok(), Some(vec![]));
}

#[test]
fn empty_goal_needs_no_action() {
    let current = default_ai_facts();
    let goal = AiFacts::new();
    assert_eq!(plan(&current, &goal, &Vec::new()).ok(), Some(vec![]));
}

#[test]
fn unreachable_goal_fails_and_names_the_fact() {
    let current = facts(&[(AiProp::HealthLow, true), (AiProp::HasTarget, true)]);
    let goal = AiGoal::KillTarget.get_end_state();
    let catalog = default_actions();
    let failed = plan(&current, &goal, &catalog).err().expect("planning must fail");
    assert_eq!(unsatisfiable_facts(&failed, &catalog), vec![AiProp::HealthLow]);
}

#[test]
fn fact_no_action_produces_is_the_only_one_reported() {
    let current = facts(&[(AiProp::HasTarget, true), (AiProp::Moving, false)]);
    let goal = facts(&[(AiProp::Moving, true)]);
    let catalog = default_actions();
    let failed = plan(&current, &goal, &catalog).err().expect("planning must fail");
    assert_eq!(failed.get(AiProp::Moving), Some(true));
    assert_eq!(unsatisfiable_facts(&failed, &catalog), vec![AiProp::Moving]);
}

#[test]
fn default_catalog_plans_kill_from_default_state_with_target() {
    let mut current = default_ai_facts();
    current.insert(AiProp::HasTarget, true);
    let goal = AiGoal::KillTarget.get_end_state();
    let catalog = default_actions();
    let steps = plan(&current, &goal, &catalog).ok().expect("a plan exists");
    assert_eq!(steps, vec![AiAction::MoveCloser, AiAction::ShootAt]);
    assert!(plan_achieves(&current, &goal, &catalog, &steps));
}

#[test]
fn returned_plan_reaches_goal_when_applied() {
    let current = sensed(&[(AiProp::HasTarget, true)]);
    let goal = facts(&[(AiProp::TargetDead, true), (AiProp::TargetClose, true)]);
    let catalog = chase_catalog();
    let steps = plan(&current, &goal, &catalog).ok().expect("a plan exists");
    assert!(plan_achieves(&current, &goal, &catalog, &steps));
    assert!(!plan_achieves(&current, &goal, &catalog, &vec![AiAction::MoveCloser]));
}

#[test]
fn cheaper_action_is_preferred() {
    let mut slow = ActionSpec::new(AiAction::MoveCloser, 5);
    slow.produces_fact(AiProp::TargetClose, true);
    let mut fast = ActionSpec::new(AiAction::RunAway, 1);
    fast.produces_fact(AiProp::TargetClose, true);
    let current = default_ai_facts();
    let goal = facts(&[(AiProp::TargetClose, true)]);
    assert_eq!(plan(&current, &goal, &vec![slow, fast]).ok(), Some(vec![AiAction::RunAway]));
}

#[test]
fn equal_costs_follow_catalog_order() {
    let mut first = ActionSpec::new(AiAction::MoveCloser, 1);
    first.produces_fact(AiProp::TargetClose, true);
    let mut second = ActionSpec::new(AiAction::RunAway, 1);
    second.produces_fact(AiProp::TargetClose, true);
    let current = default_ai_facts();
    let goal = facts(&[(AiProp::TargetClose, true)]);
    assert_eq!(plan(&current, &goal, &vec![first, second]).ok(), Some(vec![AiAction::MoveCloser]));
}

#[test]
fn action_undoing_a_needed_fact_is_not_used() {
    let mut bad = ActionSpec::new(AiAction::RunAway, 1);
    bad.produces_fact(AiProp::TargetClose, true);
    bad.produces_fact(AiProp::TargetDead, false);
    let current = default_ai_facts();
    let goal = facts(&[(AiProp::TargetClose, true), (AiProp::TargetDead, true)]);
    assert!(plan(&current, &goal, &vec![bad]).is_err());
}

#[test]
fn goal_end_states_match_catalog() {
    let wander = AiGoal::Wander.get_end_state();
    assert_eq!(wander.get(AiProp::Moving), Some(true));
    assert_eq!(wander.len(), 1);
    let nothing = AiGoal::DoNothing.get_end_state();
    assert_eq!(nothing.get(AiProp::Exists), Some(false));
    assert_eq!(nothing.len(), 1);
    let kill = AiGoal::KillTarget.get_end_state();
    assert_eq!(kill.get(AiProp::TargetDead), Some(true));
    assert_eq!(kill.get(AiProp::HealthLow), Some(false));
    assert_eq!(kill.len(), 2);
    assert!(AiGoal::KillTarget.requires_target());
    assert!(!AiGoal::Wander.requires_target());
    assert!(!AiGoal::KillTarget.requires_position());
}

#[test]
fn default_facts_cover_every_fact() {
    let f = default_ai_facts();
    assert_eq!(f.len(), 8);
    assert_eq!(f.get(AiProp::Exists), Some(true));
    assert_eq!(f.get(AiProp::HasTarget), Some(false));
    assert_eq!(f.get(AiProp::Moving), Some(false));
}

#[test]
fn overlay_prefers_the_new_values() {
    let mut a = facts(&[(AiProp::HasTarget, true), (AiProp::Moving, false)]);
    let b = facts(&[(AiProp::Moving, true), (AiProp::TargetDead, true)]);
    a.overlay(&b);
    assert_eq!(a.get(AiProp::HasTarget), Some(true));
    assert_eq!(a.get(AiProp::Moving), Some(true));
    assert_eq!(a.get(AiProp::TargetDead), Some(true));
    assert_eq!(a.get(AiProp::HealthLow), None);
    assert_eq!(a.len(), 3);
}

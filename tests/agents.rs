use agent_ai::action::{default_actions, AiAction};
use agent_ai::astar::Grid;
use agent_ai::controller::{AgentCommand, AiState, StuckReport};
use agent_ai::facts::{AiFacts, AiProp};
use agent_ai::goal::{AiGoal, AiKind};
use agent_ai::point::{Direction, Point2d};
use agent_ai::sensors::{evaluate, sense, AgentSnapshot, SensorConfig};
use agent_ai::target::{Entity, Target, TargetObject};

fn config() -> SensorConfig {
    SensorConfig { on_top_dist: 1, in_range_dist: 10, close_dist: 3, health_low_percent: 25 }
}

fn snapshot(target_pos: Option<(i32, i32, i32)>, health: Option<(i32, i32)>) -> AgentSnapshot {
    AgentSnapshot { has_target: target_pos.is_some(), pos: (0, 0, 0), target_pos, health }
}

#[test]
fn sensors_compare_distances_strictly() {
    let s = snapshot(Some((2, 0, 2)), Some((100, 100)));
    let c = config();
    assert!(sense(AiProp::HasTarget, &s, &c));
    assert!(sense(AiProp::TargetClose, &s, &c));
    assert!(sense(AiProp::TargetInRange, &s, &c));
    assert!(!sense(AiProp::OnTopOfTarget, &s, &c));
    let edge = snapshot(Some((3, 0, 0)), None);
    assert!(!sense(AiProp::TargetClose, &edge, &c));
}

#[test]
fn sensors_without_target_report_false() {
    let s = snapshot(None, None);
    let f = evaluate(&s, &config());
    assert_eq!(f.len(), 8);
    assert_eq!(f.get(AiProp::HasTarget), Some(false));
    assert_eq!(f.get(AiProp::TargetClose), Some(false));
    assert_eq!(f.get(AiProp::TargetInRange), Some(false));
    assert_eq!(f.get(AiProp::OnTopOfTarget), Some(false));
    assert_eq!(f.get(AiProp::HealthLow), Some(false));
    assert_eq!(f.get(AiProp::TargetDead), Some(false));
    assert_eq!(f.get(AiProp::Exists), Some(true));
    assert_eq!(f.get(AiProp::Moving), Some(false));
}

#[test]
fn health_low_below_threshold_percent() {
    let c = config();
    assert!(sense(AiProp::HealthLow, &snapshot(None, Some((24, 100))), &c));
    assert!(!sense(AiProp::HealthLow, &snapshot(None, Some((25, 100))), &c));
    assert!(sense(AiProp::HealthLow, &snapshot(None, Some((1, 5))), &c));
    assert!(!sense(AiProp::HealthLow, &snapshot(None, Some((0, 0))), &c));
}

fn chase_facts() -> AiFacts {
    let mut f = AiFacts::new();
    f.insert(AiProp::TargetDead, false);
    f.insert(AiProp::HasTarget, true);
    f.insert(AiProp::TargetClose, false);
    f.insert(AiProp::HealthLow, false);
    f
}

#[test]
fn agent_plans_after_target_switch_and_moves() {
    let catalog = default_actions();
    let grid = Grid::new((5, 5));
    let mut ai = AiState::new(AiKind::SeekTarget);
    let player = Entity { id: 1 };
    ai.add_target(Target { obj: TargetObject::Entity(player), priority: 100, goal: AiGoal::KillTarget });
    assert!(ai.target_was_switched);
    assert_eq!(ai.update_goal(Some(player)), None);
    let me = Point2d::new(1, 1);
    let there = Point2d::new(5, 5);
    let first = ai.choose_action(&chase_facts(), &catalog, me, Some(there), &grid);
    assert_eq!(first, AgentCommand::Wait);
    assert!(!ai.target_was_switched);
    assert_eq!(ai.next_action, Some(AiAction::MoveCloser));
    let second = ai.choose_action(&chase_facts(), &catalog, me, Some(there), &grid);
    assert_eq!(second, AgentCommand::Go(Direction::SE));
    assert!(!ai.regen_path);
    assert_eq!(ai.cached_path.last(), Some(&there));
}

#[test]
fn run_away_goes_the_other_way() {
    let grid = Grid::new((5, 5));
    let mut ai = AiState::new(AiKind::Guard);
    let cmd = ai.dispatch(AiAction::RunAway, Point2d::new(4, 4), Some(Point2d::new(4, 8)), &grid);
    assert_eq!(cmd, AgentCommand::Go(Direction::N));
    let shoot = ai.dispatch(AiAction::ShootAt, Point2d::new(4, 4), None, &grid);
    assert_eq!(shoot, AgentCommand::Shoot);
    let stay = ai.dispatch(AiAction::MoveCloser, Point2d::new(4, 4), None, &grid);
    assert_eq!(stay, AgentCommand::Wait);
}

#[test]
fn stuck_agent_reports_unproducible_facts() {
    let catalog = default_actions();
    let mut ai = AiState::new(AiKind::Wait);
    assert!(matches!(ai.stuck_report(&catalog), StuckReport::NeverPlanned));
    ai.update_goal(Some(Entity { id: 3 }));
    let mut facts = chase_facts();
    facts.insert(AiProp::HealthLow, true);
    ai.update_next_action(&facts, &catalog);
    assert_eq!(ai.next_action, None);
    match ai.stuck_report(&catalog) {
        StuckReport::Unsatisfiable(props) => assert_eq!(props, vec![AiProp::HealthLow]),
        other => panic!("unexpected report {:?}", other),
    }
    let grid = Grid::new((2, 2));
    let cmd = ai.choose_action(&facts, &catalog, Point2d::new(0, 0), None, &grid);
    assert_eq!(cmd, AgentCommand::Wait);
}

#[test]
fn dropping_target_switches() {
    let mut ai = AiState::new(AiKind::Follow);
    ai.drop_target();
    assert!(!ai.target_was_switched);
    ai.add_target(Target::new(AiGoal::Wander));
    ai.target_was_switched = false;
    ai.add_target(Target::new(AiGoal::DoNothing));
    assert!(!ai.target_was_switched);
    ai.drop_target();
    assert!(ai.target_was_switched);
    assert_eq!(ai.targets.len(), 1);
}

#[test]
fn recheck_tick_plans_from_sensed_facts() {
    let catalog = default_actions();
    let grid = Grid::new((5, 5));
    let c = config();
    let mut ai = AiState::new(AiKind::SeekTarget);
    let player = Entity { id: 9 };
    let far = AgentSnapshot { has_target: true, pos: (0, 0, 0), target_pos: Some((8, 0, 8)), health: Some((10, 10)) };
    let quiet = ai.run(&far, &c, &catalog, Point2d::new(1, 1), Some(Point2d::new(4, 4)), &grid, Some(player), false);
    assert_eq!(quiet, AgentCommand::Wait);
    assert!(ai.plan.is_none());
    let first = ai.run(&far, &c, &catalog, Point2d::new(1, 1), Some(Point2d::new(4, 4)), &grid, Some(player), true);
    assert_eq!(first, AgentCommand::Go(Direction::SE));
    assert_eq!(ai.next_action, Some(AiAction::MoveCloser));
    assert_eq!(ai.goal.get(AiProp::TargetDead), Some(true));
    let near = AgentSnapshot { has_target: true, pos: (0, 0, 0), target_pos: Some((1, 0, 1)), health: Some((10, 10)) };
    let second = ai.run(&near, &c, &catalog, Point2d::new(3, 3), Some(Point2d::new(4, 4)), &grid, Some(player), true);
    assert_eq!(second, AgentCommand::Shoot);
    assert_eq!(ai.next_action, Some(AiAction::ShootAt));
}

#[test]
fn satisfied_goal_reports_empty_plan() {
    let catalog = default_actions();
    let mut ai = AiState::new(AiKind::Wait);
    ai.update_goal(None);
    let mut facts = AiFacts::new();
    facts.insert(AiProp::Moving, true);
    ai.update_next_action(&facts, &catalog);
    assert_eq!(ai.next_action, None);
    match ai.stuck_report(&catalog) {
        StuckReport::Plan(p) => assert!(p.is_empty()),
        other => panic!("unexpected report {:?}", other),
    }
}

#[test]
fn missing_target_entity_falls_back() {
    let mut ai = AiState::new(AiKind::SeekTarget);
    let gone = Target { obj: TargetObject::Entity(Entity { id: 4 }), priority: 90, goal: AiGoal::KillTarget };
    let wander = Target { obj: TargetObject::Nothing, priority: 50, goal: AiGoal::Wander };
    ai.add_target(wander);
    ai.add_target(gone);
    ai.target_was_switched = false;
    ai.prune_missing_target(true);
    assert_eq!(ai.targets.len(), 2);
    assert!(!ai.target_was_switched);
    ai.prune_missing_target(false);
    assert_eq!(ai.targets.peek(), Some(wander));
    assert!(ai.target_was_switched);
    ai.prune_missing_target(false);
    assert_eq!(ai.targets.len(), 1);
}

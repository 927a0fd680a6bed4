use agent_ai::goal::AiGoal;
use agent_ai::facts::AiProp;
use agent_ai::target::{
    attack_target, get_default_goal, make_new_plan, select_target, Entity, Target, TargetObject,
    TargetQueue, ATTACK_PRIORITY,
};

fn target(priority: u32) -> Target {
    Target { obj: TargetObject::Entity(Entity { id: priority as u64 }), priority, goal: AiGoal::KillTarget }
}

#[test]
fn highest_priority_first_then_fallback() {
    let mut q = TargetQueue::new();
    q.push(target(10));
    q.push(target(90));
    q.push(target(50));
    assert_eq!(q.len(), 3);
    assert_eq!(q.peek().map(|t| t.priority), Some(90));
    assert_eq!(select_target(&q, None).0.priority, 90);
    assert_eq!(q.pop().map(|t| t.priority), Some(90));
    assert_eq!(q.peek().map(|t| t.priority), Some(50));
    assert_eq!(select_target(&q, None).0.priority, 50);
    assert_eq!(q.pop().map(|t| t.priority), Some(50));
    assert_eq!(q.pop().map(|t| t.priority), Some(10));
    assert_eq!(q.pop(), None);
    assert!(q.is_empty());
}

#[test]
fn equal_priorities_keep_insertion_order() {
    let mut q = TargetQueue::new();
    let a = Target { obj: TargetObject::Entity(Entity { id: 1 }), priority: 5, goal: AiGoal::Wander };
    let b = Target { obj: TargetObject::Entity(Entity { id: 2 }), priority: 5, goal: AiGoal::KillTarget };
    q.push(a);
    q.push(b);
    assert_eq!(q.pop(), Some(a));
    assert_eq!(q.pop(), Some(b));
}

#[test]
fn empty_queue_attacks_player_or_wanders() {
    let q = TargetQueue::new();
    let player = Entity { id: 7 };
    let (t, made) = select_target(&q, Some(player));
    assert!(made);
    assert_eq!(t, attack_target(player));
    assert_eq!(t.priority, ATTACK_PRIORITY);
    assert_eq!(t.entity(), Some(player));
    let (w, made) = select_target(&q, None);
    assert!(made);
    assert_eq!(w, Target::new(AiGoal::Wander));
    assert_eq!(w.entity(), None);
    assert_eq!(get_default_goal(None).goal, AiGoal::Wander);
}

#[test]
fn new_plan_uses_head_goal() {
    let mut q = TargetQueue::new();
    let (desired, made) = make_new_plan(&q, None);
    assert_eq!(made, Some(Target::new(AiGoal::Wander)));
    assert_eq!(desired.get(AiProp::Moving), Some(true));
    q.push(target(3));
    let (desired, made) = make_new_plan(&q, None);
    assert_eq!(made, None);
    assert_eq!(desired.get(AiProp::TargetDead), Some(true));
    assert_eq!(desired.get(AiProp::HealthLow), Some(false));
}

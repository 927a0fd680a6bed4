use agent_ai::components::{Appearance, Chara, CharaAppearance, Health, Name, Team};
use agent_ai::tiles::Tiles;
use agent_ai::ui::{EventResult, LogWindow, UiKey, UiList, UiText};
use agent_ai::util::{get_duration_millis, millis_from_parts};
use std::time::Duration;

#[test]
fn health_hurt_and_kill() {
    let mut h = Health::new(10);
    assert_eq!(h.hit_points, 10);
    assert!(!h.is_dead());
    h.hurt(4);
    assert_eq!(h.hit_points, 6);
    h.hurt(6);
    assert!(h.is_dead());
    h.hurt(-3);
    assert_eq!(h.hit_points, 3);
    h.kill();
    assert_eq!(h.hit_points, 0);
    assert_eq!(h.max_hit_points, 10);
}

#[test]
fn names_and_appearances() {
    assert_eq!(Name::new("mob").name, "mob");
    let a = CharaAppearance::new();
    assert_eq!((a.body_kind, a.hair_kind, a.face_kind), (6, 16, 5));
    match Appearance::new("wall", (0, -70), 2) {
        Appearance::Object(o) => {
            assert_eq!(o.kind, "wall");
            assert_eq!(o.offset, (0, -70));
            assert_eq!(o.variant, 2);
            assert!(!o.directional);
        },
        _ => panic!("expected an object"),
    }
    match Appearance::new_chara() {
        Appearance::Chara(c) => assert_eq!(c.feet_kind, 0),
        _ => panic!("expected a character"),
    }
    assert_eq!(Chara::new().team, Team(0));
}

#[test]
fn tiles_get_and_set() {
    let mut t = Tiles::new((3, 4), 7);
    assert_eq!(t.len(), 12);
    assert_eq!(t.get((1, 2)), Some(7));
    t.set((1, 2), 9);
    assert_eq!(t.get((1, 2)), Some(9));
    assert_eq!(t.get((1, 1)), Some(7));
    assert_eq!(t.get((3, 2)), Some(7));
    assert_eq!(t.get((3, 3)), None);
    assert_eq!(t.get((4, 0)), None);
    t.set((9, 9), 1);
    assert_eq!(t.len(), 12);
}

#[test]
fn ui_list_selection_stays_in_range() {
    let mut list = UiList::new(vec!["a".to_string(), "b".to_string()]);
    assert_eq!(list.get_selected_idx(), Some(0));
    list.select_prev();
    assert_eq!(list.get_selected_idx(), Some(0));
    list.select_next();
    list.select_next();
    assert_eq!(list.get_selected_idx(), Some(1));
    assert_eq!(list.get_selected().map(|t| t.text.clone()), Some("b".to_string()));
    let mut empty = UiList::new(Vec::new());
    empty.select_next();
    assert_eq!(empty.get_selected_idx(), None);
    assert!(empty.get_selected().is_none());
    assert!(!UiText::new("x".to_string()).shadow);
}

#[test]
fn log_window_appends() {
    let mut log = LogWindow::new();
    log.add("one\n");
    log.add("two");
    assert_eq!(log.text(), "one\ntwo");
    log.clear();
    assert_eq!(log.text(), "");
}

#[test]
fn debug_text_joins_lines_until_popped() {
    let mut d = agent_ai::debug::DebugText::new();
    assert_eq!(d.pop_text(), None);
    d.add_text("first".to_string());
    d.add_text("second".to_string());
    assert_eq!(d.pop_text(), Some("first\nsecond".to_string()));
    assert_eq!(d.pop_text(), None);
}

#[test]
fn duration_millis() {
    assert_eq!(get_duration_millis(&Duration::from_millis(1500)), 1500);
    assert_eq!(get_duration_millis(&Duration::new(2, 999_999_999)), 2999);
    assert_eq!(get_duration_millis(&Duration::from_micros(999)), 0);
    assert_eq!(millis_from_parts(u64::MAX, 0), u64::MAX);
    assert_eq!(millis_from_parts(3, 4_000_000), 3004);
}

#[test]
fn ui_list_keys() {
    let mut list = UiList::new(vec!["a".to_string(), "b".to_string(), "c".to_string()]);
    assert_eq!(UiList::update(&UiKey::J, &mut list), EventResult::Consumed);
    assert_eq!(UiList::update(&UiKey::Down, &mut list), EventResult::Consumed);
    assert_eq!(UiList::update(&UiKey::Down, &mut list), EventResult::Consumed);
    assert_eq!(list.get_selected_idx(), Some(2));
    assert_eq!(UiList::update(&UiKey::K, &mut list), EventResult::Consumed);
    assert_eq!(list.get_selected_idx(), Some(1));
    assert_eq!(UiList::update(&UiKey::Other, &mut list), EventResult::Ignored);
    assert_eq!(UiList::update(&UiKey::Return, &mut list), EventResult::Done);
    assert_eq!(UiList::update(&UiKey::Escape, &mut list), EventResult::Canceled);
    assert_eq!(list.get_selected_idx(), Some(1));
}

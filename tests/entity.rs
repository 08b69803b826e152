use sulis_ui::effect::{BonusList, Effect};
use sulis_ui::entity_state::{str_less, ActorState, EntityState, EntityTextureCache, Faction, Location, ObjectSize};

fn entity(x: i32, y: i32, pc: bool) -> EntityState {
    let actor = ActorState::new("hero", if pc { Faction::Friendly } else { Faction::Hostile }, 10, 6, 2);
    let loc = Location { area_id: "town".to_string(), area_width: 20, area_height: 20, x, y };
    let size = ObjectSize { id: "2by2".to_string(), width: 2, height: 2 };
    EntityState::new(actor, loc, size, 0, pc, Some(3))
}

#[test]
fn entity_custom_flags_sorted_and_unique() {
    let mut e = entity(0, 0, true);
    e.set_custom_flag("beta");
    e.set_custom_flag("alpha");
    e.set_custom_flag("gamma");
    e.set_custom_flag("alpha");
    let flags: Vec<&str> = e.custom_flags().iter().map(|s| s.as_str()).collect();
    assert_eq!(flags, vec!["alpha", "beta", "gamma"]);
    assert!(e.has_custom_flag("beta"));
    assert!(!e.has_custom_flag("delta"));
}

#[test]
fn entity_str_less_is_lexicographic() {
    assert!(str_less("ab", "b"));
    assert!(str_less("a", "ab"));
    assert!(!str_less("ab", "ab"));
    assert!(!str_less("b", "ab"));
}

#[test]
fn entity_texture_slot_redrawn_once_after_change() {
    let mut cache = EntityTextureCache::new();
    let mut e = entity(1, 1, true);
    assert_eq!(e.cache(&mut cache), Some(0));
    assert_eq!(e.cache(&mut cache), None);
    e.actor.invalidate_texture_cache();
    assert_eq!(e.cache(&mut cache), Some(0));
    assert_eq!(e.cache(&mut cache), None);
    assert_eq!(cache.slots_used, 1);
    let q = e.draw(10, 20).unwrap();
    assert_eq!((q.x, q.y, q.w, q.h), (11, 21, 2, 2));
}

#[test]
fn entity_cleared_slot_is_reallocated() {
    let mut cache = EntityTextureCache::new();
    let mut e = entity(1, 1, true);
    e.cache(&mut cache);
    e.clear_texture_cache();
    assert!(e.draw(0, 0).is_none());
    assert_eq!(e.cache(&mut cache), Some(1));
}

#[test]
fn entity_move_to_checks_bounds_and_ap() {
    let mut e = entity(0, 0, true);
    assert!(!e.move_to(19, 0, 1, false));
    assert!(!e.move_to(0, 0, 1, false));
    assert!(e.move_to(2, 3, 2, true));
    assert_eq!((e.location.x, e.location.y), (2, 3));
    assert_eq!(e.actor.ap, 2);
    assert!(!e.move_to(4, 3, 2, true));
    assert!(e.move_to(4, 3, 2, false));
}

#[test]
fn entity_remove_hp_marks_for_removal() {
    let mut e = entity(0, 0, false);
    e.remove_hp(4);
    assert_eq!(e.actor.hp, 6);
    assert!(!e.is_marked_for_removal());
    e.remove_hp(6);
    assert!(e.is_marked_for_removal());
}

#[test]
fn entity_ai_flags_and_factions() {
    let mut pc = entity(0, 0, true);
    let mut npc = entity(5, 5, false);
    pc.set_ai_active();
    npc.set_ai_active();
    assert!(!pc.is_ai_active());
    assert!(npc.is_ai_active());
    assert!(pc.is_hostile(&npc));
    assert!(!pc.is_hostile(&pc));
    assert!(pc.can_move());
    assert_eq!(pc.ai_group(), Some(3));
    assert_eq!(pc.center_x(), 1);
    assert_eq!(npc.center_y(), 6);
    assert!(!EntityState::equals(&pc, &npc));
    assert!(EntityState::equals(&pc, &pc));
    npc.add_xp(5);
    assert_eq!(npc.actor.xp, 5);
    assert_eq!(pc.size(), "2by2");
}

#[test]
fn effect_rounds_round_up() {
    let mut e = Effect::new("haste", 12000, BonusList { bonuses: Vec::new() });
    assert_eq!(e.name(), "haste");
    assert_eq!(e.duration_millis(), 12000);
    assert_eq!(e.total_duration_rounds(), 3);
    assert_eq!(e.remaining_duration_rounds(), 3);
    assert!(e.update(3000));
    assert_eq!(e.remaining_duration_rounds(), 2);
    assert!(!e.update(5000));
    assert!(!e.is_removal());
    e.update(4000);
    assert!(e.is_removal());
    assert_eq!(e.remaining_duration_rounds(), 0);
    e.update(1000);
    assert_eq!(e.remaining_duration_rounds(), 0);
}

#[test]
fn entity_equality_by_area_and_index() {
    let a = entity(0, 0, true);
    let mut b = entity(4, 4, false);
    assert!(a == b);
    b.index = 7;
    assert!(a != b);
}

use sulis_ui::ability_pane::{Ability, AbilityName, AbilityPane, AttributePrereq, ClassLevel, PrereqList};
use sulis_ui::geometry::Sizing;
use sulis_ui::kind::WidgetKind;
use sulis_ui::tree::WidgetTree;

fn ability(active: Option<u32>, prereqs: Option<PrereqList>) -> Ability {
    Ability {
        id: "cleave".to_string(),
        name: "Cleave".to_string(),
        description: "Hits twice".to_string(),
        active_ap: active,
        prereqs,
    }
}

fn arg(t: &WidgetTree, w: usize, k: &str) -> Option<String> {
    t.nodes[w].state.get_text_arg(k)
}

#[test]
fn ability_pane_without_ability_adds_nothing() {
    let mut t = WidgetTree::new(WidgetKind::AbilityPane, "ability_pane", Sizing::default_sizing());
    let pane = AbilityPane::empty();
    assert_eq!(pane.get_name(), "ability_pane");
    assert!(pane.on_add(&mut t, 0, 10, &Vec::new()).is_empty());
    assert_eq!(t.nodes.len(), 1);
}

#[test]
fn ability_pane_active_ability() {
    let mut t = WidgetTree::new(WidgetKind::AbilityPane, "ability_pane", Sizing::default_sizing());
    let pane = AbilityPane::new(ability(Some(3000), None));
    let kids = pane.on_add(&mut t, 0, 1000, &Vec::new());
    let d = kids[0];
    assert_eq!(t.nodes[d].theme, "details");
    assert_eq!(arg(&t, d, "name").as_deref(), Some("Cleave"));
    assert_eq!(arg(&t, d, "description").as_deref(), Some("Hits twice"));
    assert_eq!(arg(&t, d, "active").as_deref(), Some("true"));
    assert_eq!(arg(&t, d, "activate_ap").as_deref(), Some("3"));
    assert_eq!(arg(&t, d, "passive"), None);
    assert_eq!(arg(&t, d, "prereqs"), None);
}

#[test]
fn ability_pane_prerequisites() {
    let prereqs = PrereqList {
        attributes: Some(vec![AttributePrereq { short_name: "str".to_string(), amount: 14 }]),
        levels: vec![
            ClassLevel { class_id: "fighter".to_string(), level: 3 },
            ClassLevel { class_id: "rogue".to_string(), level: 1 },
        ],
        total_level: Some(5),
        race: Some("dwarf".to_string()),
        abilities: vec!["missing".to_string(), "bash".to_string()],
    };
    let known = vec![AbilityName { id: "bash".to_string(), name: "Shield Bash".to_string() }];
    let mut t = WidgetTree::new(WidgetKind::AbilityPane, "ability_pane", Sizing::default_sizing());
    let mut pane = AbilityPane::empty();
    pane.set_ability(ability(None, Some(prereqs)));
    let d = pane.on_add(&mut t, 0, 1000, &known)[0];
    assert_eq!(arg(&t, d, "passive").as_deref(), Some("true"));
    assert_eq!(arg(&t, d, "prereqs").as_deref(), Some("true"));
    assert_eq!(arg(&t, d, "prereq_str").as_deref(), Some("14"));
    assert_eq!(arg(&t, d, "prereq_class_0").as_deref(), Some("fighter"));
    assert_eq!(arg(&t, d, "prereq_level_0").as_deref(), Some("3"));
    assert_eq!(arg(&t, d, "prereq_class_1").as_deref(), Some("rogue"));
    assert_eq!(arg(&t, d, "prereq_level_1").as_deref(), Some("1"));
    assert_eq!(arg(&t, d, "prereq_total_level").as_deref(), Some("5"));
    assert_eq!(arg(&t, d, "prereq_race").as_deref(), Some("dwarf"));
    assert_eq!(arg(&t, d, "prereq_ability_0"), None);
    assert_eq!(arg(&t, d, "prereq_ability_1").as_deref(), Some("Shield Bash"));
    pane.clear_ability();
    assert!(pane.ability.is_none());
}

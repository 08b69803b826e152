use vstd::prelude::*;
use vstd::string::StringExecFns;

use crate::geometry::Sizing;
use crate::kind::WidgetKind;
use crate::text::{decimal, u64_to_string};
use crate::tree::{Node, WidgetTree};

verus! {

/// A minimum value of an attribute, by the attribute's short name.
#[derive(Clone, Debug)]
pub struct AttributePrereq {
    pub short_name: String,
    pub amount: u32,
}

/// A minimum level in a class.
#[derive(Clone, Debug)]
pub struct ClassLevel {
    pub class_id: String,
    pub level: u32,
}

/// What a character needs before taking an ability.
#[derive(Clone, Debug)]
pub struct PrereqList {
    pub attributes: Option<Vec<AttributePrereq>>,
    pub levels: Vec<ClassLevel>,
    pub total_level: Option<u32>,
    pub race: Option<String>,
    /// Ids of abilities the character must already have.
    pub abilities: Vec<String>,
}

/// An ability as the pane describes it.
#[derive(Clone, Debug)]
pub struct Ability {
    pub id: String,
    pub name: String,
    pub description: String,
    /// The action points an active ability costs; `None` for a passive one.
    pub active_ap: Option<u32>,
    pub prereqs: Option<PrereqList>,
}

/// The name of an ability, by id, as the module lists it.
#[derive(Clone, Debug)]
pub struct AbilityName {
    pub id: String,
    pub name: String,
}

/// A sequence of text argument writes, in order.
pub type Writes = Seq<(Seq<char>, Seq<char>)>;

/// The value key `k` has after `writes`, starting from `base`: the last
/// write to `k` wins.
pub open spec fn apply(base: Option<Seq<char>>, writes: Writes, k: Seq<char>) -> Option<Seq<char>>
    decreases writes.len(),
{
    if writes.len() == 0 {
        base
    } else if writes.last().0 == k {
        Some(writes.last().1)
    } else {
        apply(base, writes.drop_last(), k)
    }
}

pub open spec fn attr_writes(attrs: Seq<AttributePrereq>) -> Writes
    decreases attrs.len(),
{
    if attrs.len() == 0 {
        Seq::empty()
    } else {
        attr_writes(attrs.drop_last()).push(("prereq_"@ + attrs.last().short_name@, decimal(attrs.last().amount as int)))
    }
}

pub open spec fn level_writes(levels: Seq<ClassLevel>) -> Writes
    decreases levels.len(),
{
    if levels.len() == 0 {
        Seq::empty()
    } else {
        let i = levels.len() - 1;
        level_writes(levels.drop_last())
            .push(("prereq_class_"@ + decimal(i), levels.last().class_id@))
            .push(("prereq_level_"@ + decimal(i), decimal(levels.last().level as int)))
    }
}

/// The name of the first known ability with id `id`.
pub open spec fn known_name(known: Seq<AbilityName>, id: Seq<char>) -> Option<Seq<char>>
    decreases known.len(),
{
    if known.len() == 0 {
        None
    } else {
        match known_name(known.drop_last(), id) {
            Some(n) => Some(n),
            None => if known.last().id@ == id {
                Some(known.last().name@)
            } else {
                None
            },
        }
    }
}

/// One write per required ability that is known; unknown ones are skipped.
pub open spec fn ability_writes(ids: Seq<String>, known: Seq<AbilityName>) -> Writes
    decreases ids.len(),
{
    if ids.len() == 0 {
        Seq::empty()
    } else {
        let i = ids.len() - 1;
        match known_name(known, ids.last()@) {
            Some(n) => ability_writes(ids.drop_last(), known).push(("prereq_ability_"@ + decimal(i), n)),
            None => ability_writes(ids.drop_last(), known),
        }
    }
}

pub open spec fn opt_attr_writes(p: PrereqList) -> Writes {
    match p.attributes {
        Some(a) => attr_writes(a@),
        None => Seq::empty(),
    }
}

pub open spec fn total_level_writes(p: PrereqList) -> Writes {
    match p.total_level {
        Some(t) => seq![("prereq_total_level"@, decimal(t as int))],
        None => Seq::empty(),
    }
}

pub open spec fn race_writes(p: PrereqList) -> Writes {
    match p.race {
        Some(r) => seq![("prereq_race"@, r@)],
        None => Seq::empty(),
    }
}

pub open spec fn prereq_writes(p: PrereqList, known: Seq<AbilityName>) -> Writes {
    seq![("prereqs"@, "true"@)] + opt_attr_writes(p) + level_writes(p.levels@) + total_level_writes(p)
        + race_writes(p) + ability_writes(p.abilities@, known)
}

/// The text arguments describing an ability, in the order they are written.
pub open spec fn ability_args(a: Ability, display_ap: u32, known: Seq<AbilityName>) -> Writes {
    seq![("name"@, a.name@), ("description"@, a.description@)]
        + match a.active_ap {
            Some(ap) => seq![("active"@, "true"@), ("activate_ap"@, decimal(ap as int / display_ap as int))],
            None => seq![("passive"@, "true"@)],
        }
        + match a.prereqs {
            Some(p) => prereq_writes(p, known),
            None => Seq::empty(),
        }
}

/// `t1` is `t0` with only the text arguments of widget `w` changed, each
/// key now as `writes` leave it.
pub open spec fn args_written(t0: WidgetTree, t1: WidgetTree, w: int, writes: Writes) -> bool {
    &&& t1.wf()
    &&& t1.len() == t0.len()
    &&& t1.mouse_over == t0.mouse_over
    &&& forall|i: int| 0 <= i < t0.len() && i != w ==> #[trigger] t1.node(i) == t0.node(i)
    &&& t1.node(w) == (Node { state: t1.node(w).state, ..t0.node(w) })
    &&& t1.node(w).state.same_but_args(&t0.node(w).state)
    &&& forall|k: Seq<char>| #[trigger] t1.node(w).state.arg(k) == apply(t0.node(w).state.arg(k), writes, k)
}

/// Writes one argument, extending the record of writes.
fn put(tree: &mut WidgetTree, w: usize, key: &str, value: &str, Ghost(t0): Ghost<WidgetTree>, Ghost(writes): Ghost<Writes>)
    requires
        old(tree).wf(),
        t0.alive(w as int),
        args_written(t0, *old(tree), w as int, writes),
    ensures
        args_written(t0, *final(tree), w as int, writes.push((key@, value@))),
{
    let ghost t1 = *tree;
    tree.add_text_arg(w, key, value);
    proof {
        let t2 = *tree;
        assert forall|i: int| 0 <= i < t0.len() && i != w implies #[trigger] t2.node(i) == t0.node(i) by {
            assert(t2.node(i) == t1.node(i));
        }
        assert forall|k: Seq<char>| #[trigger] t2.node(w as int).state.arg(k) == apply(t0.node(w as int).state.arg(k), writes.push((key@, value@)), k) by {
            assert(writes.push((key@, value@)).drop_last() =~= writes);
        }
    }
}

/// Sets on widget `w` the text arguments describing `ability`: name,
/// description, whether it is active and its cost in displayed action
/// points, and its prerequisites. Required abilities missing from `known`
/// are skipped.
pub fn add_ability_text_args(tree: &mut WidgetTree, w: usize, ability: &Ability, display_ap: u32, known: &Vec<AbilityName>)
    requires
        old(tree).wf(),
        old(tree).alive(w as int),
        display_ap > 0,
    ensures
        args_written(*old(tree), *final(tree), w as int, ability_args(*ability, display_ap, known@)),
{
    proof {
        reveal_strlit("name");
        reveal_strlit("description");
        reveal_strlit("active");
        reveal_strlit("true");
        reveal_strlit("activate_ap");
        reveal_strlit("passive");
    }
    let ghost t0 = *tree;
    assert(args_written(t0, *tree, w as int, Seq::empty()));
    put(tree, w, "name", ability.name.as_str(), Ghost(t0), Ghost(Seq::empty()));
    let ghost wr = Seq::<(Seq<char>, Seq<char>)>::empty().push(("name"@, ability.name@));
    put(tree, w, "description", ability.description.as_str(), Ghost(t0), Ghost(wr));
    let ghost wr = wr.push(("description"@, ability.description@));
    assert(wr =~= seq![("name"@, ability.name@), ("description"@, ability.description@)]);
    let ghost wr = match ability.active_ap {
        Some(ap) => wr + seq![("active"@, "true"@), ("activate_ap"@, decimal(ap as int / display_ap as int))],
        None => wr + seq![("passive"@, "true"@)],
    };
    match ability.active_ap {
        Some(ap) => {
            let ghost w0 = seq![("name"@, ability.name@), ("description"@, ability.description@)];
            put(tree, w, "active", "true", Ghost(t0), Ghost(w0));
            let shown = u64_to_string((ap / display_ap) as u64);
            put(tree, w, "activate_ap", shown.as_str(), Ghost(t0), Ghost(w0.push(("active"@, "true"@))));
            assert(w0.push(("active"@, "true"@)).push(("activate_ap"@, shown@)) =~= wr);
        },
        None => {
            let ghost w0 = seq![("name"@, ability.name@), ("description"@, ability.description@)];
            put(tree, w, "passive", "true", Ghost(t0), Ghost(w0));
            assert(w0.push(("passive"@, "true"@)) =~= wr);
        },
    }
    match &ability.prereqs {
        Some(p) => {
            add_prereq_text_args(tree, w, p, known, Ghost(t0), Ghost(wr));
        },
        None => {
            assert(wr + Seq::<(Seq<char>, Seq<char>)>::empty() =~= wr);
        },
    }
}

fn add_prereq_text_args(tree: &mut WidgetTree, w: usize, p: &PrereqList, known: &Vec<AbilityName>, Ghost(t0): Ghost<WidgetTree>, Ghost(wr): Ghost<Writes>)
    requires
        old(tree).wf(),
        t0.alive(w as int),
        args_written(t0, *old(tree), w as int, wr),
    ensures
        args_written(t0, *final(tree), w as int, wr + prereq_writes(*p, known@)),
{
    proof {
        reveal_strlit("prereqs");
        reveal_strlit("true");
        reveal_strlit("prereq_");
        reveal_strlit("prereq_class_");
        reveal_strlit("prereq_level_");
        reveal_strlit("prereq_total_level");
        reveal_strlit("prereq_race");
        reveal_strlit("prereq_ability_");
    }
    put(tree, w, "prereqs", "true", Ghost(t0), Ghost(wr));
    let ghost cur = wr.push(("prereqs"@, "true"@));
    let ghost attrs_w = opt_attr_writes(*p);
    if let Some(attrs) = &p.attributes {
        let mut i: usize = 0;
        while i < attrs.len()
            invariant
                tree.wf(),
                t0.alive(w as int),
                i <= attrs@.len(),
                args_written(t0, *tree, w as int, cur + attr_writes(attrs@.subrange(0, i as int))),
            decreases attrs@.len() - i,
        {
            let key = "prereq_".to_owned().concat(attrs[i].short_name.as_str());
            let value = u64_to_string(attrs[i].amount as u64);
            let ghost before = cur + attr_writes(attrs@.subrange(0, i as int));
            put(tree, w, key.as_str(), value.as_str(), Ghost(t0), Ghost(before));
            proof {
                assert(attrs@.subrange(0, i + 1).drop_last() =~= attrs@.subrange(0, i as int));
                assert(before.push((key@, value@)) =~= cur + attr_writes(attrs@.subrange(0, i + 1)));
            }
            i = i + 1;
        }
        assert(attrs@.subrange(0, attrs@.len() as int) =~= attrs@);
    } else {
        assert(cur + attrs_w =~= cur);
    }
    let ghost cur = cur + attrs_w;
    let mut i: usize = 0;
    assert(cur + level_writes(p.levels@.subrange(0, 0)) =~= cur);
    while i < p.levels.len()
        invariant
            tree.wf(),
            t0.alive(w as int),
            i <= p.levels@.len(),
            args_written(t0, *tree, w as int, cur + level_writes(p.levels@.subrange(0, i as int))),
        decreases p.levels@.len() - i,
    {
        let idx = u64_to_string(i as u64);
        let k1 = "prereq_class_".to_owned().concat(idx.as_str());
        let ghost b1 = cur + level_writes(p.levels@.subrange(0, i as int));
        put(tree, w, k1.as_str(), p.levels[i].class_id.as_str(), Ghost(t0), Ghost(b1));
        let k2 = "prereq_level_".to_owned().concat(idx.as_str());
        let lv = u64_to_string(p.levels[i].level as u64);
        put(tree, w, k2.as_str(), lv.as_str(), Ghost(t0), Ghost(b1.push((k1@, p.levels@[i as int].class_id@))));
        proof {
            let s1 = p.levels@.subrange(0, i + 1);
            assert(s1.drop_last() =~= p.levels@.subrange(0, i as int));
            assert(s1.len() - 1 == i);
            assert(b1.push((k1@, p.levels@[i as int].class_id@)).push((k2@, lv@)) =~= cur + level_writes(s1));
        }
        i = i + 1;
    }
    assert(p.levels@.subrange(0, p.levels@.len() as int) =~= p.levels@);
    let ghost cur = cur + level_writes(p.levels@);
    match p.total_level {
        Some(t) => {
            let v = u64_to_string(t as u64);
            put(tree, w, "prereq_total_level", v.as_str(), Ghost(t0), Ghost(cur));
            assert(cur.push(("prereq_total_level"@, v@)) =~= cur + total_level_writes(*p));
        },
        None => {
            assert(cur + total_level_writes(*p) =~= cur);
        },
    }
    let ghost cur = cur + total_level_writes(*p);
    match &p.race {
        Some(r) => {
            put(tree, w, "prereq_race", r.as_str(), Ghost(t0), Ghost(cur));
            assert(cur.push(("prereq_race"@, r@)) =~= cur + race_writes(*p));
        },
        None => {
            assert(cur + race_writes(*p) =~= cur);
        },
    }
    let ghost cur = cur + race_writes(*p);
    let mut i: usize = 0;
    assert(cur + ability_writes(p.abilities@.subrange(0, 0), known@) =~= cur);
    while i < p.abilities.len()
        invariant
            tree.wf(),
            t0.alive(w as int),
            i <= p.abilities@.len(),
            args_written(t0, *tree, w as int, cur + ability_writes(p.abilities@.subrange(0, i as int), known@)),
        decreases p.abilities@.len() - i,
    {
        let ghost b1 = cur + ability_writes(p.abilities@.subrange(0, i as int), known@);
        let s1 = Ghost(p.abilities@.subrange(0, i + 1));
        proof {
            assert(s1@.drop_last() =~= p.abilities@.subrange(0, i as int));
        }
        match find_ability(known, &p.abilities[i]) {
            None => {},
            Some(name) => {
                let idx = u64_to_string(i as u64);
                let key = "prereq_ability_".to_owned().concat(idx.as_str());
                put(tree, w, key.as_str(), name.as_str(), Ghost(t0), Ghost(b1));
                assert(b1.push((key@, name@)) =~= cur + ability_writes(s1@, known@));
            },
        }
        i = i + 1;
    }
    assert(p.abilities@.subrange(0, p.abilities@.len() as int) =~= p.abilities@);
    proof {
        assert(wr + prereq_writes(*p, known@) =~= cur + ability_writes(p.abilities@, known@));
    }
}

/// The name of the first known ability with this id.
fn find_ability(known: &Vec<AbilityName>, id: &String) -> (r: Option<String>)
    ensures
        match r {
            Some(n) => known_name(known@, id@) == Some(n@),
            None => known_name(known@, id@) is None,
        },
{
    let mut i: usize = 0;
    while i < known.len()
        invariant
            i <= known@.len(),
            known_name(known@.subrange(0, i as int), id@) is None,
        decreases known@.len() - i,
    {
        proof {
            assert(known@.subrange(0, i + 1).drop_last() =~= known@.subrange(0, i as int));
        }
        if known[i].id == *id {
            proof { lemma_known_prefix(known@, id@, i as int + 1); }
            return Some(known[i].name.clone());
        }
        i = i + 1;
    }
    assert(known@.subrange(0, known@.len() as int) =~= known@);
    None
}

/// A name found among the first `n` entries is the name found among all.
proof fn lemma_known_prefix(known: Seq<AbilityName>, id: Seq<char>, n: int)
    requires
        0 <= n <= known.len(),
        known_name(known.subrange(0, n), id) is Some,
    ensures
        known_name(known, id) == known_name(known.subrange(0, n), id),
    decreases known.len() - n,
{
    if n < known.len() {
        assert(known.subrange(0, n + 1).drop_last() =~= known.subrange(0, n));
        lemma_known_prefix(known, id, n + 1);
    } else {
        assert(known.subrange(0, n) =~= known);
    }
}

/// The pane describing one ability, in a details box built when it is added.
#[derive(Debug)]
pub struct AbilityPane {
    pub ability: Option<Ability>,
}

impl AbilityPane {
    pub fn empty() -> (r: AbilityPane)
        ensures
            r.ability is None,
    {
        AbilityPane { ability: None }
    }

    pub fn new(ability: Ability) -> (r: AbilityPane)
        ensures
            r.ability == Some(ability),
    {
        AbilityPane { ability: Some(ability) }
    }

    pub fn clear_ability(&mut self)
        ensures
            final(self).ability is None,
    {
        self.ability = None;
    }

    pub fn set_ability(&mut self, ability: Ability)
        ensures
            final(self).ability == Some(ability),
    {
        self.ability = Some(ability);
    }

    pub fn get_name(&self) -> (r: &'static str)
        ensures
            r@ == "ability_pane"@,
    {
        "ability_pane"
    }

    /// Attaches under `w` a details box describing the ability and returns
    /// it; with no ability nothing is attached.
    pub fn on_add(&self, tree: &mut WidgetTree, w: usize, display_ap: u32, known: &Vec<AbilityName>) -> (r: Vec<usize>)
        requires
            old(tree).wf(),
            old(tree).alive(w as int),
            !old(tree).node(w as int).kind.is_hover(),
            old(tree).len() < usize::MAX,
            display_ap > 0,
        ensures
            final(tree).wf(),
            match self.ability {
                None => r@.len() == 0 && *final(tree) == *old(tree),
                Some(a) => {
                    let d = old(tree).len();
                    &&& r@ == seq![d as usize]
                    &&& final(tree).len() == d + 1
                    &&& final(tree).node(d).kind == WidgetKind::TextArea
                    &&& final(tree).node(d).theme@ == "details"@
                    &&& final(tree).node(d).parent == Some(w)
                    &&& final(tree).children_of(w as int) == old(tree).children_of(w as int).push(d as usize)
                    &&& forall|k: Seq<char>| #[trigger] final(tree).node(d).state.arg(k) == apply(None, ability_args(a, display_ap, known@), k)
                },
            },
    {
        match &self.ability {
            None => Vec::new(),
            Some(ability) => {
                proof { reveal_strlit("details"); }
                let d = tree.add_child(w, WidgetKind::TextArea, "details", Sizing::default_sizing());
                let ghost t1 = *tree;
                add_ability_text_args(tree, d, ability, display_ap, known);
                proof {
                    let t2 = *tree;
                    assert(t2.node(w as int) == t1.node(w as int));
                    assert forall|k: Seq<char>| #[trigger] t1.node(d as int).state.arg(k) is None by {}
                }
                let mut r: Vec<usize> = Vec::new();
                r.push(d);
                r
            },
        }
    }
}

} // verus!

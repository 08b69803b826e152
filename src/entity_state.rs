use vstd::prelude::*;
use vstd::string::StrSliceExecFns;

use crate::render::{Quad, Source};

verus! {

/// Strict lexicographic order on character sequences, comparing code
/// points; for strings it is the order of `str`'s `Ord`.
pub open spec fn lex_lt(a: Seq<char>, b: Seq<char>) -> bool
    decreases a.len(),
{
    if b.len() == 0 {
        false
    } else if a.len() == 0 {
        true
    } else if a[0] != b[0] {
        a[0] < b[0]
    } else {
        lex_lt(a.drop_first(), b.drop_first())
    }
}

/// Two different sequences are ordered one way or the other.
proof fn lemma_lex_total(a: Seq<char>, b: Seq<char>)
    requires
        a != b,
    ensures
        lex_lt(a, b) || lex_lt(b, a),
    decreases a.len(),
{
    if a.len() > 0 && b.len() > 0 && a[0] == b[0] {
        if a.drop_first() == b.drop_first() {
            assert(a =~= seq![a[0]] + a.drop_first());
            assert(b =~= seq![b[0]] + b.drop_first());
        }
        lemma_lex_total(a.drop_first(), b.drop_first());
    } else if a.len() == 0 && b.len() == 0 {
        assert(a =~= b);
    }
}

proof fn lemma_mul_u32(a: u32, b: u32)
    ensures
        a as int * b as int <= u64::MAX,
{
    assert(a as int * b as int <= u32::MAX as int * u32::MAX as int) by (nonlinear_arith)
        requires a <= u32::MAX, b <= u32::MAX, a >= 0, b >= 0;
}

/// Compares two strings in lexicographic order.
pub fn str_less(a: &str, b: &str) -> (r: bool)
    ensures
        r == lex_lt(a@, b@),
{
    let na = a.unicode_len();
    let nb = b.unicode_len();
    let mut i: usize = 0;
    assert(a@.skip(0) =~= a@);
    assert(b@.skip(0) =~= b@);
    while i < na && i < nb
        invariant
            na == a@.len(),
            nb == b@.len(),
            i <= na && i <= nb,
            lex_lt(a@, b@) == lex_lt(a@.skip(i as int), b@.skip(i as int)),
        decreases na - i,
    {
        let ca = a.get_char(i);
        let cb = b.get_char(i);
        if ca != cb {
            return ca < cb;
        }
        assert(a@.skip(i as int).drop_first() =~= a@.skip(i + 1));
        assert(b@.skip(i as int).drop_first() =~= b@.skip(i + 1));
        i = i + 1;
    }
    i < nb
}

/// Strictly increasing, so also free of duplicates.
pub open spec fn sorted_flags(s: Seq<String>) -> bool {
    forall|i: int| 0 <= i < s.len() - 1 ==> lex_lt(#[trigger] s[i]@, s[i + 1]@)
}

/// The texts of a list of strings.
pub open spec fn texts(s: Seq<String>) -> Seq<Seq<char>> {
    s.map_values(|x: String| x@)
}

/// A rectangle of tiles within an area.
#[derive(Clone, Debug, PartialEq, Eq)]
pub struct Location {
    pub area_id: String,
    pub area_width: i32,
    pub area_height: i32,
    pub x: i32,
    pub y: i32,
}

impl Location {
    pub open spec fn spec_coords_valid(&self, x: int, y: int) -> bool {
        0 <= x < self.area_width && 0 <= y < self.area_height
    }

    /// True when the tile lies inside the area.
    pub fn coords_valid(&self, x: i32, y: i32) -> (r: bool)
        ensures
            r == self.spec_coords_valid(x as int, y as int),
    {
        0 <= x && x < self.area_width && 0 <= y && y < self.area_height
    }

    pub fn equals(&self, o: &Location) -> (r: bool)
        ensures
            r == (self.area_id@ == o.area_id@ && self.x == o.x && self.y == o.y
                && self.area_width == o.area_width && self.area_height == o.area_height),
    {
        self.area_id == o.area_id && self.x == o.x && self.y == o.y && self.area_width == o.area_width
            && self.area_height == o.area_height
    }
}

/// The footprint of an entity in tiles.
#[derive(Clone, Debug)]
pub struct ObjectSize {
    pub id: String,
    pub width: i32,
    pub height: i32,
}

/// The allegiance of an actor.
#[derive(Clone, Copy, Debug, PartialEq, Eq, Structural)]
pub enum Faction {
    Friendly,
    Hostile,
    Neutral,
}

/// The parts of an actor's state that the view and the entity rules read.
#[derive(Clone, Debug)]
pub struct ActorState {
    pub name: String,
    pub faction: Faction,
    pub hp: i32,
    pub ap: u32,
    pub xp: u32,
    /// The action points one square of movement costs.
    pub move_ap: u32,
    /// Set whenever the actor's composed appearance changes (equipment,
    /// effects); cleared when the entity's texture slot is redrawn.
    pub texture_cache_invalid: bool,
}

impl ActorState {
    pub fn new(name: &str, faction: Faction, hp: i32, ap: u32, move_ap: u32) -> (r: ActorState)
        ensures
            r.name@ == name@,
            r.faction == faction,
            r.hp == hp,
            r.ap == ap,
            r.xp == 0,
            r.move_ap == move_ap,
            r.texture_cache_invalid,
    {
        ActorState { name: name.to_owned(), faction, hp, ap, xp: 0, move_ap, texture_cache_invalid: true }
    }

    /// Records that the actor's appearance changed, as an equipment swap does.
    pub fn invalidate_texture_cache(&mut self)
        ensures
            *final(self) == (ActorState { texture_cache_invalid: true, ..*old(self) }),
    {
        self.texture_cache_invalid = true;
    }

    /// The action points moving `squares` squares costs, saturating.
    pub fn get_move_ap_cost(&self, squares: u32) -> (r: u32)
        ensures
            r as int == if self.move_ap as int * squares as int > u32::MAX { u32::MAX as int } else { self.move_ap as int * squares as int },
    {
        proof { lemma_mul_u32(self.move_ap, squares); }
        let c: u64 = self.move_ap as u64 * squares as u64;
        if c > u32::MAX as u64 {
            u32::MAX
        } else {
            c as u32
        }
    }
}

/// Hands out the slots of the shared entity texture, one per entity.
#[derive(Debug)]
pub struct EntityTextureCache {
    pub slots_used: usize,
}

impl EntityTextureCache {
    pub fn new() -> (r: EntityTextureCache)
        ensures
            r.slots_used == 0,
    {
        EntityTextureCache { slots_used: 0 }
    }

    /// Reserves the next free slot.
    pub fn add_entity(&mut self) -> (slot: usize)
        requires
            old(self).slots_used < usize::MAX,
        ensures
            slot == old(self).slots_used,
            final(self).slots_used == old(self).slots_used + 1,
    {
        let s = self.slots_used;
        self.slots_used = s + 1;
        s
    }
}

/// An entity placed in an area.
#[derive(Debug)]
pub struct EntityState {
    pub actor: ActorState,
    pub location: Location,
    pub size: ObjectSize,
    /// Position of the entity in its area's list.
    pub index: usize,
    pub ai_group: Option<usize>,
    pub is_pc: bool,
    pub ai_active: bool,
    pub marked_for_removal: bool,
    pub texture_cache_slot: Option<usize>,
    pub custom_flags: Vec<String>,
}

impl PartialEq for EntityState {
    /// Two entity states are the same entity when they share an area and an
    /// index in it.
    fn eq(&self, other: &EntityState) -> (r: bool) {
        self.location.area_id == other.location.area_id && self.index == other.index
    }
}

impl vstd::std_specs::cmp::PartialEqSpecImpl for EntityState {
    open spec fn obeys_eq_spec() -> bool {
        true
    }

    open spec fn eq_spec(&self, other: &EntityState) -> bool {
        self.location.area_id@ == other.location.area_id@ && self.index == other.index
    }
}

impl EntityState {
    pub open spec fn spec_ai_group(&self) -> Option<usize> {
        self.ai_group
    }

    pub open spec fn spec_is_pc(&self) -> bool {
        self.is_pc
    }

    pub open spec fn spec_ai_active(&self) -> bool {
        self.ai_active
    }

    pub open spec fn spec_marked(&self) -> bool {
        self.marked_for_removal
    }

    pub open spec fn spec_slot(&self) -> Option<usize> {
        self.texture_cache_slot
    }

    pub open spec fn spec_flags(&self) -> Seq<String> {
        self.custom_flags@
    }

    pub open spec fn wf(&self) -> bool {
        sorted_flags(self.spec_flags())
    }

    pub fn new(actor: ActorState, location: Location, size: ObjectSize, index: usize, is_pc: bool, ai_group: Option<usize>) -> (r: EntityState)
        ensures
            r.wf(),
            r.actor == actor,
            r.location == location,
            r.size == size,
            r.index == index,
            r.spec_is_pc() == is_pc,
            r.spec_ai_group() == ai_group,
            !r.spec_ai_active(),
            !r.spec_marked(),
            r.spec_slot() is None,
            r.spec_flags().len() == 0,
    {
        EntityState {
            actor,
            location,
            size,
            index,
            ai_group,
            is_pc,
            ai_active: false,
            marked_for_removal: false,
            texture_cache_slot: None,
            custom_flags: Vec::new(),
        }
    }

    /// The custom flags, in increasing order.
    pub fn custom_flags(&self) -> (r: &Vec<String>)
        ensures
            r@ == self.spec_flags(),
    {
        &self.custom_flags
    }

    /// Adds a custom flag; the flags stay sorted and free of duplicates.
    pub fn set_custom_flag(&mut self, flag: &str)
        requires
            old(self).wf(),
        ensures
            final(self).wf(),
            texts(final(self).spec_flags()).to_set() == texts(old(self).spec_flags()).to_set().insert(flag@),
            final(self).actor == old(self).actor,
            final(self).location == old(self).location,
            final(self).index == old(self).index,
            final(self).spec_slot() == old(self).spec_slot(),
            final(self).spec_marked() == old(self).spec_marked(),
            final(self).spec_ai_active() == old(self).spec_ai_active(),
    {
        let ghost s0 = self.custom_flags@;
        if self.has_custom_flag(flag) {
            proof {
                let k = choose|k: int| 0 <= k < s0.len() && (#[trigger] s0[k])@ == flag@;
                assert(texts(s0)[k] == flag@);
                assert(texts(s0).to_set().insert(flag@) =~= texts(s0).to_set());
            }
            return;
        }
        let mut p: usize = 0;
        while p < self.custom_flags.len() && str_less(self.custom_flags[p].as_str(), flag)
            invariant
                p <= s0.len(),
                self.custom_flags@ == s0,
                forall|j: int| 0 <= j < p ==> lex_lt(#[trigger] s0[j]@, flag@),
            decreases s0.len() - p,
        {
            p = p + 1;
        }
        self.custom_flags.insert(p, flag.to_owned());
        proof {
            let s1 = self.custom_flags@;
            assert(s1 =~= s0.insert(p as int, s1[p as int]));
            if p < s0.len() {
                assert(!lex_lt(s0[p as int]@, flag@));
                assert(s0[p as int]@ != flag@);
                lemma_lex_total(s0[p as int]@, flag@);
            }
            assert forall|i: int| 0 <= i < s1.len() - 1 implies lex_lt(#[trigger] s1[i]@, s1[i + 1]@) by {
                if i < p - 1 {
                    assert(s1[i] == s0[i] && s1[i + 1] == s0[i + 1]);
                } else if i == p - 1 {
                } else if i == p {
                } else {
                    assert(s1[i] == s0[i - 1] && s1[i + 1] == s0[i]);
                }
            }
            assert forall|t: Seq<char>| texts(s1).to_set().contains(t) <==> texts(s0).to_set().insert(flag@).contains(t) by {
                if texts(s1).contains(t) {
                    let k = choose|k: int| 0 <= k < texts(s1).len() && texts(s1)[k] == t;
                    if k < p {
                        assert(texts(s0)[k] == t);
                    } else if k > p {
                        assert(texts(s0)[k - 1] == t);
                    }
                }
                if texts(s0).contains(t) {
                    let k = choose|k: int| 0 <= k < texts(s0).len() && texts(s0)[k] == t;
                    if k < p {
                        assert(texts(s1)[k] == t);
                    } else {
                        assert(texts(s1)[k + 1] == t);
                    }
                }
                if t == flag@ {
                    assert(texts(s1)[p as int] == t);
                }
            }
            assert(texts(s1).to_set() =~= texts(s0).to_set().insert(flag@));
        }
    }

    pub fn has_custom_flag(&self, flag: &str) -> (r: bool)
        ensures
            r == exists|k: int| 0 <= k < self.spec_flags().len() && (#[trigger] self.spec_flags()[k])@ == flag@,
    {
        let f = flag.to_owned();
        let mut i: usize = 0;
        while i < self.custom_flags.len()
            invariant
                i <= self.custom_flags@.len(),
                f@ == flag@,
                forall|j: int| 0 <= j < i ==> (#[trigger] self.custom_flags@[j])@ != flag@,
            decreases self.custom_flags@.len() - i,
        {
            if self.custom_flags[i] == f {
                assert(self.spec_flags()[i as int]@ == flag@);
                return true;
            }
            i = i + 1;
        }
        false
    }

    /// Forgets the entity's texture slot; the next `cache` reserves a new one.
    pub fn clear_texture_cache(&mut self)
        ensures
            final(self).spec_slot() is None,
            final(self).actor == old(self).actor,
            final(self).location == old(self).location,
            final(self).spec_flags() == old(self).spec_flags(),
            final(self).spec_marked() == old(self).spec_marked(),
    {
        self.texture_cache_slot = None;
    }

    pub fn ai_group(&self) -> (r: Option<usize>)
        ensures
            r == self.spec_ai_group(),
    {
        self.ai_group
    }

    /// Switches the AI on; player characters are never AI driven.
    pub fn set_ai_active(&mut self)
        ensures
            final(self).spec_ai_active() == (old(self).spec_ai_active() || !old(self).spec_is_pc()),
            final(self).spec_is_pc() == old(self).spec_is_pc(),
            final(self).spec_flags() == old(self).spec_flags(),
            final(self).spec_slot() == old(self).spec_slot(),
            final(self).actor == old(self).actor,
            final(self).location == old(self).location,
    {
        if self.is_pc() {
            return;
        }
        self.ai_active = true;
    }

    pub fn is_ai_active(&self) -> (r: bool)
        ensures
            r == self.spec_ai_active(),
    {
        self.ai_active
    }

    pub fn is_pc(&self) -> (r: bool)
        ensures
            r == self.spec_is_pc(),
    {
        self.is_pc
    }

    /// True when the two entities' actors belong to different factions.
    pub fn is_hostile(&self, other: &EntityState) -> (r: bool)
        ensures
            r == (self.actor.faction != other.actor.faction),
    {
        self.actor.faction != other.actor.faction
    }

    pub fn is_marked_for_removal(&self) -> (r: bool)
        ensures
            r == self.spec_marked(),
    {
        self.marked_for_removal
    }

    /// True when the entity has the action points to move one square.
    pub fn can_move(&self) -> (r: bool)
        ensures
            r == (self.actor.ap >= self.actor.move_ap),
    {
        self.actor.ap >= self.actor.get_move_ap_cost(1)
    }

    pub fn add_xp(&mut self, xp: u32)
        ensures
            final(self).actor.xp as int == if old(self).actor.xp as int + xp > u32::MAX { u32::MAX as int } else { old(self).actor.xp as int + xp },
            final(self).actor.hp == old(self).actor.hp,
            final(self).spec_marked() == old(self).spec_marked(),
            final(self).spec_flags() == old(self).spec_flags(),
    {
        self.actor.xp = self.actor.xp.saturating_add(xp);
    }

    /// Takes hit points away; an entity left with none is marked for removal.
    pub fn remove_hp(&mut self, hp: u32)
        ensures
            final(self).actor.hp as int == if old(self).actor.hp as int - hp < i32::MIN { i32::MIN as int } else { old(self).actor.hp as int - hp },
            final(self).spec_marked() == (old(self).spec_marked() || final(self).actor.hp <= 0),
            final(self).spec_flags() == old(self).spec_flags(),
            final(self).location == old(self).location,
    {
        let v: i64 = self.actor.hp as i64 - hp as i64;
        self.actor.hp = if v < i32::MIN as i64 { i32::MIN } else { v as i32 };
        if self.actor.hp <= 0 {
            self.marked_for_removal = true;
        }
    }

    pub open spec fn spec_move_ok(&self, x: int, y: int, squares: int, timer_active: bool) -> bool {
        &&& self.location.spec_coords_valid(x, y)
        &&& self.location.spec_coords_valid(x + self.size.width - 1, y + self.size.height - 1)
        &&& !(x == self.location.x && y == self.location.y)
        &&& !(timer_active && squares > 0 && self.actor.ap < self.actor.move_ap * squares)
    }

    /// Moves the entity so its top left tile is at `(x, y)`. The whole
    /// footprint must stay inside the area and the entity must actually
    /// move; while the turn timer runs, moving `squares` squares costs
    /// action points, which the entity must have. Returns whether it moved,
    /// in which case its listeners are to be told.
    pub fn move_to(&mut self, x: i32, y: i32, squares: u32, timer_active: bool) -> (moved: bool)
        ensures
            moved == old(self).spec_move_ok(x as int, y as int, squares as int, timer_active),
            moved ==> final(self).location == (Location { x, y, ..old(self).location }),
            !moved ==> final(self).location == old(self).location && final(self).actor == old(self).actor,
            moved ==> final(self).actor.ap as int == old(self).actor.ap - if timer_active && squares > 0 {
                old(self).actor.move_ap * squares
            } else {
                0
            },
            final(self).spec_flags() == old(self).spec_flags(),
            final(self).spec_slot() == old(self).spec_slot(),
            final(self).spec_marked() == old(self).spec_marked(),
    {
        if !self.location.coords_valid(x, y) {
            return false;
        }
        let x2: i64 = x as i64 + self.size.width as i64 - 1;
        let y2: i64 = y as i64 + self.size.height as i64 - 1;
        if x2 < 0 || y2 < 0 || x2 >= self.location.area_width as i64 || y2 >= self.location.area_height as i64 {
            return false;
        }
        if x == self.location.x && y == self.location.y {
            return false;
        }
        if timer_active && squares > 0 {
            proof { lemma_mul_u32(self.actor.move_ap, squares); }
            let cost: u64 = self.actor.move_ap as u64 * squares as u64;
            if (self.actor.ap as u64) < cost {
                return false;
            }
            self.actor.ap = self.actor.ap - cost as u32;
        }
        self.location.x = x;
        self.location.y = y;
        true
    }

    pub fn center_x(&self) -> (r: i32)
        ensures
            r as int == crate::geometry::clamp_i32(self.location.x + crate::label::half_toward_zero(self.size.width as int)),
    {
        crate::geometry::sat_add(self.location.x, self.size.width / 2)
    }

    pub fn center_y(&self) -> (r: i32)
        ensures
            r as int == crate::geometry::clamp_i32(self.location.y + crate::label::half_toward_zero(self.size.height as int)),
    {
        crate::geometry::sat_add(self.location.y, self.size.height / 2)
    }

    pub fn size(&self) -> (r: &str)
        ensures
            r@ == self.size.id@,
    {
        self.size.id.as_str()
    }

    /// True when `x, y` is one of the tiles the entity covers.
    pub open spec fn spec_covers(&self, x: int, y: int) -> bool {
        &&& self.location.x <= x < self.location.x + self.size.width
        &&& self.location.y <= y < self.location.y + self.size.height
    }

    /// True when the entity covers tile `(x, y)`.
    pub fn covers(&self, x: i32, y: i32) -> (r: bool)
        ensures
            r == self.spec_covers(x as int, y as int),
    {
        let right: i64 = self.location.x as i64 + self.size.width as i64;
        let bottom: i64 = self.location.y as i64 + self.size.height as i64;
        self.location.x <= x && (x as i64) < right && self.location.y <= y && (y as i64) < bottom
    }

    /// True when both refer to the same entity: same place and same index.
    pub fn equals(e1: &EntityState, e2: &EntityState) -> (r: bool)
        ensures
            r == (e1.location.area_id@ == e2.location.area_id@ && e1.location.x == e2.location.x
                && e1.location.y == e2.location.y && e1.location.area_width == e2.location.area_width
                && e1.location.area_height == e2.location.area_height && e1.index == e2.index),
    {
        if !e1.location.equals(&e2.location) {
            return false;
        }
        e1.index == e2.index
    }

    /// Brings the entity's texture slot up to date. An entity without a
    /// slot is given one, which is drawn as it is reserved; an entity whose
    /// appearance changed has its slot redrawn. Returns the slot drawn into
    /// this frame, if any.
    pub fn cache(&mut self, texture_cache: &mut EntityTextureCache) -> (redrawn: Option<usize>)
        requires
            old(texture_cache).slots_used < usize::MAX,
        ensures
            redrawn == if old(self).spec_slot() is None {
                Some(old(texture_cache).slots_used)
            } else if old(self).actor.texture_cache_invalid {
                old(self).spec_slot()
            } else {
                None
            },
            final(self).spec_slot() == if old(self).spec_slot() is None {
                Some(old(texture_cache).slots_used)
            } else {
                old(self).spec_slot()
            },
            final(texture_cache).slots_used == old(texture_cache).slots_used + if old(self).spec_slot() is None { 1int } else { 0int },
            !final(self).actor.texture_cache_invalid,
            final(self).actor == (ActorState { texture_cache_invalid: false, ..old(self).actor }),
            final(self).location == old(self).location,
            final(self).size == old(self).size,
            final(self).index == old(self).index,
            final(self).spec_flags() == old(self).spec_flags(),
            final(self).spec_marked() == old(self).spec_marked(),
    {
        if self.texture_cache_slot.is_none() {
            let slot = texture_cache.add_entity();
            self.texture_cache_slot = Some(slot);
            self.actor.texture_cache_invalid = false;
            return Some(slot);
        }
        if self.actor.texture_cache_invalid {
            self.actor.texture_cache_invalid = false;
            return self.texture_cache_slot;
        }
        None
    }

    /// The quad showing the entity's cached texture at offset `(x, y)`, if
    /// it has a slot.
    pub fn draw(&self, x: i32, y: i32) -> (r: Option<Quad>)
        ensures
            match self.spec_slot() {
                Some(s) => r == Some(Quad {
                    source: Source::EntitySlot(s),
                    x: crate::geometry::clamp_i32(x + self.location.x) as i32,
                    y: crate::geometry::clamp_i32(y + self.location.y) as i32,
                    w: self.size.width,
                    h: self.size.height,
                }),
                None => r is None,
            },
    {
        match self.texture_cache_slot {
            Some(s) => Some(Quad {
                source: Source::EntitySlot(s),
                x: crate::geometry::sat_add(x, self.location.x),
                y: crate::geometry::sat_add(y, self.location.y),
                w: self.size.width,
                h: self.size.height,
            }),
            None => None,
        }
    }

    pub fn location(&self) -> (r: &Location)
        ensures
            *r == self.location,
    {
        &self.location
    }
}

} // verus!

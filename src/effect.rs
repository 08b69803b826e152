use vstd::prelude::*;

verus! {

/// The length of one combat round.
pub const ROUND_TIME_MILLIS: u32 = 5000;

/// One bonus an effect grants, by kind and amount.
#[derive(Clone, Debug)]
pub struct Bonus {
    pub kind: String,
    pub amount: i32,
}

/// The bonuses an effect grants while it lasts.
#[derive(Clone, Debug)]
pub struct BonusList {
    pub bonuses: Vec<Bonus>,
}

/// `n / d` rounded up.
pub open spec fn ceil_div(n: int, d: int) -> int {
    (n + d - 1) / d
}

/// A timed effect on an entity.
#[derive(Debug)]
pub struct Effect {
    name: String,
    cur_duration: u32,
    total_duration: u32,
    bonuses: BonusList,
}

impl Effect {
    pub closed spec fn spec_name(&self) -> Seq<char> {
        self.name@
    }

    pub closed spec fn spec_cur(&self) -> int {
        self.cur_duration as int
    }

    pub closed spec fn spec_total(&self) -> int {
        self.total_duration as int
    }

    pub closed spec fn spec_bonuses(&self) -> BonusList {
        self.bonuses
    }

    pub fn new(name: &str, duration: u32, bonuses: BonusList) -> (r: Effect)
        ensures
            r.spec_name() == name@,
            r.spec_cur() == 0,
            r.spec_total() == duration,
            r.spec_bonuses() == bonuses,
    {
        Effect { name: name.to_owned(), cur_duration: 0, total_duration: duration, bonuses }
    }

    /// Advances the effect by `millis_elapsed`. Returns true when the
    /// position inside the current round changed, which is when the
    /// effect's listeners are to be told.
    pub fn update(&mut self, millis_elapsed: u32) -> (notify: bool)
        requires
            old(self).spec_cur() + millis_elapsed <= u32::MAX,
        ensures
            final(self).spec_cur() == old(self).spec_cur() + millis_elapsed,
            final(self).spec_total() == old(self).spec_total(),
            final(self).spec_name() == old(self).spec_name(),
            final(self).spec_bonuses() == old(self).spec_bonuses(),
            notify == (old(self).spec_cur() % ROUND_TIME_MILLIS as int != final(self).spec_cur() % ROUND_TIME_MILLIS as int),
    {
        let cur_mod = self.cur_duration % ROUND_TIME_MILLIS;
        self.cur_duration = self.cur_duration + millis_elapsed;
        cur_mod != self.cur_duration % ROUND_TIME_MILLIS
    }

    /// True once the effect has run its full duration; its removal
    /// listeners are then to be told.
    pub fn is_removal(&self) -> (r: bool)
        ensures
            r == (self.spec_cur() >= self.spec_total()),
    {
        self.cur_duration >= self.total_duration
    }

    pub fn name(&self) -> (r: &str)
        ensures
            r@ == self.spec_name(),
    {
        self.name.as_str()
    }

    pub fn bonuses(&self) -> (r: &BonusList)
        ensures
            *r == self.spec_bonuses(),
    {
        &self.bonuses
    }

    pub fn duration_millis(&self) -> (r: u32)
        ensures
            r == self.spec_total(),
    {
        self.total_duration
    }

    /// The full duration in rounds, counting a partial round as a whole one.
    pub fn total_duration_rounds(&self) -> (r: u32)
        ensures
            r as int == ceil_div(self.spec_total(), ROUND_TIME_MILLIS as int),
    {
        let t = self.total_duration;
        let r = t / ROUND_TIME_MILLIS + if t % ROUND_TIME_MILLIS == 0 { 0 } else { 1 };
        proof { lemma_ceil(t as int); }
        r
    }

    /// The rounds left, counting a partial round as a whole one; zero once
    /// the effect has expired.
    pub fn remaining_duration_rounds(&self) -> (r: u32)
        ensures
            r as int == if self.spec_cur() > self.spec_total() {
                0
            } else {
                ceil_div(self.spec_total() - self.spec_cur(), ROUND_TIME_MILLIS as int)
            },
    {
        if self.cur_duration > self.total_duration {
            return 0;
        }
        let t = self.total_duration - self.cur_duration;
        let r = t / ROUND_TIME_MILLIS + if t % ROUND_TIME_MILLIS == 0 { 0 } else { 1 };
        proof { lemma_ceil(t as int); }
        r
    }
}

proof fn lemma_ceil(t: int)
    requires
        t >= 0,
    ensures
        ceil_div(t, ROUND_TIME_MILLIS as int) == t / ROUND_TIME_MILLIS as int + if t % ROUND_TIME_MILLIS as int == 0 { 0int } else { 1int },
{
    let d = ROUND_TIME_MILLIS as int;
    let q = t / d;
    let m = t % d;
    assert(t == q * d + m && 0 <= m < d) by (nonlinear_arith)
        requires d == 5000, q == t / d, m == t % d;
    assert((t + d - 1) / d == q + if m == 0 { 0int } else { 1int }) by (nonlinear_arith)
        requires d == 5000, t == q * d + m, 0 <= m < d, q >= 0;
}

} // verus!

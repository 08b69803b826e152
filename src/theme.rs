use vstd::prelude::*;

use crate::geometry::Sizing;

verus! {

/// One entry of a loaded theme: the sizing declared for a widget id.
#[derive(Debug)]
pub struct ThemeEntry {
    pub id: String,
    pub sizing: Sizing,
}

/// The sizing policies a theme declares, by widget id.
#[derive(Debug)]
pub struct Theme {
    pub entries: Vec<ThemeEntry>,
}

/// The sizing of the first entry for `id`, if any.
pub open spec fn theme_sizing(entries: Seq<ThemeEntry>, id: Seq<char>) -> Option<Sizing>
    decreases entries.len(),
{
    if entries.len() == 0 {
        None
    } else {
        match theme_sizing(entries.drop_last(), id) {
            Some(s) => Some(s),
            None => if entries.last().id@ == id {
                Some(entries.last().sizing)
            } else {
                None
            },
        }
    }
}

impl Theme {
    /// The sizing declared for `id`; an id the theme lacks falls back to
    /// the default sizing.
    pub fn lookup(&self, id: &str) -> (r: Sizing)
        ensures
            r == match theme_sizing(self.entries@, id@) {
                Some(s) => s,
                None => Sizing { x: 0, y: 0, width: 0, height: 0, border: crate::geometry::Border { top: 0, bottom: 0, left: 0, right: 0 } },
            },
    {
        let key = id.to_owned();
        let mut i: usize = 0;
        while i < self.entries.len()
            invariant
                i <= self.entries@.len(),
                key@ == id@,
                theme_sizing(self.entries@.subrange(0, i as int), id@) is None,
            decreases self.entries@.len() - i,
        {
            proof {
                assert(self.entries@.subrange(0, i + 1).drop_last() =~= self.entries@.subrange(0, i as int));
            }
            if self.entries[i].id == key {
                proof { lemma_theme_prefix(self.entries@, id@, i as int + 1); }
                return self.entries[i].sizing;
            }
            i = i + 1;
        }
        assert(self.entries@.subrange(0, self.entries@.len() as int) =~= self.entries@);
        Sizing::default_sizing()
    }
}

proof fn lemma_theme_prefix(entries: Seq<ThemeEntry>, id: Seq<char>, n: int)
    requires
        0 <= n <= entries.len(),
        theme_sizing(entries.subrange(0, n), id) is Some,
    ensures
        theme_sizing(entries, id) == theme_sizing(entries.subrange(0, n), id),
    decreases entries.len() - n,
{
    if n < entries.len() {
        assert(entries.subrange(0, n + 1).drop_last() =~= entries.subrange(0, n));
        lemma_theme_prefix(entries, id, n + 1);
    } else {
        assert(entries.subrange(0, n) =~= entries);
    }
}

} // verus!

use vstd::prelude::*;

use crate::callback::Callback;
use crate::geometry::{Rect, Sizing};

verus! {

/// One named substitution argument handed to the theme's text renderer.
#[derive(Debug)]
pub struct TextArg {
    pub key: String,
    pub value: String,
}

/// True when some argument in `args` has the key `k`.
pub open spec fn has_key(args: Seq<TextArg>, k: Seq<char>) -> bool {
    exists|i: int| 0 <= i < args.len() && (#[trigger] args[i]).key@ == k
}

/// The position of key `k` in `args`, which holds each key at most once.
pub open spec fn key_pos(args: Seq<TextArg>, k: Seq<char>) -> int {
    choose|i: int| 0 <= i < args.len() && (#[trigger] args[i]).key@ == k
}

/// No key appears twice.
pub open spec fn keys_unique(args: Seq<TextArg>) -> bool {
    forall|i: int, j: int|
        0 <= i < args.len() && 0 <= j < args.len() && (#[trigger] args[i]).key@ == (#[trigger] args[j]).key@
            ==> i == j
}

/// The value bound to key `k`, if any.
pub open spec fn arg_value(args: Seq<TextArg>, k: Seq<char>) -> Option<Seq<char>> {
    if has_key(args, k) {
        Some(args[key_pos(args, k)].value@)
    } else {
        None
    }
}

/// The per-node data of a widget: its theme-declared sizing, its resolved
/// geometry, its flags, its text arguments and its callbacks.
#[derive(Debug)]
pub struct WidgetState {
    pub sizing: Sizing,
    pub rect: Rect,
    pub inner: Rect,
    pub enabled: bool,
    pub active: bool,
    pub modal: bool,
    pub visible: bool,
    pub text_args: Vec<TextArg>,
    pub callbacks: Vec<Callback>,
}

/// The first position in `args` holding key `key`, or the length of `args`
/// when there is none.
fn find_key(args: &Vec<TextArg>, key: &String) -> (r: usize)
    ensures
        r <= args@.len(),
        r < args@.len() ==> args@[r as int].key@ == key@,
        forall|j: int| 0 <= j < r ==> (#[trigger] args@[j]).key@ != key@,
{
    let mut i: usize = 0;
    while i < args.len()
        invariant
            0 <= i <= args@.len(),
            forall|j: int| 0 <= j < i ==> (#[trigger] args@[j]).key@ != key@,
        decreases args@.len() - i,
    {
        if args[i].key == *key {
            return i;
        }
        i = i + 1;
    }
    i
}

impl WidgetState {
    pub open spec fn wf(&self) -> bool {
        keys_unique(self.text_args@)
    }

    /// The value of the text argument `k`, if set.
    pub open spec fn arg(&self, k: Seq<char>) -> Option<Seq<char>> {
        arg_value(self.text_args@, k)
    }

    /// True when `self` and `o` differ at most in their text arguments.
    pub open spec fn same_but_args(&self, o: &WidgetState) -> bool {
        &&& self.sizing == o.sizing
        &&& self.rect == o.rect
        &&& self.inner == o.inner
        &&& self.enabled == o.enabled
        &&& self.active == o.active
        &&& self.modal == o.modal
        &&& self.visible == o.visible
        &&& self.callbacks@ == o.callbacks@
    }

    pub open spec fn fresh(self, sizing: Sizing) -> bool {
        &&& self.sizing == sizing
        &&& self.rect == (Rect { x: 0, y: 0, width: 0, height: 0 })
        &&& self.inner == (Rect { x: 0, y: 0, width: 0, height: 0 })
        &&& self.enabled
        &&& !self.active
        &&& !self.modal
        &&& self.visible
        &&& self.text_args@.len() == 0
        &&& self.callbacks@.len() == 0
    }

    pub fn new(sizing: Sizing) -> (r: WidgetState)
        ensures
            r.fresh(sizing),
            r.wf(),
    {
        WidgetState {
            sizing,
            rect: Rect::empty(),
            inner: Rect::empty(),
            enabled: true,
            active: false,
            modal: false,
            visible: true,
            text_args: Vec::new(),
            callbacks: Vec::new(),
        }
    }

    /// Binds `value` to `key`: an existing key keeps its place and takes the
    /// new value, a new key goes at the end.
    pub fn add_text_arg(&mut self, key: &str, value: &str)
        requires
            old(self).wf(),
        ensures
            final(self).wf(),
            final(self).same_but_args(old(self)),
            final(self).text_args@.len() == old(self).text_args@.len() + (if has_key(
                old(self).text_args@,
                key@,
            ) {
                0int
            } else {
                1int
            }),
            forall|i: int|
                0 <= i < old(self).text_args@.len() && old(self).text_args@[i].key@ != key@
                    ==> #[trigger] final(self).text_args@[i] == old(self).text_args@[i],
            forall|i: int|
                0 <= i < old(self).text_args@.len() ==> (#[trigger] final(self).text_args@[i]).key@
                    == old(self).text_args@[i].key@,
            forall|k: Seq<char>| #[trigger]
                final(self).arg(k) == if k == key@ {
                    Some(value@)
                } else {
                    old(self).arg(k)
                },
    {
        let ghost args0 = self.text_args@;
        let key_s = key.to_owned();
        let i = find_key(&self.text_args, &key_s);
        let arg = TextArg { key: key_s, value: value.to_owned() };
        if i < self.text_args.len() {
            self.text_args.set(i, arg);
            assert(self.text_args@[i as int].key@ == key@);
            assert(has_key(args0, key@));
        } else {
            self.text_args.push(arg);
            assert(self.text_args@.last().key@ == key@);
            assert(!has_key(args0, key@));
        }
        let ghost args1 = self.text_args@;
        assert(keys_unique(args1));
        assert forall|k: Seq<char>| #[trigger]
            arg_value(args1, k) == if k == key@ {
                Some(value@)
            } else {
                arg_value(args0, k)
            } by {
            if k == key@ {
                let p = if i < args0.len() {
                    i as int
                } else {
                    args0.len() as int
                };
                assert(args1[p].key@ == k);
                assert(has_key(args1, k));
            } else {
                if has_key(args0, k) {
                    let q = key_pos(args0, k);
                    assert(args1[q].key@ == k);
                    assert(has_key(args1, k));
                } else {
                    assert forall|j: int| 0 <= j < args1.len() implies (#[trigger] args1[j]).key@
                        != k by {
                        if j < args0.len() {
                            assert(args0[j].key@ != k);
                        }
                    }
                }
            }
        }
    }

    /// Removes every text argument.
    pub fn clear_text_args(&mut self)
        ensures
            final(self).wf(),
            final(self).text_args@.len() == 0,
            final(self).same_but_args(old(self)),
    {
        self.text_args = Vec::new();
    }

    /// Looks up the value bound to `key`.
    pub fn get_text_arg(&self, key: &str) -> (r: Option<String>)
        requires
            self.wf(),
        ensures
            match r {
                Some(v) => self.arg(key@) == Some(v@),
                None => self.arg(key@) is None,
            },
    {
        let i = find_key(&self.text_args, &key.to_owned());
        if i < self.text_args.len() {
            assert(has_key(self.text_args@, key@));
            return Some(self.text_args[i].value.clone());
        }
        None
    }

    pub fn add_callback(&mut self, cb: Callback)
        ensures
            final(self).callbacks@ == old(self).callbacks@.push(cb),
            final(self).text_args@ == old(self).text_args@,
            final(self).sizing == old(self).sizing,
            final(self).rect == old(self).rect,
            final(self).inner == old(self).inner,
            final(self).enabled == old(self).enabled,
            final(self).active == old(self).active,
            final(self).modal == old(self).modal,
            final(self).visible == old(self).visible,
    {
        self.callbacks.push(cb);
    }
}

} // verus!

//! Variable scopes of the tree-walking interpreter. Scopes live in one arena
//! and are named by their position there; each knows the scope that encloses
//! it, which was made before it, so every chain of scopes ends at a root.

use vstd::prelude::*;

use crate::value::str_equal;

verus! {

/// One scope: its names and their values, and the scope around it.
pub struct Frame<V> {
    names: Vec<String>,
    values: Vec<V>,
    enclosing: Option<usize>,
    scope: Ghost<Map<Seq<char>, V>>,
}

impl<V> Frame<V> {
    spec fn wf(&self) -> bool {
        &&& self.names@.len() == self.values@.len()
        &&& forall|i: int, j: int| 0 <= i < j < self.names@.len() ==> self.names@[i]@ != self.names@[j]@
        &&& forall|i: int| 0 <= i < self.names@.len() ==> #[trigger] self.scope@.contains_key(self.names@[i]@)
            && self.scope@[self.names@[i]@] == self.values@[i]
        &&& forall|k: Seq<char>| #[trigger] self.scope@.contains_key(k) ==> exists|i: int| 0 <= i < self.names@.len() && self.names@[i]@ == k
    }

    /// The position of `name` among the names, if it is there.
    fn find(&self, name: &str) -> (res: Option<usize>)
        requires
            self.wf(),
        ensures
            match res {
                Some(i) => i < self.names@.len() && self.names@[i as int]@ == name@,
                None => !self.scope@.contains_key(name@),
            },
    {
        let mut i: usize = 0;
        while i < self.names.len()
            invariant
                self.wf(),
                i <= self.names@.len(),
                forall|j: int| 0 <= j < i ==> self.names@[j]@ != name@,
            decreases self.names@.len() - i,
        {
            if str_equal(self.names[i].as_str(), name) {
                return Some(i);
            }
            i = i + 1;
        }
        None
    }
}

/// All the scopes made so far.
pub struct Environments<V> {
    frames: Vec<Frame<V>>,
}

impl<V> Environments<V> {
    /// The number of scopes.
    pub closed spec fn spec_len(&self) -> nat {
        self.frames@.len()
    }

    /// The names and values of scope `e` itself.
    pub closed spec fn scope(&self, e: int) -> Map<Seq<char>, V> {
        self.frames@[e].scope@
    }

    /// The scope around scope `e`.
    pub closed spec fn enclosing(&self, e: int) -> Option<usize> {
        self.frames@[e].enclosing
    }

    pub closed spec fn wf(&self) -> bool {
        forall|e: int| 0 <= e < self.frames@.len() ==> {
            &&& (#[trigger] self.frames@[e]).wf()
            &&& self.frames@[e].enclosing matches Some(p) ==> p < e
        }
    }

    /// The value `key` has as seen from scope `e`: in `e` itself, or else in
    /// the scopes around it.
    pub open spec fn lookup(&self, e: int, key: Seq<char>) -> Option<V>
        decreases e,
    {
        if e < 0 || e >= self.spec_len() {
            None
        } else if self.scope(e).contains_key(key) {
            Some(self.scope(e)[key])
        } else {
            match self.enclosing(e) {
                Some(p) => if 0 <= p < e {
                    self.lookup(p as int, key)
                } else {
                    None
                },
                None => None,
            }
        }
    }

    /// The scope that holds `key` as seen from scope `e`.
    pub open spec fn holder(&self, e: int, key: Seq<char>) -> Option<int>
        decreases e,
    {
        if e < 0 || e >= self.spec_len() {
            None
        } else if self.scope(e).contains_key(key) {
            Some(e)
        } else {
            match self.enclosing(e) {
                Some(p) => if 0 <= p < e {
                    self.holder(p as int, key)
                } else {
                    None
                },
                None => None,
            }
        }
    }

    /// The scope `distance` steps out from `e`.
    pub open spec fn ancestor(&self, e: int, distance: nat) -> Option<int>
        decreases distance,
    {
        if e < 0 || e >= self.spec_len() {
            None
        } else if distance == 0 {
            Some(e)
        } else {
            match self.enclosing(e) {
                Some(p) => self.ancestor(p as int, (distance - 1) as nat),
                None => None,
            }
        }
    }

    /// One empty root scope, at position 0.
    pub fn new() -> (res: Self)
        ensures
            res.wf(),
            res.spec_len() == 1,
            res.scope(0) == Map::<Seq<char>, V>::empty(),
            res.enclosing(0) is None,
    {
        let mut frames: Vec<Frame<V>> = Vec::new();
        frames.push(Frame { names: Vec::new(), values: Vec::new(), enclosing: None, scope: Ghost(Map::empty()) });
        Environments { frames }
    }

    /// The number of scopes.
    pub fn len(&self) -> (res: usize)
        ensures
            res == self.spec_len(),
    {
        self.frames.len()
    }

    /// Makes an empty scope inside scope `parent` and returns its position.
    pub fn new_scope(&mut self, parent: usize) -> (res: usize)
        requires
            old(self).wf(),
            parent < old(self).spec_len(),
        ensures
            final(self).wf(),
            res == old(self).spec_len(),
            final(self).spec_len() == old(self).spec_len() + 1,
            final(self).scope(res as int) == Map::<Seq<char>, V>::empty(),
            final(self).enclosing(res as int) == Some(parent),
            forall|e: int| 0 <= e < old(self).spec_len() ==> final(self).scope(e) == old(self).scope(e)
                && final(self).enclosing(e) == old(self).enclosing(e),
    {
        let res = self.frames.len();
        self.frames.push(Frame { names: Vec::new(), values: Vec::new(), enclosing: Some(parent), scope: Ghost(Map::empty()) });
        proof {
            assert(self.frames@[res as int].wf());
        }
        res
    }

    /// Gives `name` the value `value` in scope `env` itself, whether or not
    /// it was there.
    pub fn define(&mut self, env: usize, name: &str, value: V)
        requires
            old(self).wf(),
            env < old(self).spec_len(),
        ensures
            final(self).wf(),
            final(self).spec_len() == old(self).spec_len(),
            final(self).scope(env as int) == old(self).scope(env as int).insert(name@, value),
            forall|e: int| 0 <= e < old(self).spec_len() && e != env ==> final(self).scope(e) == old(self).scope(e),
            forall|e: int| 0 <= e < old(self).spec_len() ==> final(self).enclosing(e) == old(self).enclosing(e),
    {
        let mut frame = self.frames.remove(env);
        match frame.find(name) {
            Some(i) => {
                frame.values.set(i, value);
                proof {
                    let f = frame;
                    frame.scope@ = f.scope@.insert(name@, value);
                    assert forall|k: Seq<char>| #[trigger] frame.scope@.contains_key(k) implies exists|j: int|
                        0 <= j < frame.names@.len() && frame.names@[j]@ == k by {
                        if k != name@ {
                            assert(f.scope@.contains_key(k));
                        } else {
                            assert(frame.names@[i as int]@ == k);
                        }
                    }
                }
            },
            None => {
                let ghost f = frame;
                frame.names.push(name.to_owned());
                frame.values.push(value);
                proof {
                    frame.scope@ = f.scope@.insert(name@, value);
                    let n = f.names@.len() as int;
                    assert(frame.names@[n]@ == name@);
                    assert forall|i: int, j: int| 0 <= i < j < frame.names@.len() implies frame.names@[i]@ != frame.names@[j]@ by {
                        if j == n {
                            assert(f.scope@.contains_key(f.names@[i]@));
                        }
                    }
                    assert forall|k: Seq<char>| #[trigger] frame.scope@.contains_key(k) implies exists|j: int|
                        0 <= j < frame.names@.len() && frame.names@[j]@ == k by {
                        if k != name@ {
                            assert(f.scope@.contains_key(k));
                            let j = choose|j: int| 0 <= j < f.names@.len() && f.names@[j]@ == k;
                            assert(frame.names@[j]@ == k);
                        } else {
                            assert(frame.names@[n]@ == k);
                        }
                    }
                    assert forall|i: int| 0 <= i < frame.names@.len() implies #[trigger] frame.scope@.contains_key(frame.names@[i]@)
                        && frame.scope@[frame.names@[i]@] == frame.values@[i] by {
                        if i < n {
                            assert(frame.names@[i] == f.names@[i]);
                            assert(f.names@[i]@ != name@);
                        }
                    }
                }
            },
        }
        self.frames.insert(env, frame);
        proof {
            assert forall|e: int| 0 <= e < self.frames@.len() implies {
                &&& (#[trigger] self.frames@[e]).wf()
                &&& self.frames@[e].enclosing matches Some(p) ==> p < e
            } by {
                if e != env {
                    assert(self.frames@[e] == old(self).frames@[e]);
                } else {
                    assert(self.frames@[e].enclosing == old(self).frames@[e].enclosing);
                }
            }
            assert forall|e: int| 0 <= e < old(self).spec_len() && e != env implies self.scope(e) == old(self).scope(e) by {
                assert(self.frames@[e] == old(self).frames@[e]);
            }
            assert forall|e: int| 0 <= e < old(self).spec_len() implies self.enclosing(e) == old(self).enclosing(e) by {
                if e != env {
                    assert(self.frames@[e] == old(self).frames@[e]);
                }
            }
        }
    }

    /// The value of `name` in scope `env` itself.
    pub fn get_here(&self, env: usize, name: &str) -> (res: Option<&V>)
        requires
            self.wf(),
            env < self.spec_len(),
        ensures
            match res {
                Some(v) => self.scope(env as int).contains_key(name@) && *v == self.scope(env as int)[name@],
                None => !self.scope(env as int).contains_key(name@),
            },
    {
        let frame = &self.frames[env];
        assert(frame.wf());
        match frame.find(name) {
            Some(i) => Some(&frame.values[i]),
            None => None,
        }
    }

    /// The value of `name` as seen from scope `env`.
    pub fn get(&self, env: usize, name: &str) -> (res: Option<&V>)
        requires
            self.wf(),
            env < self.spec_len(),
        ensures
            match res {
                Some(v) => self.lookup(env as int, name@) == Some(*v),
                None => self.lookup(env as int, name@) is None,
            },
        decreases env,
    {
        match self.get_here(env, name) {
            Some(v) => Some(v),
            None => {
                assert(self.frames@[env as int].wf());
                match self.frames[env].enclosing {
                    Some(p) => self.get(p, name),
                    None => None,
                }
            },
        }
    }

    /// The scope `distance` steps out from `env`, if the chain is that long.
    pub fn ancestor_of(&self, env: usize, distance: usize) -> (res: Option<usize>)
        requires
            self.wf(),
            env < self.spec_len(),
        ensures
            match res {
                Some(a) => self.ancestor(env as int, distance as nat) == Some(a as int) && a < self.spec_len(),
                None => self.ancestor(env as int, distance as nat) is None,
            },
        decreases distance,
    {
        if distance == 0 {
            Some(env)
        } else {
            assert(self.frames@[env as int].wf());
            match self.frames[env].enclosing {
                Some(p) => self.ancestor_of(p, distance - 1),
                None => None,
            }
        }
    }

    /// Sets `name` to `value` in the scope that holds it as seen from scope
    /// `env`; returns whether some scope held it.
    pub fn assign(&mut self, env: usize, name: &str, value: V) -> (res: bool)
        requires
            old(self).wf(),
            env < old(self).spec_len(),
        ensures
            final(self).wf(),
            final(self).spec_len() == old(self).spec_len(),
            res == old(self).holder(env as int, name@) is Some,
            forall|e: int| 0 <= e < old(self).spec_len() ==> final(self).enclosing(e) == old(self).enclosing(e),
            match old(self).holder(env as int, name@) {
                Some(h) => final(self).scope(h) == old(self).scope(h).insert(name@, value)
                    && forall|e: int| 0 <= e < old(self).spec_len() && e != h ==> final(self).scope(e) == old(self).scope(e),
                None => forall|e: int| 0 <= e < old(self).spec_len() ==> final(self).scope(e) == old(self).scope(e),
            },
        decreases env,
    {
        if self.get_here(env, name).is_some() {
            self.define(env, name, value);
            true
        } else {
            assert(old(self).frames@[env as int].wf());
            match self.frames[env].enclosing {
                Some(p) => self.assign(p, name, value),
                None => false,
            }
        }
    }
}

/// Reading back a definition: after `define` of a name in a scope, looking
/// the name up from that scope gives the value defined.
pub proof fn lemma_lookup_after_define<V>(before: Environments<V>, after: Environments<V>, env: int, key: Seq<char>, value: V)
    requires
        0 <= env < before.spec_len(),
        after.spec_len() == before.spec_len(),
        after.scope(env) == before.scope(env).insert(key, value),
    ensures
        after.lookup(env, key) == Some(value),
{
}

/// Reading back an assignment: after `assign` of a name that some scope held
/// as seen from `env`, looking the name up from `env` gives the value
/// assigned.
pub proof fn lemma_lookup_after_assign<V>(before: Environments<V>, after: Environments<V>, env: int, key: Seq<char>, value: V)
    requires
        before.holder(env, key) is Some,
        after.spec_len() == before.spec_len(),
        forall|e: int| 0 <= e < before.spec_len() ==> after.enclosing(e) == before.enclosing(e),
        after.scope(before.holder(env, key)->0) == before.scope(before.holder(env, key)->0).insert(key, value),
        forall|e: int| 0 <= e < before.spec_len() && e != before.holder(env, key)->0 ==> after.scope(e) == before.scope(e),
    ensures
        after.lookup(env, key) == Some(value),
    decreases env,
{
    let h = before.holder(env, key)->0;
    if env != h {
        assert(!before.scope(env).contains_key(key));
        let p = before.enclosing(env)->0;
        assert(before.holder(p as int, key) == Some(h));
        lemma_lookup_after_assign(before, after, p as int, key, value);
    }
}

} // verus!

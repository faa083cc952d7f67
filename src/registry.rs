use vstd::prelude::*;

use crate::error::ClusterError;

verus! {

/// The mapping from a caller's logical context id to a model name, as
/// an abstract map.
pub open spec fn registered(
    m: Map<Seq<char>, Seq<char>>,
    context_id: Seq<char>,
    model_name: Seq<char>,
) -> Map<Seq<char>, Seq<char>> {
    m.insert(context_id, model_name)
}

/// An in-memory registry of contexts. Registering an id again overwrites
/// its model name (last write wins).
pub struct ContextRegistry {
    entries: Vec<(String, String)>,
    contents: Ghost<Map<Seq<char>, Seq<char>>>,
}

impl View for ContextRegistry {
    type V = Map<Seq<char>, Seq<char>>;

    closed spec fn view(&self) -> Map<Seq<char>, Seq<char>> {
        self.contents@
    }
}

impl ContextRegistry {
    /// The entries hold each context id once, and they are exactly the map.
    pub closed spec fn wf(&self) -> bool {
        &&& forall|i: int, j: int|
            0 <= i < j < self.entries@.len() ==> self.entries@[i].0@ != self.entries@[j].0@
        &&& forall|i: int|
            0 <= i < self.entries@.len() ==> {
                &&& #[trigger] self.contents@.contains_key(self.entries@[i].0@)
                &&& self.contents@[self.entries@[i].0@] == self.entries@[i].1@
            }
        &&& forall|k: Seq<char>|
            #[trigger] self.contents@.contains_key(k) ==> exists|i: int|
                0 <= i < self.entries@.len() && self.entries@[i].0@ == k
    }

    pub fn new() -> (r: Self)
        ensures
            r.wf(),
            r@ == Map::<Seq<char>, Seq<char>>::empty(),
    {
        ContextRegistry { entries: Vec::new(), contents: Ghost(Map::empty()) }
    }

    fn find(&self, key: &String) -> (r: Option<usize>)
        requires
            self.wf(),
        ensures
            match r {
                Some(i) => i < self.entries@.len() && self.entries@[i as int].0@ == key@,
                None => !self@.contains_key(key@),
            },
    {
        let mut i: usize = 0;
        while i < self.entries.len()
            invariant
                self.wf(),
                i <= self.entries@.len(),
                forall|j: int| 0 <= j < i ==> self.entries@[j].0@ != key@,
            decreases self.entries@.len() - i,
        {
            if self.entries[i].0 == *key {
                return Some(i);
            }
            i = i + 1;
        }
        None
    }

    /// Binds `context_id` to `model_name`, replacing an earlier binding.
    pub fn initialize_context(&mut self, context_id: &str, model_name: &str)
        requires
            old(self).wf(),
        ensures
            final(self).wf(),
            final(self)@ == registered(old(self)@, context_id@, model_name@),
    {
        let key = String::from_str(context_id);
        let value = String::from_str(model_name);
        let ghost target = self@.insert(key@, value@);
        let ghost before = self.entries@;
        match self.find(&key) {
            Some(i) => {
                self.entries.set(i, (key, value));
                self.contents = Ghost(target);
                assert(forall|j: int| 0 <= j < self.entries@.len() ==>
                    #[trigger] self.entries@[j].0@ == before[j].0@);
                assert forall|j: int| 0 <= j < self.entries@.len() implies {
                    &&& #[trigger] self.contents@.contains_key(self.entries@[j].0@)
                    &&& self.contents@[self.entries@[j].0@] == self.entries@[j].1@
                } by {
                    if j != i {
                        assert(before[j].0@ != before[i as int].0@);
                    }
                }
                assert(forall|k: Seq<char>| #[trigger] self.contents@.contains_key(k) ==> exists|j: int|
                    0 <= j < self.entries@.len() && self.entries@[j].0@ == k) by {
                    assert forall|k: Seq<char>| #[trigger] self.contents@.contains_key(k) implies exists|j: int|
                        0 <= j < self.entries@.len() && self.entries@[j].0@ == k by {
                        if k == context_id@ {
                            assert(self.entries@[i as int].0@ == k);
                        } else {
                            let w = choose|w: int| 0 <= w < before.len() && before[w].0@ == k;
                            assert(self.entries@[w].0@ == k);
                        }
                    }
                }
            },
            None => {
                self.entries.push((key, value));
                self.contents = Ghost(target);
                assert(forall|j: int| 0 <= j < before.len() ==>
                    #[trigger] self.entries@[j] == before[j]);
                assert forall|j: int| 0 <= j < before.len() implies before[j].0@ != key@ by {
                    assert(old(self).contents@.contains_key(before[j].0@));
                }
                assert(forall|k: Seq<char>| #[trigger] self.contents@.contains_key(k) ==> exists|j: int|
                    0 <= j < self.entries@.len() && self.entries@[j].0@ == k) by {
                    assert forall|k: Seq<char>| #[trigger] self.contents@.contains_key(k) implies exists|j: int|
                        0 <= j < self.entries@.len() && self.entries@[j].0@ == k by {
                        if k == context_id@ {
                            assert(self.entries@[self.entries@.len() - 1].0@ == k);
                        } else {
                            let w = choose|w: int| 0 <= w < before.len() && before[w].0@ == k;
                            assert(self.entries@[w].0@ == k);
                        }
                    }
                }
            },
        }
        assert(self@ =~= registered(old(self)@, context_id@, model_name@));
    }

    /// The model name bound to `context_id`.
    pub fn resolve(&self, context_id: &str) -> (r: Result<String, ClusterError>)
        requires
            self.wf(),
        ensures
            match r {
                Ok(m) => self@.contains_key(context_id@) && m@ == self@[context_id@],
                Err(e) => !self@.contains_key(context_id@) && e == ClusterError::ContextNotFound,
            },
    {
        let key = String::from_str(context_id);
        match self.find(&key) {
            Some(i) => {
                proof {
                    assert(self.contents@.contains_key(self.entries@[i as int].0@));
                }
                Ok(self.entries[i].1.clone())
            },
            None => Err(ClusterError::ContextNotFound),
        }
    }

    /// Removes the binding of `context_id`, if there is one.
    pub fn remove_context(&mut self, context_id: &str)
        requires
            old(self).wf(),
        ensures
            final(self).wf(),
            final(self)@ == old(self)@.remove(context_id@),
    {
        let key = String::from_str(context_id);
        let ghost target = self@.remove(key@);
        match self.find(&key) {
            Some(i) => {
                let ghost before = self.entries@;
                self.entries.remove(i);
                self.contents = Ghost(target);
                assert(forall|j: int| 0 <= j < self.entries@.len() ==>
                    #[trigger] self.entries@[j] == before[if j < i { j } else { j + 1 }]);
                assert forall|a: int, b: int| 0 <= a < b < self.entries@.len() implies
                    self.entries@[a].0@ != self.entries@[b].0@ by {
                    let a2 = if a < i { a } else { a + 1 };
                    let b2 = if b < i { b } else { b + 1 };
                    assert(self.entries@[a] == before[a2]);
                    assert(self.entries@[b] == before[b2]);
                }
                assert forall|j: int| 0 <= j < self.entries@.len() implies {
                    &&& #[trigger] self.contents@.contains_key(self.entries@[j].0@)
                    &&& self.contents@[self.entries@[j].0@] == self.entries@[j].1@
                } by {
                    let j2 = if j < i { j } else { j + 1 };
                    assert(self.entries@[j] == before[j2]);
                    assert(before[j2].0@ != before[i as int].0@);
                    assert(old(self).contents@.contains_key(old(self).entries@[j2].0@));
                }
                assert(forall|k: Seq<char>| #[trigger] self.contents@.contains_key(k) ==> exists|j: int|
                    0 <= j < self.entries@.len() && self.entries@[j].0@ == k) by {
                    assert forall|k: Seq<char>| #[trigger] self.contents@.contains_key(k) implies exists|j: int|
                        0 <= j < self.entries@.len() && self.entries@[j].0@ == k by {
                        let w = choose|w: int| 0 <= w < before.len() && before[w].0@ == k;
                        if w < i {
                            assert(self.entries@[w].0@ == k);
                        } else {
                            assert(self.entries@[w - 1].0@ == k);
                        }
                    }
                }
            },
            None => {
                assert(target =~= self@);
            },
        }
    }
}

/// Registering the same binding twice leaves the registry as registering
/// it once does.
pub proof fn lemma_initialize_idempotent(
    m: Map<Seq<char>, Seq<char>>,
    context_id: Seq<char>,
    model_name: Seq<char>,
)
    ensures
        registered(registered(m, context_id, model_name), context_id, model_name) == registered(
            m,
            context_id,
            model_name,
        ),
        registered(m, context_id, model_name)[context_id] == model_name,
{
    assert(registered(registered(m, context_id, model_name), context_id, model_name) =~= registered(
        m,
        context_id,
        model_name,
    ));
}

} // verus!

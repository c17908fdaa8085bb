//! The named values shared by every handler of a server.
use crate::table::{keys_unique, lemma_map_of_absent, lemma_map_of_at, lemma_map_of_update, map_of};
use vstd::prelude::*;

verus! {

/// A store of values by name; each name has at most one value.
///
/// The entries live in a vector searched from the front: Verus proves nothing
/// about a `HashMap` with `String` keys, while the vector's meaning as a map
/// (`map_of`) is proved. The store is filled once before a server starts and
/// holds few names.
#[derive(Debug)]
pub struct Args<V> {
    args: Vec<(String, V)>,
}

impl<V> Args<V> {
    /// The entries as names and values, in the order the names were first added.
    pub closed spec fn pairs(&self) -> Seq<(Seq<char>, V)> {
        self.args@.map_values(|e: (String, V)| (e.0@, e.1))
    }

    pub open spec fn wf(&self) -> bool {
        keys_unique(self.pairs())
    }

    pub open spec fn view(&self) -> Map<Seq<char>, V> {
        map_of(self.pairs())
    }

    /// An empty store.
    pub fn new() -> (r: Args<V>)
        ensures
            r.wf(),
            r@ == Map::<Seq<char>, V>::empty(),
    {
        let r = Args { args: Vec::new() };
        assert(r.pairs() =~= Seq::<(Seq<char>, V)>::empty());
        r
    }

    /// The position of `name`, if it has an entry.
    fn position(&self, name: &String) -> (r: Option<usize>)
        ensures
            r matches Some(i) ==> i < self.pairs().len() && self.pairs()[i as int].0 == name@,
            r is None ==> forall|i: int| 0 <= i < self.pairs().len() ==> self.pairs()[i].0 != name@,
    {
        let mut i: usize = 0;
        while i < self.args.len()
            invariant
                i <= self.args.len(),
                forall|j: int| 0 <= j < i ==> self.pairs()[j].0 != name@,
            decreases self.args.len() - i,
        {
            if self.args[i].0 == *name {
                return Some(i);
            }
            i += 1;
        }
        None
    }

    /// Stores `arg` under `name`, replacing an earlier value of that name, and
    /// hands the store back for further calls.
    pub fn add_arg(&mut self, name: &str, arg: V) -> (r: &mut Self)
        requires
            old(self).wf(),
        ensures
            r.wf(),
            r@ == old(self)@.insert(name@, arg),
            *final(self) == *final(r),
    {
        let key = name.to_owned();
        match self.position(&key) {
            Some(i) => {
                let ghost before = self.pairs();
                proof {
                    lemma_map_of_update(before, i as int, arg);
                }
                self.args.set(i, (key, arg));
                assert(self.pairs() =~= before.update(i as int, (before[i as int].0, arg)));
            },
            None => {
                let ghost before = self.pairs();
                let ghost e = (key@, arg);
                self.args.push((key, arg));
                assert(self.pairs() =~= before.push(e));
                assert(self.pairs().drop_last() =~= before);
            },
        }
        self
    }

    /// The value stored under `name`, if any.
    pub fn arg(&self, name: &str) -> (r: Option<&V>)
        requires
            self.wf(),
        ensures
            r is Some <==> self@.contains_key(name@),
            r matches Some(v) ==> *v == self@[name@],
    {
        let key = name.to_owned();
        match self.position(&key) {
            Some(i) => {
                proof {
                    lemma_map_of_at(self.pairs(), i as int);
                }
                Some(&self.args[i].1)
            },
            None => {
                proof {
                    lemma_map_of_absent(self.pairs(), name@);
                }
                None
            },
        }
    }
}

} // verus!

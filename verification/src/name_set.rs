//! A set of names held in a vector, each name once.
use vstd::prelude::*;
use crate::text::same_text;

verus! {

/// A set of names.
pub struct NameSet {
    names: Vec<String>,
}

/// Whether `t` is the text of one of `names`.
pub open spec fn holds_text(names: Seq<String>, t: Seq<char>) -> bool {
    exists|k: int| 0 <= k < names.len() && (#[trigger] names[k])@ == t
}

impl View for NameSet {
    type V = Set<Seq<char>>;

    closed spec fn view(&self) -> Set<Seq<char>> {
        Set::new(|t: Seq<char>| holds_text(self.names@, t))
    }
}

impl NameSet {
    /// No name is held twice.
    pub closed spec fn wf(&self) -> bool {
        forall|i: int, j: int|
            0 <= i < j < self.names@.len() ==> (#[trigger] self.names@[i])@ != (#[trigger] self.names@[j])@
    }

    /// The empty set.
    pub fn new() -> (s: NameSet)
        ensures
            s.wf(),
            s@ == Set::<Seq<char>>::empty(),
    {
        let s = NameSet { names: Vec::new() };
        assert(s@ =~= Set::<Seq<char>>::empty());
        s
    }

    /// The position of `name`, if it is held.
    fn position(&self, name: &str) -> (r: Option<usize>)
        ensures
            r matches Some(k) ==> k < self.names@.len() && self.names@[k as int]@ == name@,
            r is None ==> !holds_text(self.names@, name@),
    {
        let n = self.names.len();
        let mut k: usize = 0;
        while k < n
            invariant
                n == self.names@.len(),
                k <= n,
                forall|j: int| 0 <= j < k ==> (#[trigger] self.names@[j])@ != name@,
            decreases n - k,
        {
            if same_text(self.names[k].as_str(), name) {
                return Some(k);
            }
            k = k + 1;
        }
        None
    }

    /// Whether `name` is held.
    pub fn contains(&self, name: &str) -> (r: bool)
        ensures
            r == self@.contains(name@),
    {
        self.position(name).is_some()
    }

    /// Adds `name`; nothing changes where it is held already.
    pub fn insert(&mut self, name: &str)
        requires
            old(self).wf(),
        ensures
            final(self).wf(),
            final(self)@ == old(self)@.insert(name@),
    {
        if self.position(name).is_none() {
            let ghost before = self.names@;
            self.names.push(String::from_str(name));
            assert forall|t: Seq<char>| holds_text(self.names@, t) == (holds_text(before, t) || t
                == name@) by {
                if holds_text(before, t) {
                    let k = choose|k: int| 0 <= k < before.len() && (#[trigger] before[k])@ == t;
                    assert(self.names@[k] == before[k]);
                }
                if t == name@ {
                    assert(self.names@[before.len() as int]@ == t);
                }
                if holds_text(self.names@, t) {
                    let k = choose|k: int|
                        0 <= k < self.names@.len() && (#[trigger] self.names@[k])@ == t;
                    if k < before.len() {
                        assert(before[k] == self.names@[k]);
                    }
                }
            }
        }
        assert(self@ =~= old(self)@.insert(name@));
    }

    /// Removes `name`; says whether it was held.
    pub fn remove(&mut self, name: &str) -> (was: bool)
        requires
            old(self).wf(),
        ensures
            final(self).wf(),
            was == old(self)@.contains(name@),
            final(self)@ == old(self)@.remove(name@),
    {
        match self.position(name) {
            None => {
                assert(self@ =~= old(self)@.remove(name@));
                false
            },
            Some(k) => {
                let ghost before = self.names@;
                self.names.remove(k);
                assert forall|t: Seq<char>| holds_text(self.names@, t) == (holds_text(before, t) && t
                    != name@) by {
                    if holds_text(self.names@, t) {
                        let j = choose|j: int|
                            0 <= j < self.names@.len() && (#[trigger] self.names@[j])@ == t;
                        if j < k {
                            assert(self.names@[j] == before[j]);
                        } else {
                            assert(self.names@[j] == before[j + 1]);
                        }
                    }
                    if holds_text(before, t) && t != name@ {
                        let j = choose|j: int| 0 <= j < before.len() && (#[trigger] before[j])@ == t;
                        if j < k {
                            assert(self.names@[j] == before[j]);
                        } else {
                            assert(j != k);
                            assert(self.names@[j - 1] == before[j]);
                        }
                    }
                }
                assert(self@ =~= old(self)@.remove(name@));
                assert(old(self)@.contains(name@)) by {
                    assert(before[k as int]@ == name@);
                }
                true
            },
        }
    }

    /// The names held, each once.
    pub fn names(&self) -> (r: Vec<String>)
        ensures
            forall|t: Seq<char>| self@.contains(t) <==> holds_text(r@, t),
    {
        let mut out: Vec<String> = Vec::new();
        let n = self.names.len();
        let mut k: usize = 0;
        while k < n
            invariant
                n == self.names@.len(),
                k <= n,
                out@.len() == k,
                forall|j: int| 0 <= j < k ==> (#[trigger] out@[j])@ == self.names@[j]@,
            decreases n - k,
        {
            out.push(String::from_str(self.names[k].as_str()));
            k = k + 1;
        }
        assert forall|t: Seq<char>| self@.contains(t) <==> holds_text(out@, t) by {
            if holds_text(out@, t) {
                let j = choose|j: int| 0 <= j < out@.len() && (#[trigger] out@[j])@ == t;
                assert(self.names@[j]@ == t);
            }
            if holds_text(self.names@, t) {
                let j = choose|j: int| 0 <= j < self.names@.len() && (#[trigger] self.names@[j])@
                    == t;
                assert(out@[j]@ == t);
            }
        }
        out
    }
}

} // verus!

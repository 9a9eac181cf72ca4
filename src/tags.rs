//! A set of code tags attached to an entry.
use vstd::prelude::*;

verus! {

/// The character sequences that the strings of `v` hold.
pub open spec fn views_of(v: Seq<String>) -> Set<Seq<char>> {
    Set::new(|x: Seq<char>| exists|i: int| 0 <= i < v.len() && v[i]@ == x)
}

/// A set of tags, kept in the order in which they were first added.
pub struct TagSet {
    tags: Vec<String>,
}

impl View for TagSet {
    type V = Set<Seq<char>>;

    closed spec fn view(&self) -> Set<Seq<char>> {
        views_of(self.tags@)
    }
}

impl TagSet {
    #[verifier::type_invariant]
    spec fn distinct(&self) -> bool {
        forall|i: int, j: int|
            0 <= i < j < self.tags.len() ==> #[trigger] self.tags@[i]@ != #[trigger] self.tags@[j]@
    }

    /// The empty set.
    pub fn new() -> (r: TagSet)
        ensures
            r@ == Set::<Seq<char>>::empty(),
    {
        let r = TagSet { tags: Vec::new() };
        assert(r@ =~= Set::<Seq<char>>::empty());
        r
    }

    /// The set of the strings in `v`; repeated strings count once.
    pub fn from_strings(v: Vec<String>) -> (r: TagSet)
        ensures
            r@ == views_of(v@),
    {
        let mut r = TagSet::new();
        let mut k: usize = 0;
        while k < v.len()
            invariant
                k <= v.len(),
                r@ == views_of(v@.take(k as int)),
            decreases v.len() - k,
        {
            let t = v[k].clone();
            r.insert(t);
            assert(views_of(v@.take(k + 1)) =~= views_of(v@.take(k as int)).insert(v@[k as int]@)) by {
                assert(v@.take(k + 1)[k as int] == v@[k as int]);
                assert forall|x: Seq<char>| views_of(v@.take(k as int)).contains(x) implies views_of(
                    v@.take(k + 1),
                ).contains(x) by {
                    let i = choose|i: int| 0 <= i < k && (#[trigger] v@.take(k as int)[i])@ == x;
                    assert(v@.take(k + 1)[i] == v@.take(k as int)[i]);
                }
                assert forall|x: Seq<char>| views_of(v@.take(k + 1)).contains(x) && x != v@[k as int]@
                    implies views_of(v@.take(k as int)).contains(x) by {
                    let i = choose|i: int| 0 <= i < k + 1 && (#[trigger] v@.take(k + 1)[i])@ == x;
                    assert(v@.take(k + 1)[i] == v@.take(k as int)[i]);
                }
            }
            k = k + 1;
        }
        assert(v@.take(k as int) =~= v@);
        r
    }

    /// Where `t` stands among the tags, if it is one of them.
    fn position(&self, t: &String) -> (r: Option<usize>)
        ensures
            match r {
                Some(i) => i < self.tags.len() && self.tags@[i as int]@ == t@,
                None => !self@.contains(t@),
            },
    {
        let mut i: usize = 0;
        while i < self.tags.len()
            invariant
                i <= self.tags.len(),
                forall|j: int| 0 <= j < i ==> self.tags@[j]@ != t@,
            decreases self.tags.len() - i,
        {
            if self.tags[i] == *t {
                return Some(i);
            }
            i = i + 1;
        }
        None
    }

    /// Whether `t` is in the set.
    pub fn contains(&self, t: &String) -> (r: bool)
        ensures
            r == self@.contains(t@),
    {
        self.position(t).is_some()
    }

    /// Adds `t`; a tag already present is left as it is.
    pub fn insert(&mut self, t: String)
        ensures
            final(self)@ == old(self)@.insert(t@),
    {
        proof {
            use_type_invariant(&*self);
        }
        if self.position(&t).is_none() {
            let ghost before = self.tags@;
            let mut v: Vec<String> = Vec::new();
            std::mem::swap(&mut v, &mut self.tags);
            v.push(t);
            self.tags = v;
            assert(self@ =~= views_of(before).insert(t@)) by {
                assert forall|x: Seq<char>| views_of(before).contains(x) implies self@.contains(x) by {
                    let i = choose|i: int| 0 <= i < before.len() && (#[trigger] before[i])@ == x;
                    assert(self.tags@[i] == before[i]);
                }
                assert(self.tags@[before.len() as int] == t);
            }
        }
    }

    /// Removes `t`, if present.
    pub fn remove(&mut self, t: &String)
        ensures
            final(self)@ == old(self)@.remove(t@),
    {
        proof {
            use_type_invariant(&*self);
        }
        match self.position(t) {
            None => {
                assert(self@ =~= self@.remove(t@));
            },
            Some(i) => {
                let ghost before = self.tags@;
                let mut v: Vec<String> = Vec::new();
                std::mem::swap(&mut v, &mut self.tags);
                v.remove(i);
                self.tags = v;
                assert(self@ =~= views_of(before).remove(t@)) by {
                    assert forall|x: Seq<char>| views_of(before).contains(x) && x != t@ implies self@.contains(x) by {
                        let j = choose|j: int| 0 <= j < before.len() && (#[trigger] before[j])@ == x;
                        if j < i {
                            assert(self.tags@[j] == before[j]);
                        } else {
                            assert(j != i);
                            assert(self.tags@[j - 1] == before[j]);
                        }
                    }
                    assert forall|x: Seq<char>| self@.contains(x) implies views_of(before).contains(x) && x != t@ by {
                        let j = choose|j: int| 0 <= j < self.tags.len() && (#[trigger] self.tags@[j])@ == x;
                        if j < i {
                            assert(self.tags@[j] == before[j]);
                            assert(before[j]@ != before[i as int]@);
                        } else {
                            assert(self.tags@[j] == before[j + 1]);
                            assert(before[i as int]@ != before[j + 1]@);
                        }
                    }
                }
            },
        }
    }

    /// The tags, each once, in the order in which they were added.
    pub fn to_vec(&self) -> (r: Vec<String>)
        ensures
            views_of(r@) == self@,
            forall|i: int, j: int| 0 <= i < j < r.len() ==> r@[i]@ != r@[j]@,
    {
        proof {
            use_type_invariant(self);
        }
        self.tags.clone()
    }
}

} // verus!

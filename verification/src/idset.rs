//! A small set of record identifiers with verified set semantics, used as
//! the working set while replaying a log chunk.

use vstd::prelude::*;

verus! {

/// The set of id views held by a sequence of id strings.
spec fn seq_id_set(ids: Seq<String>) -> Set<Seq<char>>
    decreases ids.len(),
{
    if ids.len() == 0 {
        Set::empty()
    } else {
        seq_id_set(ids.drop_last()).insert(ids.last()@)
    }
}

/// No two entries of `ids` denote the same identifier.
spec fn distinct_ids(ids: Seq<String>) -> bool {
    forall|i: int, j: int| 0 <= i < j < ids.len() ==> ids[i]@ != ids[j]@
}

proof fn lemma_seq_id_set_contains(ids: Seq<String>, id: Seq<char>)
    ensures
        seq_id_set(ids).contains(id) <==> exists|i: int| 0 <= i < ids.len() && ids[i]@ == id,
    decreases ids.len(),
{
    if ids.len() > 0 {
        lemma_seq_id_set_contains(ids.drop_last(), id);
        if ids.last()@ == id {
            assert(ids[ids.len() - 1]@ == id);
        } else if seq_id_set(ids).contains(id) {
            let i = choose|i: int| 0 <= i < ids.drop_last().len() && ids.drop_last()[i]@ == id;
            assert(ids[i]@ == id);
        } else if exists|i: int| 0 <= i < ids.len() && ids[i]@ == id {
            let i = choose|i: int| 0 <= i < ids.len() && ids[i]@ == id;
            assert(ids.drop_last()[i]@ == id);
        }
    }
}

proof fn lemma_seq_id_set_len(ids: Seq<String>)
    requires
        distinct_ids(ids),
    ensures
        seq_id_set(ids).finite(),
        seq_id_set(ids).len() == ids.len(),
    decreases ids.len(),
{
    if ids.len() > 0 {
        assert(distinct_ids(ids.drop_last())) by {
            assert(forall|i: int, j: int|
                0 <= i < j < ids.len() - 1 ==> ids.drop_last()[i]@ != ids.drop_last()[j]@);
        }
        lemma_seq_id_set_len(ids.drop_last());
        lemma_seq_id_set_contains(ids.drop_last(), ids.last()@);
        assert(!seq_id_set(ids.drop_last()).contains(ids.last()@));
    }
}

proof fn lemma_seq_id_set_remove(ids: Seq<String>, i: int)
    requires
        distinct_ids(ids),
        0 <= i < ids.len(),
    ensures
        seq_id_set(ids.remove(i)) == seq_id_set(ids).remove(ids[i]@),
    decreases ids.len(),
{
    ids.remove_ensures(i);
    if i == ids.len() - 1 {
        assert(ids.remove(i) =~= ids.drop_last());
        lemma_seq_id_set_contains(ids.drop_last(), ids.last()@);
        assert(seq_id_set(ids.drop_last()).insert(ids.last()@).remove(ids.last()@)
            =~= seq_id_set(ids.drop_last()));
    } else {
        let rest = ids.remove(i);
        assert(rest.last() == ids.last());
        assert(rest.drop_last() =~= ids.drop_last().remove(i));
        assert(distinct_ids(ids.drop_last())) by {
            assert(forall|p: int, q: int|
                0 <= p < q < ids.len() - 1 ==> ids.drop_last()[p]@ != ids.drop_last()[q]@);
        }
        lemma_seq_id_set_remove(ids.drop_last(), i);
        assert(ids.last()@ != ids[i]@);
        assert(seq_id_set(ids.drop_last()).remove(ids[i]@).insert(ids.last()@)
            =~= seq_id_set(ids.drop_last()).insert(ids.last()@).remove(ids[i]@));
    }
}

/// A set of record identifiers. Its view is the set of id views; inserting
/// and removing follow the usual set semantics, so membership after a
/// series of operations is decided by the last one alone.
#[derive(Debug)]
pub struct IdSet {
    ids: Vec<String>,
}

impl View for IdSet {
    type V = Set<Seq<char>>;

    closed spec fn view(&self) -> Set<Seq<char>> {
        seq_id_set(self.ids@)
    }
}

impl IdSet {
    /// Well-formedness: the backing entries denote pairwise distinct ids.
    /// Constructors establish it and every method preserves it.
    pub closed spec fn wf(&self) -> bool {
        distinct_ids(self.ids@)
    }

    pub fn new() -> (s: Self)
        ensures
            s@ == Set::<Seq<char>>::empty(),
            s.wf(),
    {
        IdSet { ids: Vec::new() }
    }

    pub fn contains(&self, id: &String) -> (found: bool)
        ensures
            found == self@.contains(id@),
    {
        let n = self.ids.len();
        let mut i: usize = 0;
        while i < n
            invariant
                i <= n,
                n == self.ids@.len(),
                forall|j: int| 0 <= j < i ==> self.ids@[j]@ != id@,
            decreases n - i,
        {
            if self.ids[i] == *id {
                proof {
                    lemma_seq_id_set_contains(self.ids@, id@);
                    assert(self.ids@[i as int]@ == id@);
                }
                return true;
            }
            i += 1;
        }
        proof {
            lemma_seq_id_set_contains(self.ids@, id@);
        }
        false
    }

    pub fn insert(&mut self, id: &String)
        requires
            old(self).wf(),
        ensures
            final(self)@ == old(self)@.insert(id@),
            final(self).wf(),
    {
        if self.contains(id) {
            proof {
                assert(old(self)@.insert(id@) =~= old(self)@);
            }
        } else {
            proof {
                lemma_seq_id_set_contains(self.ids@, id@);
            }
            self.ids.push(id.clone());
            proof {
                assert(self.ids@.drop_last() =~= old(self).ids@);
            }
        }
    }

    pub fn remove(&mut self, id: &String)
        requires
            old(self).wf(),
        ensures
            final(self)@ == old(self)@.remove(id@),
            final(self).wf(),
    {
        let n = self.ids.len();
        let mut i: usize = 0;
        while i < n
            invariant
                i <= n,
                n == self.ids@.len(),
                *self == *old(self),
                distinct_ids(self.ids@),
                forall|j: int| 0 <= j < i ==> self.ids@[j]@ != id@,
            decreases n - i,
        {
            if self.ids[i] == *id {
                self.ids.remove(i);
                proof {
                    old(self).ids@.remove_ensures(i as int);
                    assert(distinct_ids(self.ids@));
                    lemma_seq_id_set_remove(old(self).ids@, i as int);
                }
                return;
            }
            i += 1;
        }
        proof {
            lemma_seq_id_set_contains(self.ids@, id@);
            assert(old(self)@.remove(id@) =~= old(self)@);
        }
    }

    pub fn len(&self) -> (n: usize)
        requires
            self.wf(),
        ensures
            n == self@.len(),
            self@.finite(),
    {
        proof {
            lemma_seq_id_set_len(self.ids@);
        }
        self.ids.len()
    }

    pub fn duplicate(&self) -> (r: Self)
        requires
            self.wf(),
        ensures
            r@ == self@,
            r.wf(),
    {
        let n = self.ids.len();
        let mut ids: Vec<String> = Vec::new();
        let mut i: usize = 0;
        while i < n
            invariant
                i <= n,
                n == self.ids@.len(),
                ids@.len() == i,
                forall|j: int| 0 <= j < i ==> ids@[j] == self.ids@[j],
            decreases n - i,
        {
            ids.push(self.ids[i].clone());
            i += 1;
        }
        proof {
            assert(ids@ =~= self.ids@);
        }
        IdSet { ids }
    }
}

} // verus!

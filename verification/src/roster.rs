//! The death roster: the ordered collection of distinct names known to be
//! dead.
//!
//! Append-only in practice (there is no removal path), shared between the
//! reconciliation component and the outbound update path, and merged with the
//! rosters carried by inbound updates.  The invariant is that no name appears
//! twice; a membership test precedes every insertion, which makes insertion
//! idempotent and merging commutative and monotonic (as sets of names).

use vstd::prelude::*;

use crate::wire::roster_view;

verus! {

/// Insertion into a roster model: a no-op when the name is already present,
/// an append otherwise.
pub open spec fn spec_insert(r: Seq<Seq<u8>>, n: Seq<u8>) -> Seq<Seq<u8>> {
    if r.contains(n) {
        r
    } else {
        r.push(n)
    }
}

/// Merging an incoming list of names into a roster model: each entry is
/// inserted in order.
pub open spec fn spec_merge(r: Seq<Seq<u8>>, inc: Seq<Seq<u8>>) -> Seq<Seq<u8>>
    decreases inc.len(),
{
    if inc.len() == 0 {
        r
    } else {
        spec_merge(spec_insert(r, inc[0]), inc.drop_first())
    }
}

/// Compares two byte strings for equality of contents.
fn bytes_equal(a: &Vec<u8>, b: &Vec<u8>) -> (r: bool)
    ensures
        r == (a@ == b@),
{
    if a.len() != b.len() {
        return false;
    }
    let mut i: usize = 0;
    while i < a.len()
        invariant
            i <= a@.len(),
            a@.len() == b@.len(),
            forall|j: int| 0 <= j < i ==> a@[j] == b@[j],
        decreases a@.len() - i,
    {
        if a[i] != b[i] {
            return false;
        }
        i = i + 1;
    }
    proof {
        assert(a@ =~= b@);
    }
    true
}

/// Copies a byte string.
pub(crate) fn clone_bytes(src: &Vec<u8>) -> (r: Vec<u8>)
    ensures
        r@ == src@,
{
    let mut r: Vec<u8> = Vec::new();
    let mut i: usize = 0;
    while i < src.len()
        invariant
            i <= src@.len(),
            r@ == src@.subrange(0, i as int),
        decreases src@.len() - i,
    {
        r.push(src[i]);
        i = i + 1;
        proof {
            assert(r@ =~= src@.subrange(0, i as int));
        }
    }
    proof {
        assert(r@ =~= src@);
    }
    r
}

/// The ordered collection of distinct dead names.
pub struct DeathRoster {
    names: Vec<Vec<u8>>,
}

impl View for DeathRoster {
    type V = Seq<Seq<u8>>;

    closed spec fn view(&self) -> Seq<Seq<u8>> {
        roster_view(self.names@)
    }
}

impl DeathRoster {
    /// The roster's invariant: no name appears twice.
    pub open spec fn wf(&self) -> bool {
        forall|i: int, j: int| 0 <= i < j < self@.len() ==> self@[i] != self@[j]
    }

    /// An empty roster.
    pub fn new() -> (r: DeathRoster)
        ensures
            r@ == Seq::<Seq<u8>>::empty(),
            r.wf(),
    {
        let r = DeathRoster { names: Vec::new() };
        proof {
            assert(r@ =~= Seq::<Seq<u8>>::empty());
        }
        r
    }

    /// How many distinct names are known to be dead.
    pub fn len(&self) -> (n: usize)
        ensures
            n == self@.len(),
    {
        self.names.len()
    }

    /// Whether `name` is already on the roster.
    pub fn contains(&self, name: &Vec<u8>) -> (r: bool)
        ensures
            r == self@.contains(name@),
    {
        let mut i: usize = 0;
        while i < self.names.len()
            invariant
                i <= self.names@.len(),
                forall|j: int| 0 <= j < i ==> roster_view(self.names@)[j] != name@,
            decreases self.names@.len() - i,
        {
            if bytes_equal(&self.names[i], name) {
                proof {
                    assert(self@[i as int] == name@);
                }
                return true;
            }
            i = i + 1;
        }
        proof {
            assert(!self@.contains(name@));
        }
        false
    }

    /// Inserts `name` unless it is already present; the membership test
    /// precedes the append, so the roster stays duplicate-free.
    pub fn insert(&mut self, name: Vec<u8>)
        requires
            old(self).wf(),
        ensures
            final(self)@ == spec_insert(old(self)@, name@),
            final(self).wf(),
    {
        if !self.contains(&name) {
            let ghost before = self@;
            self.names.push(name);
            proof {
                assert(self@ =~= before.push(name@));
                assert forall|i: int, j: int| 0 <= i < j < self@.len() implies self@[i]
                    != self@[j] by {
                    if j == self@.len() - 1 {
                        if before[i] == name@ {
                            assert(before.contains(name@));
                        }
                    }
                }
            }
        }
    }

    /// Merges every name of an incoming roster into this one, in order.
    pub fn merge_from(&mut self, incoming: &Vec<Vec<u8>>)
        requires
            old(self).wf(),
        ensures
            final(self)@ == spec_merge(old(self)@, roster_view(incoming@)),
            final(self).wf(),
    {
        let ghost inc = roster_view(incoming@);
        proof {
            assert(inc.subrange(0, inc.len() as int) =~= inc);
        }
        let mut i: usize = 0;
        while i < incoming.len()
            invariant
                i <= incoming@.len(),
                inc == roster_view(incoming@),
                self.wf(),
                spec_merge(old(self)@, inc) == spec_merge(
                    self@,
                    inc.subrange(i as int, inc.len() as int),
                ),
            decreases incoming@.len() - i,
        {
            let ghost before = self@;
            let ghost rest = inc.subrange(i as int, inc.len() as int);
            let name = clone_bytes(&incoming[i]);
            proof {
                assert(name@ == inc[i as int]);
                assert(rest[0] == inc[i as int]);
                assert(rest.drop_first() =~= inc.subrange(i as int + 1, inc.len() as int));
            }
            self.insert(name);
            i = i + 1;
        }
        proof {
            assert(inc.subrange(inc.len() as int, inc.len() as int) =~= Seq::<Seq<u8>>::empty());
        }
    }

    /// A copy of the roster's names, for carrying in an outbound update.
    pub fn export(&self) -> (r: Vec<Vec<u8>>)
        ensures
            roster_view(r@) == self@,
    {
        let mut r: Vec<Vec<u8>> = Vec::new();
        let mut i: usize = 0;
        while i < self.names.len()
            invariant
                i <= self.names@.len(),
                roster_view(r@) == roster_view(self.names@).subrange(0, i as int),
            decreases self.names@.len() - i,
        {
            let name = clone_bytes(&self.names[i]);
            let ghost n = name@;
            let ghost prev = r@;
            r.push(name);
            i = i + 1;
            proof {
                assert(roster_view(prev).len() == prev.len());
                assert(prev.len() == i as int - 1);
                assert(r@.len() == i as int);
                assert forall|j: int| 0 <= j < i implies roster_view(r@)[j] == roster_view(
                    self.names@,
                ).subrange(0, i as int)[j] by {
                    assert(roster_view(r@)[j] == r@[j]@);
                    if j < i - 1 {
                        assert(r@[j] == prev[j]);
                        assert(roster_view(prev)[j] == roster_view(self.names@).subrange(
                            0,
                            i as int - 1,
                        )[j]);
                        assert(roster_view(prev)[j] == prev[j]@);
                    } else {
                        assert(r@[j]@ == n);
                        assert(n == self.names@[j]@);
                    }
                }
                assert(roster_view(r@) =~= roster_view(self.names@).subrange(0, i as int));
            }
        }
        proof {
            assert(roster_view(self.names@).subrange(0, self.names@.len() as int) =~= roster_view(
                self.names@,
            ));
        }
        r
    }
}

/// Law: inserting the same name twice is the same as inserting it once.
pub proof fn lemma_insert_idempotent(r: Seq<Seq<u8>>, n: Seq<u8>)
    ensures
        spec_insert(spec_insert(r, n), n) == spec_insert(r, n),
        spec_insert(spec_insert(r, n), n).len() == spec_insert(r, n).len(),
        spec_insert(r, n).contains(n),
{
    if !r.contains(n) {
        assert(r.push(n)[r.len() as int] == n);
        assert(r.push(n).contains(n));
    }
}

/// Insertion adds exactly the inserted name to the set of names.
pub proof fn lemma_insert_to_set(r: Seq<Seq<u8>>, n: Seq<u8>)
    ensures
        spec_insert(r, n).to_set() == r.to_set().insert(n),
{
    if r.contains(n) {
        assert(r.to_set().contains(n));
        assert(r.to_set().insert(n) =~= r.to_set());
    } else {
        r.lemma_push_to_set_commute(n);
    }
}

/// Merging yields exactly the union of the two sets of names.
pub proof fn lemma_merge_to_set(r: Seq<Seq<u8>>, inc: Seq<Seq<u8>>)
    ensures
        spec_merge(r, inc).to_set() == r.to_set().union(inc.to_set()),
    decreases inc.len(),
{
    if inc.len() == 0 {
        assert(inc.to_set() =~= Set::<Seq<u8>>::empty());
        assert(r.to_set().union(inc.to_set()) =~= r.to_set());
    } else {
        let h = inc[0];
        let t = inc.drop_first();
        lemma_insert_to_set(r, h);
        lemma_merge_to_set(spec_insert(r, h), t);
        assert(inc.to_set() =~= t.to_set().insert(h)) by {
            assert forall|y: Seq<u8>| inc.to_set().contains(y) implies t.to_set().insert(
                h,
            ).contains(y) by {
                let k = choose|k: int| 0 <= k < inc.len() && inc[k] == y;
                if k > 0 {
                    assert(t[k - 1] == y);
                    assert(t.contains(y));
                }
            }
            assert forall|y: Seq<u8>| t.to_set().insert(h).contains(y) implies inc.to_set().contains(
                y,
            ) by {
                if y == h {
                    assert(inc[0] == y);
                } else {
                    let k = choose|k: int| 0 <= k < t.len() && t[k] == y;
                    assert(inc[k + 1] == y);
                }
            }
        }
        assert(r.to_set().insert(h).union(t.to_set()) =~= r.to_set().union(inc.to_set()));
    }
}

/// Law: merging roster A then B yields the same set of names as B then A.
pub proof fn lemma_merge_commutative(a: Seq<Seq<u8>>, b: Seq<Seq<u8>>)
    ensures
        spec_merge(a, b).to_set() == spec_merge(b, a).to_set(),
{
    lemma_merge_to_set(a, b);
    lemma_merge_to_set(b, a);
    assert(a.to_set().union(b.to_set()) =~= b.to_set().union(a.to_set()));
}

/// Merging names that are all already present changes nothing.
pub proof fn lemma_merge_contained_noop(r: Seq<Seq<u8>>, inc: Seq<Seq<u8>>)
    requires
        forall|i: int| 0 <= i < inc.len() ==> r.contains(#[trigger] inc[i]),
    ensures
        spec_merge(r, inc) == r,
    decreases inc.len(),
{
    if inc.len() > 0 {
        assert(r.contains(inc[0]));
        assert(spec_insert(r, inc[0]) == r);
        assert forall|i: int| 0 <= i < inc.drop_first().len() implies r.contains(
            #[trigger] inc.drop_first()[i],
        ) by {
            assert(inc.drop_first()[i] == inc[i + 1]);
        }
        lemma_merge_contained_noop(r, inc.drop_first());
    }
}

/// Law: merging is idempotent — re-applying the same incoming roster is a
/// no-op.
pub proof fn lemma_merge_idempotent(r: Seq<Seq<u8>>, inc: Seq<Seq<u8>>)
    ensures
        spec_merge(spec_merge(r, inc), inc) == spec_merge(r, inc),
{
    let m = spec_merge(r, inc);
    lemma_merge_to_set(r, inc);
    assert forall|i: int| 0 <= i < inc.len() implies m.contains(#[trigger] inc[i]) by {
        assert(inc.to_set().contains(inc[i]));
        assert(m.to_set().contains(inc[i]));
    }
    lemma_merge_contained_noop(m, inc);
}

/// Law: merging never loses a name and never shrinks the roster.
pub proof fn lemma_merge_monotonic(a: Seq<Seq<u8>>, b: Seq<Seq<u8>>)
    ensures
        spec_merge(a, b).len() >= a.len(),
        forall|n: Seq<u8>| a.to_set().contains(n) ==> spec_merge(a, b).to_set().contains(n),
    decreases b.len(),
{
    lemma_merge_to_set(a, b);
    if b.len() > 0 {
        lemma_merge_monotonic(spec_insert(a, b[0]), b.drop_first());
    }
}

} // verus!

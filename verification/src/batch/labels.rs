//! Record labels: named text values.

use crate::text::same_text;
use vstd::prelude::*;

verus! {

/// A name and a value.
pub type PairView = (Seq<char>, Seq<char>);

/// What a list of pairs says of each name. Where a name comes twice, the later pair counts.
pub open spec fn pairs_map(pairs: Seq<PairView>) -> Map<Seq<char>, Seq<char>>
    decreases pairs.len(),
{
    if pairs.len() == 0 {
        Map::empty()
    } else {
        pairs_map(pairs.drop_last()).insert(pairs.last().0, pairs.last().1)
    }
}

/// The list with the value of a name set: in the name's place, or at the end for a new name.
pub open spec fn insert_pair(
    pairs: Seq<PairView>,
    name: Seq<char>,
    value: Seq<char>,
) -> Seq<PairView>
    decreases pairs.len(),
{
    if pairs.len() == 0 {
        seq![(name, value)]
    } else if pairs[0].0 == name {
        seq![(name, value)] + pairs.skip(1)
    } else {
        seq![pairs[0]] + insert_pair(pairs.skip(1), name, value)
    }
}

pub open spec fn distinct_names(pairs: Seq<PairView>) -> bool {
    forall|i: int, j: int|
        0 <= i < j < pairs.len() ==> (#[trigger] pairs[i]).0 != (#[trigger] pairs[j]).0
}

/// The text of a list of pairs.
pub open spec fn pair_views(pairs: Seq<(String, String)>) -> Seq<PairView> {
    Seq::new(pairs.len(), |i: int| (pairs[i].0@, pairs[i].1@))
}

/// A map from label names to values that remembers the order in which names came.
#[derive(Debug)]
pub struct Labels {
    pairs: Vec<(String, String)>,
}

impl View for Labels {
    type V = Map<Seq<char>, Seq<char>>;

    open spec fn view(&self) -> Map<Seq<char>, Seq<char>> {
        pairs_map(self.pairs())
    }
}

proof fn lemma_pairs_map_contains(pairs: Seq<PairView>, name: Seq<char>)
    ensures
        pairs_map(pairs).contains_key(name) <==> exists|i: int|
            0 <= i < pairs.len() && (#[trigger] pairs[i]).0 == name,
    decreases pairs.len(),
{
    if pairs.len() > 0 {
        let front = pairs.drop_last();
        lemma_pairs_map_contains(front, name);
        if pairs.last().0 == name {
            assert(pairs[pairs.len() - 1].0 == name);
        }
        if exists|i: int| 0 <= i < front.len() && (#[trigger] front[i]).0 == name {
            let i = choose|i: int| 0 <= i < front.len() && (#[trigger] front[i]).0 == name;
            assert(pairs[i].0 == name);
        }
        if exists|i: int| 0 <= i < pairs.len() && (#[trigger] pairs[i]).0 == name {
            let i = choose|i: int| 0 <= i < pairs.len() && (#[trigger] pairs[i]).0 == name;
            if i < front.len() {
                assert(front[i].0 == name);
            }
        }
    }
}

proof fn lemma_pairs_map_at(pairs: Seq<PairView>, i: int)
    requires
        distinct_names(pairs),
        0 <= i < pairs.len(),
    ensures
        pairs_map(pairs).contains_pair(pairs[i].0, pairs[i].1),
    decreases pairs.len(),
{
    if i < pairs.len() - 1 {
        lemma_pairs_map_at(pairs.drop_last(), i);
    }
}

proof fn lemma_pairs_map_update(pairs: Seq<PairView>, i: int, value: Seq<char>)
    requires
        distinct_names(pairs),
        0 <= i < pairs.len(),
    ensures
        pairs_map(pairs.update(i, (pairs[i].0, value))) == pairs_map(pairs).insert(
            pairs[i].0,
            value,
        ),
    decreases pairs.len(),
{
    let updated = pairs.update(i, (pairs[i].0, value));
    if i < pairs.len() - 1 {
        lemma_pairs_map_update(pairs.drop_last(), i, value);
        assert(updated.drop_last() =~= pairs.drop_last().update(i, (pairs[i].0, value)));
    } else {
        assert(updated.drop_last() =~= pairs.drop_last());
    }
    assert(pairs_map(updated) =~= pairs_map(pairs).insert(pairs[i].0, value));
}

proof fn lemma_insert_pair_at(pairs: Seq<PairView>, i: int, value: Seq<char>)
    requires
        distinct_names(pairs),
        0 <= i < pairs.len(),
    ensures
        insert_pair(pairs, pairs[i].0, value) == pairs.update(i, (pairs[i].0, value)),
    decreases pairs.len(),
{
    if i > 0 {
        lemma_insert_pair_at(pairs.skip(1), i - 1, value);
    }
    assert(insert_pair(pairs, pairs[i].0, value) =~= pairs.update(i, (pairs[i].0, value)));
}

proof fn lemma_insert_pair_new(pairs: Seq<PairView>, name: Seq<char>, value: Seq<char>)
    requires
        forall|i: int| 0 <= i < pairs.len() ==> (#[trigger] pairs[i]).0 != name,
    ensures
        insert_pair(pairs, name, value) == pairs.push((name, value)),
    decreases pairs.len(),
{
    if pairs.len() > 0 {
        assert(pairs[0].0 != name);
        assert forall|i: int| 0 <= i < pairs.skip(1).len() implies (#[trigger] pairs.skip(1)[i]).0
            != name by {
            assert(pairs[i + 1].0 != name);
        }
        lemma_insert_pair_new(pairs.skip(1), name, value);
    }
    assert(insert_pair(pairs, name, value) =~= pairs.push((name, value)));
}

/// Setting a name in a list sets it in what the list says, and keeps names distinct.
pub proof fn lemma_insert_pair(pairs: Seq<PairView>, name: Seq<char>, value: Seq<char>)
    requires
        distinct_names(pairs),
    ensures
        distinct_names(insert_pair(pairs, name, value)),
        pairs_map(insert_pair(pairs, name, value)) == pairs_map(pairs).insert(name, value),
{
    lemma_pairs_map_contains(pairs, name);
    if exists|i: int| 0 <= i < pairs.len() && (#[trigger] pairs[i]).0 == name {
        let i = choose|i: int| 0 <= i < pairs.len() && (#[trigger] pairs[i]).0 == name;
        lemma_insert_pair_at(pairs, i, value);
        lemma_pairs_map_update(pairs, i, value);
    } else {
        lemma_insert_pair_new(pairs, name, value);
        assert(pairs.push((name, value)).drop_last() =~= pairs);
    }
}

proof fn lemma_pairs_map_len(pairs: Seq<PairView>)
    requires
        distinct_names(pairs),
    ensures
        pairs_map(pairs).dom().finite(),
        pairs_map(pairs).len() == pairs.len(),
    decreases pairs.len(),
{
    if pairs.len() > 0 {
        let front = pairs.drop_last();
        lemma_pairs_map_len(front);
        lemma_pairs_map_contains(front, pairs.last().0);
        assert(pairs_map(pairs).dom() =~= pairs_map(front).dom().insert(pairs.last().0));
    }
}

impl Labels {
    /// The pairs in the order in which their names came.
    pub closed spec fn pairs(self) -> Seq<PairView> {
        pair_views(self.pairs@)
    }

    #[verifier::type_invariant]
    spec fn names_differ(self) -> bool {
        distinct_names(pair_views(self.pairs@))
    }

    pub fn new() -> (r: Labels)
        ensures
            r@ == Map::<Seq<char>, Seq<char>>::empty(),
            r.pairs().len() == 0,
    {
        Labels { pairs: Vec::new() }
    }

    /// The number of names.
    pub fn len(&self) -> (r: usize)
        ensures
            r == self@.len(),
            self@.dom().finite(),
            r == self.pairs().len(),
    {
        proof {
            use_type_invariant(self);
            lemma_pairs_map_len(self.pairs());
        }
        self.pairs.len()
    }

    pub fn is_empty(&self) -> (r: bool)
        ensures
            r == (self@ == Map::<Seq<char>, Seq<char>>::empty()),
            r == (self.pairs().len() == 0),
    {
        proof {
            use_type_invariant(self);
            lemma_pairs_map_len(self.pairs());
        }
        self.pairs.len() == 0
    }

    fn position(&self, name: &str) -> (r: Option<usize>)
        ensures
            match r {
                Some(i) => i < self.pairs().len() && self.pairs()[i as int].0 == name@,
                None => !self@.contains_key(name@),
            },
    {
        let mut i: usize = 0;
        while i < self.pairs.len()
            invariant
                i <= self.pairs@.len(),
                forall|j: int| 0 <= j < i ==> (#[trigger] self.pairs()[j]).0 != name@,
            decreases self.pairs@.len() - i,
        {
            if same_text(self.pairs[i].0.as_str(), name) {
                return Some(i);
            }
            i = i + 1;
        }
        proof {
            lemma_pairs_map_contains(self.pairs(), name@);
        }
        None
    }

    pub fn get(&self, name: &str) -> (r: Option<&str>)
        ensures
            match r {
                Some(value) => self@.contains_pair(name@, value@),
                None => !self@.contains_key(name@),
            },
    {
        match self.position(name) {
            Some(i) => {
                proof {
                    use_type_invariant(self);
                    lemma_pairs_map_at(self.pairs(), i as int);
                }
                Some(self.pairs[i].1.as_str())
            },
            None => None,
        }
    }

    /// The pair at a position, in the order in which names came.
    pub fn pair(&self, i: usize) -> (r: (&str, &str))
        requires
            i < self.pairs().len(),
        ensures
            r.0@ == self.pairs()[i as int].0,
            r.1@ == self.pairs()[i as int].1,
    {
        (self.pairs[i].0.as_str(), self.pairs[i].1.as_str())
    }

    /// Sets the value of a name.
    pub fn insert(&mut self, name: String, value: String)
        ensures
            final(self)@ == old(self)@.insert(name@, value@),
            final(self).pairs() == insert_pair(old(self).pairs(), name@, value@),
    {
        let found = self.position(name.as_str());
        proof {
            use_type_invariant(&*self);
        }
        let ghost before = self.pairs();
        let mut pairs: Vec<(String, String)> = Vec::new();
        std::mem::swap(&mut pairs, &mut self.pairs);
        proof {
            lemma_insert_pair(before, name@, value@);
        }
        match found {
            Some(i) => {
                proof {
                    lemma_insert_pair_at(before, i as int, value@);
                }
                pairs.set(i, (name, value));
                assert(pair_views(pairs@) =~= before.update(i as int, (name@, value@)));
            },
            None => {
                proof {
                    lemma_pairs_map_contains(before, name@);
                    lemma_insert_pair_new(before, name@, value@);
                }
                pairs.push((name, value));
                assert(pair_views(pairs@) =~= before.push((name@, value@)));
            },
        }
        self.pairs = pairs;
    }

    /// A copy with the same pairs in the same order.
    pub fn duplicate(&self) -> (r: Labels)
        ensures
            r.pairs() == self.pairs(),
            r@ == self@,
    {
        let mut pairs: Vec<(String, String)> = Vec::new();
        let mut i: usize = 0;
        while i < self.pairs.len()
            invariant
                i <= self.pairs@.len(),
                pair_views(pairs@) == self.pairs().take(i as int),
            decreases self.pairs@.len() - i,
        {
            let ghost before = pair_views(pairs@);
            pairs.push((self.pairs[i].0.clone(), self.pairs[i].1.clone()));
            assert(pair_views(pairs@) =~= before.push(self.pairs()[i as int]));
            assert(pair_views(pairs@) =~= self.pairs().take(i + 1));
            i = i + 1;
        }
        assert(self.pairs().take(i as int) =~= self.pairs());
        proof {
            use_type_invariant(self);
        }
        Labels { pairs }
    }

    /// Whether every pair of `self` is in `other`.
    fn within(&self, other: &Labels) -> (r: bool)
        ensures
            r == (forall|name: Seq<char>| #[trigger]
                self@.contains_key(name) ==> other@.contains_pair(name, self@[name])),
    {
        proof {
            use_type_invariant(self);
        }
        let mut i: usize = 0;
        while i < self.pairs.len()
            invariant
                i <= self.pairs@.len(),
                distinct_names(self.pairs()),
                forall|j: int|
                    0 <= j < i ==> other@.contains_pair(
                        (#[trigger] self.pairs()[j]).0,
                        self.pairs()[j].1,
                    ),
            decreases self.pairs@.len() - i,
        {
            let found = match other.get(self.pairs[i].0.as_str()) {
                Some(value) => same_text(value, self.pairs[i].1.as_str()),
                None => false,
            };
            if !found {
                proof {
                    lemma_pairs_map_at(self.pairs(), i as int);
                    assert(self@.contains_key(self.pairs()[i as int].0));
                }
                return false;
            }
            i = i + 1;
        }
        proof {
            assert forall|name: Seq<char>| #[trigger]
                self@.contains_key(name) implies other@.contains_pair(name, self@[name]) by {
                lemma_pairs_map_contains(self.pairs(), name);
                let j = choose|j: int|
                    0 <= j < self.pairs().len() && (#[trigger] self.pairs()[j]).0 == name;
                lemma_pairs_map_at(self.pairs(), j);
            }
        }
        true
    }
}

impl Default for Labels {
    fn default() -> (r: Labels)
        ensures
            r@ == Map::<Seq<char>, Seq<char>>::empty(),
    {
        Labels::new()
    }
}

impl Clone for Labels {
    fn clone(&self) -> (r: Labels)
        ensures
            r.pairs() == self.pairs(),
    {
        self.duplicate()
    }
}

/// Two label maps are equal when they give the same names the same values; the order does
/// not matter.
impl PartialEq for Labels {
    fn eq(&self, other: &Labels) -> (r: bool) {
        let r = self.within(other) && other.within(self);
        assert(r ==> self@ =~= other@);
        r
    }
}

impl vstd::std_specs::cmp::PartialEqSpecImpl for Labels {
    open spec fn obeys_eq_spec() -> bool {
        true
    }

    open spec fn eq_spec(&self, other: &Labels) -> bool {
        self@ == other@
    }
}

/// Setting the value of a name that is there keeps every name in its place, and every other value.
/// A new name comes last.
pub proof fn law_names_keep_their_places(
    pairs: Seq<PairView>,
    name: Seq<char>,
    value: Seq<char>,
    i: int,
)
    requires
        distinct_names(pairs),
        0 <= i < pairs.len(),
    ensures
        ({
            let after = insert_pair(pairs, name, value);
            &&& after[i].0 == pairs[i].0
            &&& pairs[i].0 != name ==> after[i].1 == pairs[i].1
            &&& pairs[i].0 == name ==> after[i].1 == value && after.len() == pairs.len()
            &&& !pairs_map(pairs).contains_key(name) ==> after.len() == pairs.len() + 1
                && after.last() == (name, value)
        }),
{
    lemma_pairs_map_contains(pairs, name);
    if exists|k: int| 0 <= k < pairs.len() && (#[trigger] pairs[k]).0 == name {
        let k = choose|k: int| 0 <= k < pairs.len() && (#[trigger] pairs[k]).0 == name;
        lemma_insert_pair_at(pairs, k, value);
    } else {
        lemma_insert_pair_new(pairs, name, value);
    }
}

/// What a list says of a name is the value of the last pair with it.
pub proof fn law_later_pair_counts(pairs: Seq<PairView>, name: Seq<char>, i: int)
    requires
        0 <= i < pairs.len(),
        pairs[i].0 == name,
        forall|j: int| i < j < pairs.len() ==> (#[trigger] pairs[j]).0 != name,
    ensures
        pairs_map(pairs).contains_pair(name, pairs[i].1),
    decreases pairs.len(),
{
    if i < pairs.len() - 1 {
        assert(pairs[pairs.len() - 1].0 != name);
        assert forall|j: int| i < j < pairs.drop_last().len() implies (
        #[trigger] pairs.drop_last()[j]).0 != name by {
            assert(pairs[j].0 != name);
        }
        law_later_pair_counts(pairs.drop_last(), name, i);
    }
}

} // verus!

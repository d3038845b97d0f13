//! The frequency table: distinct tokens, each with a positive count.
use vstd::prelude::*;

verus! {

broadcast use vstd::seq_lib::group_to_multiset_ensures;

/// The character sequences of a sequence of strings.
pub open spec fn views(v: Seq<String>) -> Seq<Seq<char>> {
    v.map_values(|s: String| s@)
}

/// How often each token occurs in `tokens`: a map from each token that
/// occurs to its number of occurrences.
pub open spec fn freq_of(tokens: Seq<Seq<char>>) -> Map<Seq<char>, nat> {
    Map::new(
        |k: Seq<char>| tokens.to_multiset().count(k) > 0,
        |k: Seq<char>| tokens.to_multiset().count(k),
    )
}

/// Adding one more token raises its count by one and leaves the others alone.
pub proof fn lemma_freq_push(tokens: Seq<Seq<char>>, t: Seq<char>)
    ensures
        freq_of(tokens.push(t)) == freq_of(tokens).insert(
            t,
            if freq_of(tokens).contains_key(t) {
                freq_of(tokens)[t] + 1
            } else {
                1
            },
        ),
{
    assert(tokens.push(t).to_multiset() =~= tokens.to_multiset().insert(t));
    assert(freq_of(tokens.push(t)) =~= freq_of(tokens).insert(
        t,
        if freq_of(tokens).contains_key(t) {
            freq_of(tokens)[t] + 1
        } else {
            1
        },
    ));
}

/// No token occurs more often than there are tokens.
pub proof fn lemma_freq_bounded(tokens: Seq<Seq<char>>, k: Seq<char>)
    requires
        freq_of(tokens).contains_key(k),
    ensures
        freq_of(tokens)[k] <= tokens.len(),
{
    broadcast use vstd::multiset::group_multiset_axioms;

    assert(tokens.to_multiset().len() == tokens.len());
}

/// A table of distinct string keys, each with a positive count.
pub struct FreqTable {
    keys: Vec<String>,
    counts: Vec<usize>,
}

impl FreqTable {
    /// The position of key `k`, where it is present.
    spec fn index_of(&self, k: Seq<char>) -> int {
        choose|i: int| 0 <= i < self.keys@.len() && self.keys@[i]@ == k
    }

    /// Whether key `k` is present.
    spec fn has_key(&self, k: Seq<char>) -> bool {
        exists|i: int| 0 <= i < self.keys@.len() && self.keys@[i]@ == k
    }

    /// The keys are distinct, each paired with a positive count.
    pub closed spec fn wf(&self) -> bool {
        &&& self.keys@.len() == self.counts@.len()
        &&& forall|i: int, j: int|
            0 <= i < self.keys@.len() && 0 <= j < self.keys@.len() && self.keys@[i]@
                == self.keys@[j]@ ==> i == j
        &&& forall|i: int| 0 <= i < self.counts@.len() ==> self.counts@[i] > 0
    }

    proof fn lemma_index_of(&self, i: int)
        requires
            self.wf(),
            0 <= i < self.keys@.len(),
        ensures
            self.has_key(self.keys@[i]@),
            self.index_of(self.keys@[i]@) == i,
            self@[self.keys@[i]@] == self.counts@[i] as nat,
    {
        assert(self.has_key(self.keys@[i]@));
    }

    /// An empty table.
    pub fn new() -> (t: FreqTable)
        ensures
            t.wf(),
            t@ == Map::<Seq<char>, nat>::empty(),
    {
        let t = FreqTable { keys: Vec::new(), counts: Vec::new() };
        assert(t@ =~= Map::<Seq<char>, nat>::empty());
        t
    }

    /// The position of `key` in the table, if it is there.
    fn find(&self, key: &String) -> (r: Option<usize>)
        requires
            self.wf(),
        ensures
            match r {
                Some(i) => i < self.keys@.len() && self.keys@[i as int]@ == key@,
                None => !self@.contains_key(key@),
            },
    {
        let mut i: usize = 0;
        while i < self.keys.len()
            invariant
                i <= self.keys@.len(),
                forall|j: int| 0 <= j < i ==> self.keys@[j]@ != key@,
            decreases self.keys@.len() - i,
        {
            if self.keys[i] == *key {
                return Some(i);
            }
            i = i + 1;
        }
        None
    }

    /// Counts one more occurrence of `token`.
    pub fn add(&mut self, token: String)
        requires
            old(self).wf(),
            old(self)@.contains_key(token@) ==> old(self)@[token@] < usize::MAX,
        ensures
            final(self).wf(),
            final(self)@ == old(self)@.insert(
                token@,
                if old(self)@.contains_key(token@) {
                    old(self)@[token@] + 1
                } else {
                    1
                },
            ),
    {
        match self.find(&token) {
            Some(i) => {
                proof {
                    self.lemma_index_of(i as int);
                }
                let c = self.counts[i];
                self.counts.set(i, c + 1);
                proof {
                    let o = *old(self);
                    assert forall|k: Seq<char>| #[trigger] self.has_key(k) == o.has_key(k) by {
                        if o.has_key(k) {
                            let j = o.index_of(k);
                            assert(self.keys@[j]@ == k);
                        }
                    }
                    assert forall|k: Seq<char>| k != token@ && self.has_key(k) implies self@[k]
                        == o@[k] by {
                        let j = o.index_of(k);
                        o.lemma_index_of(j);
                        self.lemma_index_of(j);
                    }
                    self.lemma_index_of(i as int);
                    assert(self@ =~= o@.insert(token@, o@[token@] + 1));
                }
            },
            None => {
                let ghost o = *self;
                self.keys.push(token);
                self.counts.push(1);
                proof {
                    let n = o.keys@.len() as int;
                    let k0 = self.keys@[n]@;
                    assert forall|k: Seq<char>| k != k0 implies #[trigger] self.has_key(k)
                        == o.has_key(k) by {
                        if o.has_key(k) {
                            let j = o.index_of(k);
                            assert(self.keys@[j]@ == k);
                        }
                        if self.has_key(k) {
                            let j = self.index_of(k);
                            assert(o.keys@[j]@ == k);
                        }
                    }
                    assert forall|k: Seq<char>| k != k0 && self.has_key(k) implies self@[k]
                        == o@[k] by {
                        let j = o.index_of(k);
                        o.lemma_index_of(j);
                        self.lemma_index_of(j);
                    }
                    self.lemma_index_of(n);
                    assert(self@ =~= o@.insert(k0, 1));
                }
            },
        }
    }

    /// The count of `key`, or `None` where it does not occur.
    pub fn get(&self, key: &str) -> (r: Option<usize>)
        requires
            self.wf(),
        ensures
            r == if self@.contains_key(key@) {
                Some(self@[key@] as usize)
            } else {
                None::<usize>
            },
    {
        let k = key.to_owned();
        match self.find(&k) {
            Some(i) => {
                proof {
                    self.lemma_index_of(i as int);
                }
                Some(self.counts[i])
            },
            None => None,
        }
    }
}

impl FreqTable {
    proof fn lemma_dom(&self)
        requires
            self.wf(),
        ensures
            self@.dom() == views(self.keys@).to_set(),
            views(self.keys@).no_duplicates(),
    {
        assert forall|k: Seq<char>| self@.dom().contains(k) == views(self.keys@).to_set().contains(
            k,
        ) by {
            if self.has_key(k) {
                let i = self.index_of(k);
                assert(views(self.keys@)[i] == k);
            }
            if views(self.keys@).contains(k) {
                let i = choose|i: int| 0 <= i < views(self.keys@).len() && views(self.keys@)[i] == k;
                assert(self.keys@[i]@ == k);
            }
        }
        assert(self@.dom() =~= views(self.keys@).to_set());
    }

    /// The number of distinct keys.
    pub fn len(&self) -> (r: usize)
        requires
            self.wf(),
        ensures
            r == self@.dom().len(),
    {
        proof {
            self.lemma_dom();
            views(self.keys@).unique_seq_to_set();
        }
        self.keys.len()
    }

    /// The distinct keys, each once, in no particular order.
    pub fn keys(&self) -> (r: Vec<String>)
        requires
            self.wf(),
        ensures
            views(r@).to_set() == self@.dom(),
            views(r@).no_duplicates(),
    {
        proof {
            self.lemma_dom();
        }
        self.keys.clone()
    }
}

impl View for FreqTable {
    type V = Map<Seq<char>, nat>;

    /// Each key of the table, with its count.
    closed spec fn view(&self) -> Map<Seq<char>, nat> {
        Map::new(|k: Seq<char>| self.has_key(k), |k: Seq<char>| self.counts@[self.index_of(k)] as nat)
    }
}

/// Counts how often each string occurs in `tokens`.
pub fn tally(tokens: &Vec<String>) -> (t: FreqTable)
    ensures
        t.wf(),
        t@ == freq_of(views(tokens@)),
{
    let mut t = FreqTable::new();
    let mut i: usize = 0;
    assert(views(tokens@.take(0)) =~= Seq::<Seq<char>>::empty());
    assert(t@ =~= freq_of(Seq::<Seq<char>>::empty()));
    while i < tokens.len()
        invariant
            i <= tokens@.len(),
            t.wf(),
            t@ == freq_of(views(tokens@.take(i as int))),
        decreases tokens@.len() - i,
    {
        let ghost before = views(tokens@.take(i as int));
        let tok = tokens[i].clone();
        proof {
            if freq_of(before).contains_key(tok@) {
                lemma_freq_bounded(before, tok@);
            }
            lemma_freq_push(before, tok@);
            assert(views(tokens@.take(i + 1)) =~= before.push(tok@));
        }
        t.add(tok);
        i = i + 1;
    }
    assert(tokens@.take(i as int) =~= tokens@);
    t
}

} // verus!

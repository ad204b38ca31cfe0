//! A tokenizer vocabulary: token strings with their ids, which can be both
//! walked in a fixed order and looked up by token.
use vstd::hash_map::StringHashMap;
use vstd::prelude::*;

verus! {

/// The map that a sequence of `(key, value)` entries describes when they are
/// inserted in order: a later entry for the same key replaces an earlier
/// one.
pub open spec fn entries_map<K, V>(entries: Seq<(K, V)>) -> Map<K, V>
    decreases entries.len(),
{
    if entries.len() == 0 {
        Map::empty()
    } else {
        entries_map(entries.drop_last()).insert(entries.last().0, entries.last().1)
    }
}

/// No two entries share a key.
pub open spec fn keys_distinct<K, V>(entries: Seq<(K, V)>) -> bool {
    forall|i: int, j: int|
        0 <= i < entries.len() && 0 <= j < entries.len() && i != j ==> #[trigger] entries[i].0
            != #[trigger] entries[j].0
}

/// The `(token, id)` pairs of a vector, the tokens taken by their characters.
pub open spec fn pairs_view(v: Seq<(String, u32)>) -> Seq<(Seq<char>, u32)> {
    v.map_values(|e: (String, u32)| (e.0@, e.1))
}

/// A key is in the map of a sequence of entries exactly when some entry
/// holds it.
pub proof fn lemma_entries_map_contains<K, V>(entries: Seq<(K, V)>, key: K)
    ensures
        entries_map(entries).contains_key(key) <==> exists|i: int|
            0 <= i < entries.len() && #[trigger] entries[i].0 == key,
    decreases entries.len(),
{
    if entries.len() > 0 {
        let init = entries.drop_last();
        lemma_entries_map_contains(init, key);
        if entries_map(init).contains_key(key) {
            let i = choose|i: int| 0 <= i < init.len() && #[trigger] init[i].0 == key;
            assert(entries[i].0 == key);
        }
        if exists|i: int| 0 <= i < entries.len() && #[trigger] entries[i].0 == key {
            let i = choose|i: int| 0 <= i < entries.len() && #[trigger] entries[i].0 == key;
            if i < entries.len() - 1 {
                assert(init[i].0 == key);
            }
        }
    }
}

/// When no two entries share a key, each key maps to the value of its entry.
pub proof fn lemma_entries_map_value<K, V>(entries: Seq<(K, V)>, i: int)
    requires
        keys_distinct(entries),
        0 <= i < entries.len(),
    ensures
        entries_map(entries).contains_key(entries[i].0),
        entries_map(entries)[entries[i].0] == entries[i].1,
    decreases entries.len(),
{
    if i < entries.len() - 1 {
        let init = entries.drop_last();
        assert(init[i] == entries[i]);
        assert(entries[i].0 != entries[entries.len() - 1].0);
        assert(keys_distinct(init)) by {
            assert forall|a: int, b: int|
                0 <= a < init.len() && 0 <= b < init.len() && a != b implies #[trigger] init[a].0
                != #[trigger] init[b].0 by {
                assert(init[a] == entries[a] && init[b] == entries[b]);
            }
        }
        lemma_entries_map_value(init, i);
    }
}

/// Appending an entry inserts it into the map.
pub proof fn lemma_entries_map_push<K, V>(entries: Seq<(K, V)>, e: (K, V))
    ensures
        entries_map(entries.push(e)) == entries_map(entries).insert(e.0, e.1),
{
    assert(entries.push(e).drop_last() =~= entries);
}

/// Replacing the value of an existing entry, when no two entries share a key,
/// updates the map at that key and keeps the keys distinct.
pub proof fn lemma_entries_map_update<K, V>(entries: Seq<(K, V)>, i: int, value: V)
    requires
        keys_distinct(entries),
        0 <= i < entries.len(),
    ensures
        keys_distinct(entries.update(i, (entries[i].0, value))),
        entries_map(entries.update(i, (entries[i].0, value))) == entries_map(entries).insert(
            entries[i].0,
            value,
        ),
{
    let key = entries[i].0;
    let upd = entries.update(i, (key, value));
    assert(keys_distinct(upd)) by {
        assert forall|a: int, b: int|
            0 <= a < upd.len() && 0 <= b < upd.len() && a != b implies #[trigger] upd[a].0
            != #[trigger] upd[b].0 by {
            assert(upd[a].0 == entries[a].0 && upd[b].0 == entries[b].0);
        }
    }
    let lhs = entries_map(upd);
    let rhs = entries_map(entries).insert(key, value);
    assert forall|k: K| #[trigger] lhs.contains_key(k) <==> rhs.contains_key(k) by {
        lemma_entries_map_contains(upd, k);
        lemma_entries_map_contains(entries, k);
        if exists|j: int| 0 <= j < upd.len() && #[trigger] upd[j].0 == k {
            let j = choose|j: int| 0 <= j < upd.len() && #[trigger] upd[j].0 == k;
            assert(entries[j].0 == k);
        }
        if exists|j: int| 0 <= j < entries.len() && #[trigger] entries[j].0 == k {
            let j = choose|j: int| 0 <= j < entries.len() && #[trigger] entries[j].0 == k;
            assert(upd[j].0 == k);
        }
        if k == key {
            assert(upd[i].0 == k);
        }
    }
    assert forall|k: K| #[trigger] lhs.contains_key(k) implies lhs[k] == rhs[k] by {
        lemma_entries_map_contains(upd, k);
        let j = choose|j: int| 0 <= j < upd.len() && #[trigger] upd[j].0 == k;
        lemma_entries_map_value(upd, j);
        if j != i {
            assert(entries[j] == upd[j]);
            lemma_entries_map_value(entries, j);
        }
    }
    assert(lhs =~= rhs);
}

/// A vocabulary: tokens with their ids, in a fixed order, without a token
/// twice.  It is walked by position and looked up by token.
pub struct Vocab {
    entries: Vec<(String, u32)>,
    index: StringHashMap<u32>,
}

/// The position of `token` among `entries`, which hold it.
fn position_of(entries: &Vec<(String, u32)>, token: &String) -> (i: usize)
    requires
        exists|j: int| 0 <= j < entries@.len() && #[trigger] pairs_view(entries@)[j].0 == token@,
    ensures
        i < entries@.len(),
        pairs_view(entries@)[i as int].0 == token@,
{
    let n = entries.len();
    let mut i: usize = 0;
    while i < n
        invariant
            n == entries@.len(),
            i <= n,
            forall|j: int| 0 <= j < i ==> #[trigger] pairs_view(entries@)[j].0 != token@,
        decreases n - i,
    {
        if entries[i].0 == *token {
            return i;
        }
        assert(pairs_view(entries@)[i as int].0 != token@);
        i = i + 1;
    }
    assert(false);
    0
}

impl Vocab {
    /// The entries in the order in which they are walked.
    pub closed spec fn entries(&self) -> Seq<(Seq<char>, u32)> {
        pairs_view(self.entries@)
    }

    /// The invariant of every vocabulary: the entries hold no token twice,
    /// and the lookup index agrees with them.
    #[verifier::type_invariant]
    pub closed spec fn wf(&self) -> bool {
        &&& keys_distinct(self.entries())
        &&& self.index@ == entries_map(self.entries())
    }

    /// A well-formed vocabulary maps each of its entries' tokens to that
    /// entry's id, and holds no other token.
    pub proof fn lemma_wf_entries(&self)
        requires
            self.wf(),
        ensures
            keys_distinct(self.entries()),
            forall|i: int|
                0 <= i < self.entries().len() ==> self@.contains_key(#[trigger] self.entries()[i].0)
                    && self@[self.entries()[i].0] == self.entries()[i].1,
            forall|t: Seq<char>|
                #[trigger] self@.contains_key(t) ==> exists|i: int|
                    0 <= i < self.entries().len() && #[trigger] self.entries()[i].0 == t,
    {
        assert forall|i: int| 0 <= i < self.entries().len() implies self@.contains_key(
            #[trigger] self.entries()[i].0,
        ) && self@[self.entries()[i].0] == self.entries()[i].1 by {
            lemma_entries_map_value(self.entries(), i);
        }
        assert forall|t: Seq<char>| #[trigger] self@.contains_key(t) implies exists|i: int|
            0 <= i < self.entries().len() && #[trigger] self.entries()[i].0 == t by {
            lemma_entries_map_contains(self.entries(), t);
        }
    }

    /// An empty vocabulary.
    pub fn new() -> (v: Vocab)
        ensures
            v.entries() == Seq::<(Seq<char>, u32)>::empty(),
            v@ == Map::<Seq<char>, u32>::empty(),
    {
        let entries: Vec<(String, u32)> = Vec::new();
        let index: StringHashMap<u32> = StringHashMap::new();
        assert(pairs_view(entries@) =~= Seq::<(Seq<char>, u32)>::empty());
        assert(entries_map(pairs_view(entries@)) =~= Map::<Seq<char>, u32>::empty());
        Vocab { entries, index }
    }

    /// The number of entries.
    pub fn len(&self) -> (n: usize)
        ensures
            n == self.entries().len(),
    {
        self.entries.len()
    }

    /// The entry at position `i`.
    pub fn entry(&self, i: usize) -> (e: (&String, u32))
        requires
            i < self.entries().len(),
        ensures
            (e.0@, e.1) == self.entries()[i as int],
    {
        let e = &self.entries[i];
        (&e.0, e.1)
    }

    /// The id of `token`, if the vocabulary holds it.
    pub fn get(&self, token: &str) -> (r: Option<u32>)
        ensures
            r == (if self@.contains_key(token@) {
                Some(self@[token@])
            } else {
                None
            }),
    {
        proof {
            use_type_invariant(self);
        }
        match self.index.get(token) {
            Some(id) => Some(*id),
            None => None,
        }
    }

    /// Whether the vocabulary holds `token`.
    pub fn contains_key(&self, token: &str) -> (b: bool)
        ensures
            b == self@.contains_key(token@),
    {
        proof {
            use_type_invariant(self);
        }
        self.index.contains_key(token)
    }

    /// Gives `token` the id `id`: a new token is appended to the entries, a
    /// token already held keeps its position and takes the new id.
    pub fn insert(&mut self, token: String, id: u32)
        ensures
            final(self)@ == old(self)@.insert(token@, id),
            !old(self)@.contains_key(token@) ==> final(self).entries() == old(self).entries().push(
                (token@, id),
            ),
            forall|i: int|
                0 <= i < old(self).entries().len() && #[trigger] old(self).entries()[i].0
                    == token@ ==> final(self).entries() == old(self).entries().update(
                    i,
                    (token@, id),
                ),
    {
        let mut taken = Vocab::new();
        std::mem::swap(&mut taken, self);
        proof {
            use_type_invariant(&taken);
            taken.lemma_wf_entries();
        }
        let ghost before = taken.entries();
        let Vocab { mut entries, mut index } = taken;
        if index.contains_key(token.as_str()) {
            let i = position_of(&entries, &token);
            proof {
                lemma_entries_map_update(before, i as int, id);
                assert forall|j: int|
                    0 <= j < before.len() && #[trigger] before[j].0 == token@ implies j
                    == i by {}
            }
            index.insert(token.clone(), id);
            entries.set(i, (token, id));
            assert(pairs_view(entries@) =~= before.update(i as int, (token@, id)));
        } else {
            proof {
                lemma_entries_map_push(before, (token@, id));
            }
            index.insert(token.clone(), id);
            entries.push((token, id));
            assert(pairs_view(entries@) =~= before.push((token@, id)));
            assert(keys_distinct(pairs_view(entries@))) by {
                assert forall|j: int| 0 <= j < before.len() implies #[trigger] before[j].0
                    != token@ by {
                    lemma_entries_map_value(before, j);
                }
            }
        }
        *self = Vocab { entries, index };
    }

    /// The vocabulary that inserting `entries` in order gives: a later entry
    /// for a token replaces an earlier one.
    pub fn from_entries(entries: Vec<(String, u32)>) -> (v: Vocab)
        ensures
            v@ == entries_map(pairs_view(entries@)),
            keys_distinct(pairs_view(entries@)) ==> v.entries() == pairs_view(entries@),
    {
        let mut v = Vocab::new();
        let n = entries.len();
        let ghost all = pairs_view(entries@);
        for i in 0..n
            invariant
                n == entries@.len(),
                all == pairs_view(entries@),
                v@ == entries_map(all.take(i as int)),
                keys_distinct(all) ==> v.entries() == all.take(i as int),
        {
            let token = entries[i].0.clone();
            let id = entries[i].1;
            proof {
                assert(all.take(i + 1).drop_last() =~= all.take(i as int));
                assert(all[i as int] == (token@, id));
                if keys_distinct(all) {
                    assert(!v@.contains_key(token@)) by {
                        lemma_entries_map_contains(all.take(i as int), token@);
                        if v@.contains_key(token@) {
                            let j = choose|j: int|
                                0 <= j < all.take(i as int).len() && #[trigger] all.take(
                                    i as int,
                                )[j].0 == token@;
                            assert(all[j].0 == all[i as int].0);
                        }
                    }
                }
            }
            v.insert(token, id);
            assert(keys_distinct(all) ==> v.entries() =~= all.take(i + 1));
        }
        assert(all.take(n as int) =~= all);
        v
    }
}

impl View for Vocab {
    type V = Map<Seq<char>, u32>;

    /// The tokens of the vocabulary with their ids.
    open spec fn view(&self) -> Map<Seq<char>, u32> {
        entries_map(self.entries())
    }
}

} // verus!

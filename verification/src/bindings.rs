//! Binding maps: string keys to string values, keys unique.
//!
//! A scheme's bindings, a remap layer, and the final mapping handed to
//! the substitution engine are all `BindingMap`s. Remap layers rewrite
//! the values of another map; the engine replaces each key of the final
//! map by its value.

use vstd::prelude::*;
use crate::engine;
use crate::engine::EngineError;
use crate::engine::Matcher;

verus! {

/// A key-to-value map over strings, in insertion order, keys unique.
#[derive(Debug)]
pub struct BindingMap {
    entries: Vec<(String, String)>,
}

/// The value under `key` among `pairs`: the first pair whose key matches.
pub open spec fn pairs_lookup(pairs: Seq<(Seq<char>, Seq<char>)>, key: Seq<char>) -> Option<
    Seq<char>,
>
    decreases pairs.len(),
{
    if pairs.len() == 0 {
        None
    } else if pairs[0].0 == key {
        Some(pairs[0].1)
    } else {
        pairs_lookup(pairs.drop_first(), key)
    }
}

/// `v` rewritten by a remap layer: the layer's entry for `v` when there
/// is one, `v` itself otherwise.
pub open spec fn remapped(layer: Seq<(Seq<char>, Seq<char>)>, v: Seq<char>) -> Seq<char> {
    match pairs_lookup(layer, v) {
        Some(w) => w,
        None => v,
    }
}

/// The mathematical map a binding map denotes.
pub open spec fn map_model(m: BindingMap) -> Map<Seq<char>, Seq<char>> {
    Map::new(|k: Seq<char>| m.spec_get(k) is Some, |k: Seq<char>| m.spec_get(k)->0)
}

/// Inserting a pair moves the model by one `insert`.
pub proof fn lemma_map_model_insert(
    pre: BindingMap,
    post: BindingMap,
    key: Seq<char>,
    val: Seq<char>,
)
    requires
        post.spec_get(key) == Some(val),
        forall|k: Seq<char>| k != key ==> post.spec_get(k) == pre.spec_get(k),
    ensures
        map_model(post) == map_model(pre).insert(key, val),
{
    assert(map_model(post) =~= map_model(pre).insert(key, val));
}

/// The keys of `pairs`, in order.
pub open spec fn keys_of(pairs: Seq<(Seq<char>, Seq<char>)>) -> Seq<Seq<char>> {
    Seq::new(pairs.len(), |i: int| pairs[i].0)
}

/// The values of `pairs`, in order.
pub open spec fn vals_of(pairs: Seq<(Seq<char>, Seq<char>)>) -> Seq<Seq<char>> {
    Seq::new(pairs.len(), |i: int| pairs[i].1)
}

proof fn lemma_pairs_lookup_skip(pairs: Seq<(Seq<char>, Seq<char>)>, key: Seq<char>, i: int)
    requires
        0 <= i <= pairs.len(),
        forall|j: int| 0 <= j < i ==> pairs[j].0 != key,
    ensures
        pairs_lookup(pairs, key) == pairs_lookup(pairs.skip(i), key),
    decreases i,
{
    if i > 0 {
        lemma_pairs_lookup_skip(pairs, key, i - 1);
        assert(pairs.skip(i - 1).drop_first() =~= pairs.skip(i));
        assert(pairs.skip(i - 1)[0] == pairs[i - 1]);
    } else {
        assert(pairs.skip(0) =~= pairs);
    }
}

impl BindingMap {
    /// The key/value pairs, in order.
    pub closed spec fn pairs(&self) -> Seq<(Seq<char>, Seq<char>)> {
        self.entries.deep_view()
    }

    /// Keys are unique.
    pub open spec fn wf(&self) -> bool {
        crate::engine::distinct_seqs(keys_of(self.pairs()))
    }

    /// The value bound to `key`, as the mathematics sees it.
    pub open spec fn spec_get(&self, key: Seq<char>) -> Option<Seq<char>> {
        pairs_lookup(self.pairs(), key)
    }

    /// The empty map.
    pub fn new() -> (r: BindingMap)
        ensures
            r.pairs() =~= Seq::<(Seq<char>, Seq<char>)>::empty(),
            r.wf(),
    {
        BindingMap { entries: Vec::new() }
    }

    pub fn len(&self) -> (r: usize)
        ensures
            r == self.pairs().len(),
    {
        self.entries.len()
    }

    /// The key of the pair at `i`.
    pub fn key_at<'a>(&'a self, i: usize) -> (r: &'a String)
        requires
            i < self.pairs().len(),
        ensures
            r@ == self.pairs()[i as int].0,
    {
        &self.entries[i].0
    }

    /// The value of the pair at `i`.
    pub fn value_at<'a>(&'a self, i: usize) -> (r: &'a String)
        requires
            i < self.pairs().len(),
        ensures
            r@ == self.pairs()[i as int].1,
    {
        &self.entries[i].1
    }

    /// The value bound to `key`.
    pub fn get<'a>(&'a self, key: &String) -> (r: Option<&'a String>)
        ensures
            match r {
                Some(v) => self.spec_get(key@) == Some(v@),
                None => self.spec_get(key@) is None,
            },
    {
        let n = self.entries.len();
        let mut i: usize = 0;
        while i < n
            invariant
                n == self.entries@.len(),
                i <= n,
                self.pairs().len() == n,
                forall|j: int| 0 <= j < i ==> self.pairs()[j].0 != key@,
            decreases n - i,
        {
            let hit = self.entries[i].0 == *key;
            proof {
                assert(self.pairs()[i as int] == (self.entries@[i as int].0@, self.entries@[
                    i as int].1@));
            }
            if hit {
                proof {
                    lemma_pairs_lookup_skip(self.pairs(), key@, i as int);
                    assert(self.pairs().skip(i as int)[0] == self.pairs()[i as int]);
                }
                return Some(&self.entries[i].1);
            }
            i = i + 1;
        }
        proof {
            lemma_pairs_lookup_skip(self.pairs(), key@, n as int);
            assert(self.pairs().skip(n as int).len() == 0);
        }
        None
    }

    /// Bind `key` to `val`: overwrite the value in place when the key is
    /// present, append the pair otherwise.
    pub fn insert(&mut self, key: String, val: String)
        requires
            old(self).wf(),
        ensures
            final(self).wf(),
            final(self).spec_get(key@) == Some::<Seq<char>>(val@),
            forall|k: Seq<char>| k != key@ ==> final(self).spec_get(k) == old(self).spec_get(k),
            keys_of(final(self).pairs()).to_set() =~= keys_of(old(self).pairs()).to_set().insert(
                key@,
            ),
    {
        let ghost opairs = self.pairs();
        let n = self.entries.len();
        let mut i: usize = 0;
        while i < n
            invariant
                n == self.entries@.len(),
                i <= n,
                opairs == self.pairs(),
                opairs == old(self).pairs(),
                crate::engine::distinct_seqs(keys_of(opairs)),
                opairs.len() == n,
                forall|j: int| 0 <= j < i ==> opairs[j].0 != key@,
            decreases n - i,
        {
            let hit = self.entries[i].0 == key;
            proof {
                assert(opairs[i as int] == (self.entries@[i as int].0@, self.entries@[i as int].1@));
            }
            if hit {
                let kept = self.entries[i].0.clone();
                self.entries.set(i, (kept, val));
                proof {
                    let np = self.pairs();
                    assert(opairs[i as int].0 == key@);
                    assert(np =~= opairs.update(i as int, (key@, val@)));
                    lemma_update_lookup(opairs, i as int, key@, val@);
                    assert forall|k: Seq<char>| k != key@ implies #[trigger] pairs_lookup(
                        self.pairs(),
                        k,
                    ) == pairs_lookup(opairs, k) by {
                        assert(pairs_lookup(opairs.update(i as int, (key@, val@)), k)
                            == pairs_lookup(opairs, k));
                    }
                    assert(keys_of(np) =~= keys_of(opairs));
                    assert(crate::engine::distinct_seqs(keys_of(np)));
                    assert(keys_of(opairs).to_set().contains(key@)) by {
                        assert(keys_of(opairs)[i as int] == key@);
                    }
                    assert(keys_of(np).to_set() =~= keys_of(opairs).to_set().insert(key@));
                }
                return ;
            }
            i = i + 1;
        }
        self.entries.push((key, val));
        proof {
            let np = self.pairs();
            assert(np =~= opairs.push((key@, val@)));
            lemma_push_lookup(opairs, key@, val@);
            assert forall|k: Seq<char>| k != key@ implies #[trigger] pairs_lookup(
                self.pairs(),
                k,
            ) == pairs_lookup(opairs, k) by {
                assert(pairs_lookup(opairs.push((key@, val@)), k) == pairs_lookup(opairs, k));
            }
            assert forall|p: int, q: int|
                0 <= p < q < keys_of(np).len() implies keys_of(np)[p] != keys_of(np)[q] by {
                assert(keys_of(np)[p] == np[p].0);
                assert(keys_of(np)[q] == np[q].0);
                if q < opairs.len() {
                    assert(keys_of(opairs)[p] == opairs[p].0);
                    assert(keys_of(opairs)[q] == opairs[q].0);
                    assert(np[p] == opairs[p] && np[q] == opairs[q]);
                } else {
                    assert(np[q].0 == key@ && np[p] == opairs[p]);
                }
            }
            assert(keys_of(np).to_set() =~= keys_of(opairs).to_set().insert(key@)) by {
                assert forall|x: Seq<char>|
                    keys_of(np).to_set().contains(x) implies keys_of(opairs).to_set().insert(
                    key@,
                ).contains(x) by {
                    let w = choose|w: int| 0 <= w < keys_of(np).len() && keys_of(np)[w] == x;
                    if w < opairs.len() {
                        assert(keys_of(opairs)[w] == x);
                    }
                }
                assert forall|x: Seq<char>|
                    keys_of(opairs).to_set().insert(key@).contains(x) implies keys_of(
                    np,
                ).to_set().contains(x) by {
                    if x == key@ {
                        assert(keys_of(np)[opairs.len() as int] == x);
                    } else {
                        let w = choose|w: int|
                            0 <= w < keys_of(opairs).len() && keys_of(opairs)[w] == x;
                        assert(keys_of(np)[w] == x);
                    }
                }
            }
        }
    }

    /// Rewrite every value through the remap layer: a value that equals a
    /// key of the layer becomes the layer's value for it; the rest pass
    /// through. Keys and their order do not change.
    pub fn apply_remap(&mut self, layer: &BindingMap)
        ensures
            final(self).pairs().len() == old(self).pairs().len(),
            forall|i: int|
                0 <= i < old(self).pairs().len() ==> #[trigger] final(self).pairs()[i] == (
                    old(self).pairs()[i].0,
                    remapped(layer.pairs(), old(self).pairs()[i].1),
                ),
            old(self).wf() ==> final(self).wf(),
    {
        let ghost opairs = self.pairs();
        let n = self.entries.len();
        let mut i: usize = 0;
        while i < n
            invariant
                n == self.entries@.len(),
                i <= n,
                self.pairs().len() == n,
                opairs.len() == n,
                forall|j: int|
                    i <= j < n ==> #[trigger] self.pairs()[j] == opairs[j],
                forall|j: int|
                    0 <= j < i ==> #[trigger] self.pairs()[j] == (
                        opairs[j].0,
                        remapped(layer.pairs(), opairs[j].1),
                    ),
            decreases n - i,
        {
            proof {
                assert(self.pairs()[i as int] == (self.entries@[i as int].0@, self.entries@[
                    i as int].1@));
            }
            let ghost before = self.pairs();
            let ghost target = remapped(layer.pairs(), before[i as int].1);
            let replacement = match layer.get(&self.entries[i].1) {
                Some(w) => Some(w.clone()),
                None => None,
            };
            match replacement {
                Some(w) => {
                    proof {
                        assert(w@ == target);
                    }
                    let k = self.entries[i].0.clone();
                    self.entries.set(i, (k, w));
                    proof {
                        assert(self.pairs() =~= before.update(
                            i as int,
                            (before[i as int].0, target),
                        ));
                    }
                },
                None => {
                    proof {
                        assert(target == before[i as int].1);
                        assert(before[i as int] == (before[i as int].0, target));
                    }
                },
            }
            i = i + 1;
        }
        proof {
            assert(keys_of(self.pairs()) =~= keys_of(opairs));
        }
    }

    /// Replace the value at `i`, keeping the key.
    pub fn set_value_at(&mut self, i: usize, val: String)
        requires
            i < old(self).pairs().len(),
        ensures
            final(self).pairs() =~= old(self).pairs().update(
                i as int,
                (old(self).pairs()[i as int].0, val@),
            ),
            old(self).wf() ==> final(self).wf(),
    {
        let k = self.entries[i].0.clone();
        self.entries.set(i, (k, val));
        proof {
            assert(self.pairs() =~= old(self).pairs().update(
                i as int,
                (old(self).pairs()[i as int].0, val@),
            ));
            assert(keys_of(self.pairs()) =~= keys_of(old(self).pairs()));
        }
    }
}

impl Clone for BindingMap {
    fn clone(&self) -> (r: Self)
        ensures
            r.pairs() == self.pairs(),
    {
        let mut entries: Vec<(String, String)> = Vec::new();
        let n = self.entries.len();
        let mut i: usize = 0;
        while i < n
            invariant
                n == self.entries@.len(),
                i <= n,
                entries@.len() == i,
                forall|j: int|
                    0 <= j < i ==> (#[trigger] entries@[j]).0@ == self.entries@[j].0@
                        && entries@[j].1@ == self.entries@[j].1@,
            decreases n - i,
        {
            let k = self.entries[i].0.clone();
            let v = self.entries[i].1.clone();
            entries.push((k, v));
            i = i + 1;
        }
        proof {
            assert forall|j: int| 0 <= j < n implies entries.deep_view()[j]
                == self.entries.deep_view()[j] by {
                assert(entries.deep_view()[j] == (entries@[j].0@, entries@[j].1@));
                assert(self.entries.deep_view()[j] == (self.entries@[j].0@, self.entries@[
                    j].1@));
            }
            assert(entries.deep_view() =~= self.entries.deep_view());
        }
        BindingMap { entries }
    }
}

proof fn lemma_update_lookup(pairs: Seq<(Seq<char>, Seq<char>)>, i: int, key: Seq<char>, val: Seq<
    char,
>)
    requires
        0 <= i < pairs.len(),
        pairs[i].0 == key,
        forall|j: int| 0 <= j < i ==> pairs[j].0 != key,
    ensures
        pairs_lookup(pairs.update(i, (key, val)), key) == Some(val),
        forall|k: Seq<char>|
            k != key ==> pairs_lookup(pairs.update(i, (key, val)), k) == pairs_lookup(pairs, k),
    decreases i,
{
    let np = pairs.update(i, (key, val));
    if i == 0 {
        assert(np[0] == (key, val));
        assert forall|k: Seq<char>| k != key implies pairs_lookup(np, k) == pairs_lookup(
            pairs,
            k,
        ) by {
            assert(np.drop_first() =~= pairs.drop_first());
            assert(np[0].0 == key);
            assert(pairs[0].0 == key);
        }
        assert(pairs_lookup(np, key) == Some(val));
    } else {
        lemma_update_lookup(pairs.drop_first(), i - 1, key, val);
        assert(np.drop_first() =~= pairs.drop_first().update(i - 1, (key, val)));
        assert(np[0] == pairs[0]);
        assert(np[0].0 != key);
        assert(pairs_lookup(np, key) == pairs_lookup(np.drop_first(), key));
        assert(pairs_lookup(np, key) == Some(val));
        assert forall|k: Seq<char>| k != key implies pairs_lookup(np, k) == pairs_lookup(
            pairs,
            k,
        ) by {
            if np[0].0 == k {
                assert(pairs_lookup(np, k) == Some(np[0].1));
                assert(pairs_lookup(pairs, k) == Some(pairs[0].1));
            } else {
                assert(pairs_lookup(np, k) == pairs_lookup(np.drop_first(), k));
                assert(pairs_lookup(pairs, k) == pairs_lookup(pairs.drop_first(), k));
            }
        }
    }
}

proof fn lemma_push_lookup(pairs: Seq<(Seq<char>, Seq<char>)>, key: Seq<char>, val: Seq<char>)
    requires
        forall|j: int| 0 <= j < pairs.len() ==> pairs[j].0 != key,
    ensures
        pairs_lookup(pairs.push((key, val)), key) == Some(val),
        forall|k: Seq<char>|
            k != key ==> pairs_lookup(pairs.push((key, val)), k) == pairs_lookup(pairs, k),
    decreases pairs.len(),
{
    let np = pairs.push((key, val));
    if pairs.len() == 0 {
        assert(np[0] == (key, val));
        assert(np.drop_first() =~= pairs);
        assert forall|k: Seq<char>| k != key implies pairs_lookup(np, k) == pairs_lookup(
            pairs,
            k,
        ) by {
            assert(pairs_lookup(np, k) == pairs_lookup(np.drop_first(), k));
        }
    } else {
        lemma_push_lookup(pairs.drop_first(), key, val);
        assert(np.drop_first() =~= pairs.drop_first().push((key, val)));
        assert(np[0] == pairs[0]);
        assert(np[0].0 != key);
        assert(pairs_lookup(np, key) == pairs_lookup(np.drop_first(), key));
        assert forall|k: Seq<char>| k != key implies pairs_lookup(np, k) == pairs_lookup(
            pairs,
            k,
        ) by {
            if np[0].0 == k {
                assert(pairs_lookup(np, k) == Some(np[0].1));
                assert(pairs_lookup(pairs, k) == Some(pairs[0].1));
            } else {
                assert(pairs_lookup(np, k) == pairs_lookup(np.drop_first(), k));
                assert(pairs_lookup(pairs, k) == pairs_lookup(pairs.drop_first(), k));
            }
        }
    }
}

/// Compile a matcher whose keys and values are the map's pairs, in
/// order.
///
/// An empty map is a configuration error, as is an empty key; a
/// well-formed map never has duplicate keys.
pub fn matcher_of(bindings: &BindingMap) -> (r: Result<Matcher, EngineError>)
    requires
        bindings.wf(),
    ensures
        match r {
            Ok(m) => {
                &&& m.wf()
                &&& m.keys_view() == keys_of(bindings.pairs())
                &&& m.vals_view() == vals_of(bindings.pairs())
            },
            Err(e) => {
                &&& !(e is DuplicateKey)
                &&& e is EmptyKeySet <==> bindings.pairs().len() == 0
                &&& e is EmptyKey <==> bindings.pairs().len() > 0 && !engine::nonempty_seqs(
                    keys_of(bindings.pairs()),
                )
                &&& e is Build <==> bindings.pairs().len() > 0 && engine::nonempty_seqs(
                    keys_of(bindings.pairs()),
                ) && !engine::automaton_buildable(keys_of(bindings.pairs()))
            },
        },
        bindings.pairs().len() == 0 ==> r is Err,
        (bindings.pairs().len() > 0 && !engine::nonempty_seqs(keys_of(bindings.pairs())))
            ==> r is Err,
        (bindings.pairs().len() > 0 && engine::nonempty_seqs(keys_of(bindings.pairs()))
            && engine::automaton_buildable(keys_of(bindings.pairs()))) ==> r is Ok,
{
    let n = bindings.len();
    let mut keys: Vec<String> = Vec::new();
    let mut vals: Vec<String> = Vec::new();
    let mut i: usize = 0;
    while i < n
        invariant
            n == bindings.pairs().len(),
            i <= n,
            keys@.len() == i,
            vals@.len() == i,
            forall|j: int| 0 <= j < i ==> (#[trigger] keys@[j])@ == bindings.pairs()[j].0,
            forall|j: int| 0 <= j < i ==> (#[trigger] vals@[j])@ == bindings.pairs()[j].1,
        decreases n - i,
    {
        let ghost pk = keys@;
        let ghost pv = vals@;
        let kc = bindings.key_at(i).clone();
        let vc = bindings.value_at(i).clone();
        keys.push(kc);
        vals.push(vc);
        proof {
            assert forall|j: int| 0 <= j < i + 1 implies (#[trigger] keys@[j])@
                == bindings.pairs()[j].0 by {
                if j < i {
                    assert(keys@[j] == pk[j]);
                }
            }
            assert forall|j: int| 0 <= j < i + 1 implies (#[trigger] vals@[j])@
                == bindings.pairs()[j].1 by {
                if j < i {
                    assert(vals@[j] == pv[j]);
                }
            }
        }
        i = i + 1;
    }
    proof {
        let kp = keys_of(bindings.pairs());
        let vp = vals_of(bindings.pairs());
        assert forall|j: int| 0 <= j < n implies keys.deep_view()[j] == kp[j]
            && vals.deep_view()[j] == vp[j] by {
            assert(keys.deep_view()[j] == keys@[j]@);
            assert(vals.deep_view()[j] == vals@[j]@);
            assert(kp[j] == bindings.pairs()[j].0);
            assert(vp[j] == bindings.pairs()[j].1);
        }
        assert(keys.deep_view() =~= kp);
        assert(vals.deep_view() =~= vp);
    }
    match Matcher::new(keys, vals) {
        Ok(m) => Ok(m),
        Err(e) => Err(e),
    }
}

/// Apply a final binding map to `text`: every occurrence of a key becomes
/// its value, with leftmost, longest-match disambiguation, in one pass.
///
/// An empty map is a configuration error, as is an empty or duplicated
/// key; a well-formed map never has duplicates.
pub fn axbind_replace(text: &str, bindings: &BindingMap) -> (r: Result<String, EngineError>)
    requires
        bindings.wf(),
    ensures
        match r {
            Ok(s) => s@ == engine::replaced(
                keys_of(bindings.pairs()),
                vals_of(bindings.pairs()),
                text@,
            ),
            Err(e) => {
                &&& !(e is DuplicateKey)
                &&& e is EmptyKeySet <==> bindings.pairs().len() == 0
                &&& e is EmptyKey <==> bindings.pairs().len() > 0 && !engine::nonempty_seqs(
                    keys_of(bindings.pairs()),
                )
                &&& e is Build <==> bindings.pairs().len() > 0 && engine::nonempty_seqs(
                    keys_of(bindings.pairs()),
                ) && !engine::automaton_buildable(keys_of(bindings.pairs()))
            },
        },
        bindings.pairs().len() == 0 ==> r is Err,
        (bindings.pairs().len() > 0 && !engine::nonempty_seqs(keys_of(bindings.pairs())))
            ==> r is Err,
        (bindings.pairs().len() > 0 && engine::nonempty_seqs(keys_of(bindings.pairs()))
            && engine::automaton_buildable(keys_of(bindings.pairs()))) ==> r is Ok,
{
    match matcher_of(bindings) {
        Ok(m) => Ok(m.replace_all(text)),
        Err(e) => Err(e),
    }
}

} // verus!

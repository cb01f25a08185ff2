//! A map keyed by names, kept in name order (the order in which a
//! `BTreeMap<String, _>` holds its keys).
use vstd::prelude::*;

use crate::text::{
    chars_of, eq_chars, lemma_seq_lt_irrefl, lemma_seq_lt_total, lemma_seq_lt_trans, lt_chars,
    seq_lt, strictly_sorted,
};

verus! {

/// Entries are kept strictly sorted by key, so every key occurs once and
/// iteration goes in name order.
#[derive(Debug)]
pub struct NameMap<V> {
    entries: Vec<(String, V)>,
}

/// The keys of a list of entries, as character sequences.
pub open spec fn entry_keys<V>(es: Seq<(String, V)>) -> Seq<Seq<char>> {
    es.map_values(|e: (String, V)| e.0@)
}

/// The values of a list of entries.
pub open spec fn entry_values<V>(es: Seq<(String, V)>) -> Seq<V> {
    es.map_values(|e: (String, V)| e.1)
}

/// The map from each key of a list of entries to its value.
pub open spec fn entry_map<V>(es: Seq<(String, V)>) -> Map<Seq<char>, V> {
    Map::new(
        |k: Seq<char>| entry_keys(es).contains(k),
        |k: Seq<char>| entry_values(es)[entry_keys(es).index_of(k)],
    )
}

proof fn lemma_sorted_no_dup(ks: Seq<Seq<char>>)
    requires
        strictly_sorted(ks),
    ensures
        ks.no_duplicates(),
{
    assert forall|i: int, j: int| 0 <= i < ks.len() && 0 <= j < ks.len() && i != j implies ks[i]
        != ks[j] by {
        if i < j {
            lemma_seq_lt_irrefl(ks[i]);
        } else {
            lemma_seq_lt_irrefl(ks[j]);
        }
    }
}

proof fn lemma_index_of_no_dup(ks: Seq<Seq<char>>, i: int)
    requires
        ks.no_duplicates(),
        0 <= i < ks.len(),
    ensures
        ks.index_of(ks[i]) == i,
{
    assert(ks.contains(ks[i]));
}

/// Every key of a sorted entry list maps to the value beside it.
proof fn lemma_entry_map_at<V>(es: Seq<(String, V)>, i: int)
    requires
        strictly_sorted(entry_keys(es)),
        0 <= i < es.len(),
    ensures
        entry_map(es).contains_key(es[i].0@),
        entry_map(es)[es[i].0@] == es[i].1,
{
    lemma_sorted_no_dup(entry_keys(es));
    lemma_index_of_no_dup(entry_keys(es), i);
    assert(entry_keys(es)[i] == es[i].0@);
}

/// Replacing the value of a present key.
proof fn lemma_entry_replace<V>(es: Seq<(String, V)>, i: int, key: String, v: V)
    requires
        strictly_sorted(entry_keys(es)),
        0 <= i < es.len(),
        es[i].0@ == key@,
    ensures
        entry_keys(es.update(i, (key, v))) == entry_keys(es),
        entry_map(es.update(i, (key, v))) == entry_map(es).insert(key@, v),
{
    let ns = es.update(i, (key, v));
    assert(entry_keys(ns) =~= entry_keys(es));
    lemma_sorted_no_dup(entry_keys(es));
    assert(entry_keys(es)[i] == key@);
    assert(entry_keys(es).contains(key@));
    assert(entry_map(ns).dom() =~= entry_map(es).insert(key@, v).dom());
    assert forall|k: Seq<char>| #[trigger] entry_map(ns).contains_key(k) implies entry_map(ns)[k]
        == entry_map(es).insert(key@, v)[k] by {
        assert(entry_keys(es).contains(k));
        let j = entry_keys(es).index_of(k);
        lemma_index_of_no_dup(entry_keys(es), j);
        assert(entry_keys(ns).index_of(k) == j);
        if j == i {
            assert(k == key@);
        } else {
            lemma_index_of_no_dup(entry_keys(es), i);
            assert(k != key@);
            assert(entry_values(ns)[j] == entry_values(es)[j]);
        }
    }
    assert(entry_map(ns) =~= entry_map(es).insert(key@, v));
}

/// Inserting a new key at its place in name order.
proof fn lemma_entry_insert<V>(es: Seq<(String, V)>, i: int, key: String, v: V)
    requires
        strictly_sorted(entry_keys(es)),
        0 <= i <= es.len(),
        forall|j: int| 0 <= j < i ==> seq_lt(#[trigger] entry_keys(es)[j], key@),
        i < es.len() ==> seq_lt(key@, entry_keys(es)[i]),
    ensures
        strictly_sorted(entry_keys(es.insert(i, (key, v)))),
        entry_keys(es.insert(i, (key, v))) == entry_keys(es).insert(i, key@),
        entry_map(es.insert(i, (key, v))) == entry_map(es).insert(key@, v),
{
    let ns = es.insert(i, (key, v));
    let ok = entry_keys(es);
    let nk = entry_keys(ns);
    assert(nk =~= ok.insert(i, key@));
    assert forall|a: int, b: int| 0 <= a < b < nk.len() implies seq_lt(
        #[trigger] nk[a],
        #[trigger] nk[b],
    ) by {
        if b < i {
        } else if b == i {
        } else if a < i {
            if b - 1 > i {
                lemma_seq_lt_trans(key@, ok[i], ok[b - 1]);
            }
            lemma_seq_lt_trans(ok[a], key@, ok[b - 1]);
        } else if a == i {
            if b - 1 > i {
                lemma_seq_lt_trans(key@, ok[i], ok[b - 1]);
            }
        }
    }
    lemma_sorted_no_dup(ok);
    lemma_sorted_no_dup(nk);
    assert forall|k: Seq<char>| entry_map(ns).contains_key(k) <==> entry_map(es).insert(
        key@,
        v,
    ).contains_key(k) by {
        if nk.contains(k) {
            let j = choose|j: int| 0 <= j < nk.len() && nk[j] == k;
            if j < i {
                assert(ok[j] == k);
            } else if j > i {
                assert(ok[j - 1] == k);
            }
        }
        if ok.contains(k) {
            let j = choose|j: int| 0 <= j < ok.len() && ok[j] == k;
            if j < i {
                assert(nk[j] == k);
            } else {
                assert(nk[j + 1] == k);
            }
        }
        if k == key@ {
            assert(nk[i] == k);
        }
    }
    assert forall|k: Seq<char>| #[trigger] entry_map(ns).contains_key(k) implies entry_map(ns)[k]
        == entry_map(es).insert(key@, v)[k] by {
        let j = nk.index_of(k);
        assert(nk.contains(k));
        lemma_index_of_no_dup(nk, j);
        if j == i {
        } else if j < i {
            assert(ok[j] == k);
            lemma_index_of_no_dup(ok, j);
            assert(seq_lt(ok[j], key@));
            lemma_seq_lt_irrefl(k);
            assert(k != key@);
        } else {
            assert(ok[j - 1] == k);
            lemma_index_of_no_dup(ok, j - 1);
            if j - 1 > i {
                assert(seq_lt(ok[i], ok[j - 1]));
                lemma_seq_lt_trans(key@, ok[i], ok[j - 1]);
            }
            lemma_seq_lt_irrefl(k);
            assert(k != key@);
        }
    }
    assert(entry_map(ns) =~= entry_map(es).insert(key@, v));
}

/// The names of `dom`, each once, in name order.
pub open spec fn sorted_names_of(dom: Set<Seq<char>>) -> Seq<Seq<char>> {
    choose|v: Seq<Seq<char>>| strictly_sorted(v) && v.to_set() == dom
}

/// A strictly increasing sequence of names is the sorted listing of its set.
pub proof fn lemma_sorted_names_of(v: Seq<Seq<char>>, dom: Set<Seq<char>>)
    requires
        strictly_sorted(v),
        v.to_set() == dom,
    ensures
        sorted_names_of(dom) == v,
{
    let w = sorted_names_of(dom);
    assert(strictly_sorted(w) && w.to_set() == dom);
    crate::text::lemma_sorted_unique(w, v);
}

impl<V> NameMap<V> {
    /// The keys, in the order in which the map holds them.
    pub closed spec fn key_seq(self) -> Seq<Seq<char>> {
        entry_keys(self.entries@)
    }

    /// The values, in key order.
    pub closed spec fn value_seq(self) -> Seq<V> {
        entry_values(self.entries@)
    }

    #[verifier::type_invariant]
    closed spec fn sorted_keys(self) -> bool {
        strictly_sorted(entry_keys(self.entries@))
    }

    /// The map from each key to its value.
    pub closed spec fn map_view(self) -> Map<Seq<char>, V> {
        entry_map(self.entries@)
    }

    /// The keys are strictly increasing in name order; they are the map's
    /// domain, and each maps to the value at the same position.
    proof fn lemma_wf(&self)
        requires
            self.sorted_keys(),
        ensures
            strictly_sorted(self.key_seq()),
            self.key_seq().no_duplicates(),
            self.key_seq().len() == self.value_seq().len(),
            self@.dom() == self.key_seq().to_set(),
            forall|i: int|
                0 <= i < self.key_seq().len() ==> #[trigger] self@[self.key_seq()[i]]
                    == self.value_seq()[i],
    {
        lemma_sorted_no_dup(self.key_seq());
        assert forall|i: int| 0 <= i < self.key_seq().len() implies #[trigger] self@[
            self.key_seq()[i]] == self.value_seq()[i] by {
            lemma_entry_map_at(self.entries@, i);
        }
        assert(self@.dom() =~= self.key_seq().to_set());
    }

    pub fn new() -> (m: Self)
        ensures
            m.key_seq() == Seq::<Seq<char>>::empty(),
            m.key_seq() == sorted_names_of(m@.dom()),
            m@ == Map::<Seq<char>, V>::empty(),
    {
        let m = NameMap { entries: Vec::new() };
        assert(m.key_seq() =~= Seq::<Seq<char>>::empty());
        assert(m@ =~= Map::<Seq<char>, V>::empty());
        proof {
            assert(m.key_seq().to_set() =~= m@.dom());
            lemma_sorted_names_of(m.key_seq(), m@.dom());
        }
        m
    }

    /// The number of keys; the keys in order are the map's domain, without
    /// repetition, strictly increasing.
    pub fn len(&self) -> (n: usize)
        ensures
            n == self.key_seq().len(),
            strictly_sorted(self.key_seq()),
            self.key_seq().no_duplicates(),
            self@.dom() == self.key_seq().to_set(),
            self.key_seq() == sorted_names_of(self@.dom()),
    {
        proof {
            use_type_invariant(self);
            self.lemma_wf();
            lemma_sorted_names_of(self.key_seq(), self@.dom());
        }
        self.entries.len()
    }

    pub fn is_empty(&self) -> (b: bool)
        ensures
            b == (self.key_seq().len() == 0),
            b == (self@ == Map::<Seq<char>, V>::empty()),
            b == (self@.dom() == Set::<Seq<char>>::empty()),
    {
        proof {
            use_type_invariant(self);
            self.lemma_wf();
        }
        if self.entries.len() == 0 {
            assert(self@ =~= Map::<Seq<char>, V>::empty());
            assert(self@.dom() =~= Set::<Seq<char>>::empty());
            true
        } else {
            assert(self@.contains_key(self.key_seq()[0]));
            assert(!Set::<Seq<char>>::empty().contains(self.key_seq()[0]));
            false
        }
    }

    /// The key at position `i` in name order.
    pub fn key_at(&self, i: usize) -> (k: &String)
        requires
            i < self.key_seq().len(),
        ensures
            k@ == self.key_seq()[i as int],
    {
        &self.entries[i].0
    }

    /// The value at position `i` in name order.
    pub fn value_at(&self, i: usize) -> (v: &V)
        requires
            i < self.key_seq().len(),
        ensures
            *v == self.value_seq()[i as int],
            *v == self@[self.key_seq()[i as int]],
    {
        proof {
            use_type_invariant(self);
            self.lemma_wf();
        }
        &self.entries[i].1
    }

    /// Position of `key` in the key order, if present.
    fn find(&self, key: &Vec<char>) -> (r: Option<usize>)
        ensures
            match r {
                Some(i) => i < self.key_seq().len() && self.key_seq()[i as int] == key@,
                None => !self.key_seq().contains(key@),
            },
    {
        let mut i: usize = 0;
        while i < self.entries.len()
            invariant
                i <= self.entries.len(),
                forall|j: int| 0 <= j < i ==> self.key_seq()[j] != key@,
            decreases self.entries.len() - i,
        {
            let k = chars_of(self.entries[i].0.as_str());
            if eq_chars(&k, key) {
                return Some(i);
            }
            i += 1;
        }
        None
    }

    pub fn contains_key(&self, key: &str) -> (b: bool)
        ensures
            b == self@.contains_key(key@),
    {
        proof {
            use_type_invariant(self);
            self.lemma_wf();
        }
        let k = chars_of(key);
        self.find(&k).is_some()
    }

    pub fn get(&self, key: &str) -> (r: Option<&V>)
        ensures
            match r {
                Some(v) => self@.contains_key(key@) && *v == self@[key@],
                None => !self@.contains_key(key@),
            },
    {
        proof {
            use_type_invariant(self);
            self.lemma_wf();
        }
        let k = chars_of(key);
        match self.find(&k) {
            Some(i) => Some(self.value_at(i)),
            None => None,
        }
    }

    /// Inserts or replaces the value of `key` (as `BTreeMap::insert`); the
    /// keys stay in name order.
    pub fn insert(&mut self, key: String, value: V)
        ensures
            final(self)@ == old(self)@.insert(key@, value),
            final(self).key_seq() == sorted_names_of(final(self)@.dom()),
    {
        proof {
            use_type_invariant(&*self);
        }
        let ghost kv = key@;
        let ghost gv = value;
        let k = chars_of(key.as_str());
        let mut entries: Vec<(String, V)> = Vec::new();
        std::mem::swap(&mut entries, &mut self.entries);
        let ghost es = entries@;
        let mut i: usize = 0;
        let mut stop = false;
        while i < entries.len() && !stop
            invariant
                i <= entries.len(),
                entries@ == es,
                k@ == kv,
                forall|j: int| 0 <= j < i ==> seq_lt(#[trigger] entry_keys(es)[j], kv),
                stop ==> i < entries.len() && !seq_lt(entry_keys(es)[i as int], kv),
            decreases entries.len() - i, if stop { 0int } else { 1int },
        {
            let ek = chars_of(entries[i].0.as_str());
            assert(ek@ == entry_keys(es)[i as int]);
            if lt_chars(&ek, &k) {
                i += 1;
            } else {
                stop = true;
            }
        }
        let mut same = false;
        if i < entries.len() {
            let ek = chars_of(entries[i].0.as_str());
            same = eq_chars(&ek, &k);
            assert(ek@ == entry_keys(es)[i as int]);
        }
        if same {
            proof {
                lemma_entry_replace(es, i as int, key, gv);
            }
            entries.set(i, (key, value));
            assert(entries@ == es.update(i as int, (key, gv)));
        } else {
            proof {
                if i < entries.len() {
                    lemma_seq_lt_total(entry_keys(es)[i as int], kv);
                }
                lemma_entry_insert(es, i as int, key, gv);
            }
            entries.insert(i, (key, value));
            assert(entries@ == es.insert(i as int, (key, gv)));
        }
        self.entries = entries;
        proof {
            use_type_invariant(&*self);
            self.lemma_wf();
            lemma_sorted_names_of(self.key_seq(), self@.dom());
        }
    }
}

impl<V> View for NameMap<V> {
    type V = Map<Seq<char>, V>;

    open spec fn view(&self) -> Map<Seq<char>, V> {
        self.map_view()
    }
}

} // verus!

//! Small maps keyed by strings, kept as entry lists with distinct keys and
//! specified by the `Map` they denote.
use vstd::prelude::*;

use crate::text::str_eq;

verus! {

// ---------------------------------------------------------------------------
// Keyed maps
// ---------------------------------------------------------------------------

/// A map from string keys to values, kept as a list of entries with distinct
/// keys (in insertion order).
#[derive(Debug)]
pub struct KeyedMap<V> {
    entries: Vec<(String, V)>,
}

/// The map that a list of entries with distinct selectors denotes.
pub open spec fn entries_map<V>(s: Seq<(String, V)>) -> Map<Seq<char>, V>
    decreases s.len(),
{
    if s.len() == 0 {
        Map::empty()
    } else {
        entries_map(s.drop_last()).insert(s.last().0@, s.last().1)
    }
}

/// No selector occurs twice.
pub open spec fn distinct_keys<V>(s: Seq<(String, V)>) -> bool {
    forall|i: int, j: int| 0 <= i < j < s.len() ==> (#[trigger] s[i]).0@ != (#[trigger] s[j]).0@
}

pub proof fn lemma_entries_map_absent<V>(s: Seq<(String, V)>, k: Seq<char>)
    requires
        forall|i: int| 0 <= i < s.len() ==> (#[trigger] s[i]).0@ != k,
    ensures
        !entries_map(s).dom().contains(k),
    decreases s.len(),
{
    if s.len() > 0 {
        lemma_entries_map_absent(s.drop_last(), k);
    }
}

pub proof fn lemma_entries_map_at<V>(s: Seq<(String, V)>, i: int)
    requires
        distinct_keys(s),
        0 <= i < s.len(),
    ensures
        entries_map(s).dom().contains(s[i].0@),
        entries_map(s)[s[i].0@] == s[i].1,
    decreases s.len(),
{
    if i < s.len() - 1 {
        assert(s.drop_last()[i] == s[i]);
        lemma_entries_map_at(s.drop_last(), i);
        assert(s[i].0@ != s[s.len() - 1].0@);
    }
}

pub proof fn lemma_entries_map_finite_len<V>(s: Seq<(String, V)>)
    requires
        distinct_keys(s),
    ensures
        entries_map(s).dom().finite(),
        entries_map(s).dom().len() == s.len(),
    decreases s.len(),
{
    if s.len() > 0 {
        let p = s.drop_last();
        assert(distinct_keys(p)) by {
            assert forall|i: int, j: int| 0 <= i < j < p.len() implies (#[trigger] p[i]).0@ != (
            #[trigger] p[j]).0@ by {
                assert(p[i] == s[i] && p[j] == s[j]);
            }
        }
        lemma_entries_map_finite_len(p);
        assert forall|i: int| 0 <= i < p.len() implies (#[trigger] p[i]).0@ != s.last().0@ by {
            assert(p[i] == s[i]);
        }
        lemma_entries_map_absent(p, s.last().0@);
    }
}

pub proof fn lemma_entries_map_update<V>(s: Seq<(String, V)>, i: int, v: V)
    requires
        distinct_keys(s),
        0 <= i < s.len(),
    ensures
        entries_map(s.update(i, (s[i].0, v))) == entries_map(s).insert(s[i].0@, v),
    decreases s.len(),
{
    let t = s.update(i, (s[i].0, v));
    if i == s.len() - 1 {
        assert(t.drop_last() =~= s.drop_last());
        assert(entries_map(t) =~= entries_map(s).insert(s[i].0@, v));
    } else {
        let p = s.drop_last();
        assert(distinct_keys(p)) by {
            assert forall|a: int, b: int| 0 <= a < b < p.len() implies (#[trigger] p[a]).0@ != (
            #[trigger] p[b]).0@ by {
                assert(p[a] == s[a] && p[b] == s[b]);
            }
        }
        assert(p[i] == s[i]);
        lemma_entries_map_update(p, i, v);
        assert(t.drop_last() =~= p.update(i, (s[i].0, v)));
        assert(s[i].0@ != s[s.len() - 1].0@);
        assert(entries_map(t) =~= entries_map(s).insert(s[i].0@, v));
    }
}

impl Clone for KeyedMap<u32> {
    fn clone(&self) -> (r: Self)
        ensures
            r@ == self@,
    {
        proof {
            use_type_invariant(self);
        }
        let mut es: Vec<(String, u32)> = Vec::new();
        let mut i: usize = 0;
        while i < self.entries.len()
            invariant
                i <= self.entries@.len(),
                distinct_keys(self.entries@),
                es@.len() == i,
                forall|k: int| 0 <= k < i ==> (#[trigger] es@[k]).0@ == self.entries@[k].0@ && es@[k].1 == self.entries@[k].1,
            decreases self.entries.len() - i,
        {
            let key = self.entries[i].0.clone();
            es.push((key, self.entries[i].1));
            i = i + 1;
        }
        proof {
            lemma_entries_map_same(es@, self.entries@);
        }
        KeyedMap { entries: es }
    }
}

impl Clone for KeyedMap<String> {
    fn clone(&self) -> (r: Self)
        ensures
            r@ == self@,
    {
        proof {
            use_type_invariant(self);
        }
        let mut es: Vec<(String, String)> = Vec::new();
        let mut i: usize = 0;
        while i < self.entries.len()
            invariant
                i <= self.entries@.len(),
                distinct_keys(self.entries@),
                es@.len() == i,
                forall|k: int| 0 <= k < i ==> (#[trigger] es@[k]).0@ == self.entries@[k].0@ && es@[k].1 == self.entries@[k].1,
            decreases self.entries.len() - i,
        {
            let key = self.entries[i].0.clone();
            es.push((key, self.entries[i].1.clone()));
            i = i + 1;
        }
        proof {
            lemma_entries_map_same(es@, self.entries@);
        }
        KeyedMap { entries: es }
    }
}

proof fn lemma_entries_map_same<V>(a: Seq<(String, V)>, b: Seq<(String, V)>)
    requires
        a.len() == b.len(),
        forall|k: int| 0 <= k < a.len() ==> (#[trigger] a[k]).0@ == b[k].0@ && a[k].1 == b[k].1,
    ensures
        entries_map(a) == entries_map(b),
        distinct_keys(b) ==> distinct_keys(a),
    decreases a.len(),
{
    if a.len() > 0 {
        lemma_entries_map_same(a.drop_last(), b.drop_last());
        assert(a.drop_last().len() == b.drop_last().len());
        assert(a.last().0@ == b.last().0@);
    }
    if distinct_keys(b) {
        assert forall|i: int, j: int| 0 <= i < j < a.len() implies (#[trigger] a[i]).0@ != (#[trigger] a[j]).0@ by {
            assert(b[i].0@ != b[j].0@);
        }
    }
}

impl<V> View for KeyedMap<V> {
    type V = Map<Seq<char>, V>;

    closed spec fn view(&self) -> Map<Seq<char>, V> {
        entries_map(self.entries@)
    }
}

impl<V> KeyedMap<V> {
    #[verifier::type_invariant]
    spec fn keys_distinct(self) -> bool {
        distinct_keys(self.entries@)
    }

    /// The empty map.
    pub fn new() -> (r: Self)
        ensures
            r@ == Map::<Seq<char>, V>::empty(),
    {
        KeyedMap { entries: Vec::new() }
    }

    /// Position of `sel` among the entries, if present.
    fn find(&self, sel: &str) -> (r: Option<usize>)
        ensures
            match r {
                Some(i) => i < self.entries@.len() && self.entries@[i as int].0@ == sel@,
                None => forall|i: int|
                    0 <= i < self.entries@.len() ==> (#[trigger] self.entries@[i]).0@ != sel@,
            },
    {
        let mut i: usize = 0;
        while i < self.entries.len()
            invariant
                i <= self.entries@.len(),
                forall|k: int| 0 <= k < i ==> (#[trigger] self.entries@[k]).0@ != sel@,
            decreases self.entries.len() - i,
        {
            if str_eq(self.entries[i].0.as_str(), sel) {
                return Some(i);
            }
            i = i + 1;
        }
        None
    }

    /// The value recorded for `key`.
    pub fn get(&self, sel: &str) -> (r: Option<&V>)
        ensures
            r == (if self@.dom().contains(sel@) {
                Some(&self@[sel@])
            } else {
                None
            }),
    {
        proof {
            use_type_invariant(self);
        }
        match self.find(sel) {
            Some(i) => {
                proof {
                    lemma_entries_map_at(self.entries@, i as int);
                }
                Some(&self.entries[i].1)
            },
            None => {
                proof {
                    lemma_entries_map_absent(self.entries@, sel@);
                }
                None
            },
        }
    }

    /// Sets the value of `sel` (replacing any previous value).
    pub fn insert(&mut self, sel: String, count: V)
        ensures
            final(self)@ == old(self)@.insert(sel@, count),
    {
        proof {
            use_type_invariant(&*self);
        }
        match self.find(sel.as_str()) {
            Some(i) => {
                proof {
                    lemma_entries_map_update(self.entries@, i as int, count);
                }
                let key = self.entries[i].0.clone();
                let mut es: Vec<(String, V)> = Vec::new();
                std::mem::swap(&mut es, &mut self.entries);
                es.set(i, (key, count));
                self.entries = es;
            },
            None => {
                let ghost before = self.entries@;
                let mut es: Vec<(String, V)> = Vec::new();
                std::mem::swap(&mut es, &mut self.entries);
                es.push((sel, count));
                assert(es@.drop_last() =~= before);
                self.entries = es;
            },
        }
    }

    pub fn is_empty(&self) -> (r: bool)
        ensures
            r == (self@.dom().len() == 0),
            self@.dom().finite(),
    {
        proof {
            use_type_invariant(self);
            lemma_entries_map_finite_len(self.entries@);
        }
        self.entries.len() == 0
    }

    pub fn len(&self) -> (r: usize)
        ensures
            r == self@.dom().len(),
            self@.dom().finite(),
    {
        proof {
            use_type_invariant(self);
            lemma_entries_map_finite_len(self.entries@);
        }
        self.entries.len()
    }

    /// The entries, each key once, in insertion order.
    pub fn entries(&self) -> (r: &[(String, V)])
        ensures
            entries_map(r@) == self@,
            distinct_keys(r@),
    {
        proof {
            use_type_invariant(self);
        }
        self.entries.as_slice()
    }
}

impl KeyedMap<u32> {
    /// Adds one to the count of `sel` (a new selector starts at one).
    pub fn add_one(&mut self, sel: &String)
        requires
            old(self)@.dom().contains(sel@) ==> old(self)@[sel@] < u32::MAX,
        ensures
            final(self)@ == old(self)@.insert(
                sel@,
                if old(self)@.dom().contains(sel@) {
                    (old(self)@[sel@] + 1) as u32
                } else {
                    1u32
                },
            ),
    {
        proof {
            use_type_invariant(&*self);
        }
        match self.find(sel.as_str()) {
            Some(i) => {
                proof {
                    lemma_entries_map_at(self.entries@, i as int);
                    lemma_entries_map_update(self.entries@, i as int, (self.entries@[i as int].1
                        + 1) as u32);
                }
                let key = self.entries[i].0.clone();
                let c = self.entries[i].1;
                let mut es: Vec<(String, u32)> = Vec::new();
                std::mem::swap(&mut es, &mut self.entries);
                es.set(i, (key, c + 1));
                self.entries = es;
            },
            None => {
                proof {
                    lemma_entries_map_absent(self.entries@, sel@);
                }
                let ghost before = self.entries@;
                let mut es: Vec<(String, u32)> = Vec::new();
                std::mem::swap(&mut es, &mut self.entries);
                es.push((sel.clone(), 1));
                assert(es@.drop_last() =~= before);
                self.entries = es;
            },
        }
    }
}

} // verus!

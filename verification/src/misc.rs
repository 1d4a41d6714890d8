//! Additional values of the results, by key.

use vstd::prelude::*;

use crate::number::{is_number, is_number_text};
use crate::text::{chars_of, str_eq};

verus! {

broadcast use vstd::string::group_string_axioms;

/// Whether no key occurs twice in a list of entries.
pub open spec fn distinct_keys(s: Seq<(String, String)>) -> bool {
    forall|i: int, j: int| 0 <= i < j < s.len() ==> (#[trigger] s[i]).0@ != (#[trigger] s[j]).0@
}

/// Whether some entry of the list has the key.
pub open spec fn has_key(s: Seq<(String, String)>, k: Seq<char>) -> bool {
    exists|i: int| 0 <= i < s.len() && (#[trigger] s[i]).0@ == k
}

/// The map that a list of entries holds.
pub open spec fn entries_map(s: Seq<(String, String)>) -> Map<Seq<char>, Seq<char>>
    decreases s.len(),
{
    if s.len() == 0 {
        Map::empty()
    } else {
        entries_map(s.drop_last()).insert(s.last().0@, s.last().1@)
    }
}

/// With distinct keys, the map holds exactly the keys of the entries, each with the value
/// of its entry.
pub proof fn lemma_entries_map(s: Seq<(String, String)>)
    requires
        distinct_keys(s),
    ensures
        forall|k: Seq<char>| #[trigger] entries_map(s).dom().contains(k) <==> has_key(s, k),
        forall|i: int|
            0 <= i < s.len() ==> #[trigger] entries_map(s)[s[i].0@] == s[i].1@,
        entries_map(s).dom().finite(),
    decreases s.len(),
{
    if s.len() > 0 {
        let t = s.drop_last();
        let n = s.len() - 1;
        assert forall|i: int, j: int| 0 <= i < j < t.len() implies (#[trigger] t[i]).0@ != (
        #[trigger] t[j]).0@ by {
            assert(t[i] == s[i] && t[j] == s[j]);
        }
        lemma_entries_map(t);
        assert forall|k: Seq<char>| #[trigger] entries_map(s).dom().contains(k) <==> has_key(s, k) by {
            if has_key(s, k) {
                let i = choose|i: int| 0 <= i < s.len() && (#[trigger] s[i]).0@ == k;
                if i < n {
                    assert(t[i] == s[i]);
                    assert(has_key(t, k));
                }
            }
            if has_key(t, k) {
                let i = choose|i: int| 0 <= i < t.len() && (#[trigger] t[i]).0@ == k;
                assert(s[i] == t[i]);
            }
            if k == s[n].0@ {
                assert(has_key(s, k));
            }
        }
        assert forall|i: int| 0 <= i < s.len() implies #[trigger] entries_map(s)[s[i].0@] == s[i].1@ by {
            if i < n {
                assert(t[i] == s[i]);
                assert(s[i].0@ != s[n].0@);
            }
        }
    }
}

/// The map of the entries after one is replaced by another with the same key.
proof fn lemma_replace(s: Seq<(String, String)>, i: int, e: (String, String))
    requires
        distinct_keys(s),
        0 <= i < s.len(),
        e.0@ == s[i].0@,
    ensures
        distinct_keys(s.update(i, e)),
        entries_map(s.update(i, e)) == entries_map(s).insert(e.0@, e.1@),
{
    let u = s.update(i, e);
    assert forall|a: int, b: int| 0 <= a < b < u.len() implies (#[trigger] u[a]).0@ != (
    #[trigger] u[b]).0@ by {
        assert(s[a].0@ != s[b].0@);
    }
    lemma_entries_map(s);
    lemma_entries_map(u);
    assert forall|k: Seq<char>| has_key(u, k) <==> has_key(s, k) by {
        if has_key(u, k) {
            let j = choose|j: int| 0 <= j < u.len() && (#[trigger] u[j]).0@ == k;
            assert(s[j].0@ == k);
        }
        if has_key(s, k) {
            let j = choose|j: int| 0 <= j < s.len() && (#[trigger] s[j]).0@ == k;
            assert(u[j].0@ == k);
        }
    }
    assert(entries_map(u)[u[i].0@] == u[i].1@);
    assert forall|k: Seq<char>| #[trigger] entries_map(u).dom().contains(k) implies entries_map(
        u,
    )[k] == entries_map(s).insert(e.0@, e.1@)[k] by {
        let j = choose|j: int| 0 <= j < u.len() && (#[trigger] u[j]).0@ == k;
        assert(entries_map(u)[u[j].0@] == u[j].1@);
        if j != i {
            assert(entries_map(s)[s[j].0@] == s[j].1@);
        }
    }
    assert(entries_map(u) =~= entries_map(s).insert(e.0@, e.1@));
}

/// The map of the entries after one is removed.
proof fn lemma_remove(s: Seq<(String, String)>, i: int)
    requires
        distinct_keys(s),
        0 <= i < s.len(),
    ensures
        distinct_keys(s.remove(i)),
        entries_map(s.remove(i)) == entries_map(s).remove(s[i].0@),
{
    let u = s.remove(i);
    assert forall|a: int, b: int| 0 <= a < b < u.len() implies (#[trigger] u[a]).0@ != (
    #[trigger] u[b]).0@ by {
        let a1 = if a < i { a } else { a + 1 };
        let b1 = if b < i { b } else { b + 1 };
        assert(u[a] == s[a1] && u[b] == s[b1]);
        assert(s[a1].0@ != s[b1].0@);
    }
    lemma_entries_map(s);
    lemma_entries_map(u);
    assert forall|k: Seq<char>| has_key(u, k) <==> (has_key(s, k) && k != s[i].0@) by {
        if has_key(u, k) {
            let j = choose|j: int| 0 <= j < u.len() && (#[trigger] u[j]).0@ == k;
            let j1 = if j < i { j } else { j + 1 };
            assert(u[j] == s[j1]);
            assert(s[j1].0@ != s[i].0@);
        }
        if has_key(s, k) && k != s[i].0@ {
            let j = choose|j: int| 0 <= j < s.len() && (#[trigger] s[j]).0@ == k;
            let j0 = if j < i { j } else { j - 1 };
            assert(u[j0] == s[j]);
        }
    }
    assert forall|k: Seq<char>| #[trigger] entries_map(u).dom().contains(k) implies entries_map(
        u,
    )[k] == entries_map(s)[k] by {
        let j = choose|j: int| 0 <= j < u.len() && (#[trigger] u[j]).0@ == k;
        let j1 = if j < i { j } else { j + 1 };
        assert(u[j] == s[j1]);
        assert(entries_map(u)[u[j].0@] == u[j].1@);
        assert(entries_map(s)[s[j1].0@] == s[j1].1@);
    }
    assert(entries_map(u) =~= entries_map(s).remove(s[i].0@));
}

/// Additional values of the results (text), by key.
#[derive(Debug)]
pub struct MiscMap {
    entries: Vec<(String, String)>,
}

impl View for MiscMap {
    type V = Map<Seq<char>, Seq<char>>;

    closed spec fn view(&self) -> Map<Seq<char>, Seq<char>> {
        entries_map(self.entries@)
    }
}

impl MiscMap {
    /// No key occurs twice.
    #[verifier::type_invariant]
    closed spec fn keys_once(self) -> bool {
        distinct_keys(self.entries@)
    }

    /// A map without values.
    pub fn new() -> (r: MiscMap)
        ensures
            r@ == Map::<Seq<char>, Seq<char>>::empty(),
    {
        MiscMap { entries: Vec::new() }
    }

    /// The position of the entry with the key, if any.
    fn position(&self, key: &str) -> (r: Option<usize>)
        ensures
            match r {
                Some(i) => i < self.entries@.len() && self.entries@[i as int].0@ == key@,
                None => !has_key(self.entries@, key@),
            },
    {
        let mut i: usize = 0;
        while i < self.entries.len()
            invariant
                i <= self.entries@.len(),
                forall|j: int| 0 <= j < i ==> (#[trigger] self.entries@[j]).0@ != key@,
            decreases self.entries@.len() - i,
        {
            if str_eq(self.entries[i].0.as_str(), key) {
                return Some(i);
            }
            i = i + 1;
        }
        None
    }

    /// The value of the key, if it has one.
    pub fn get(&self, key: &str) -> (r: Option<String>)
        ensures
            r is Some <==> self@.dom().contains(key@),
            r matches Some(v) ==> v@ == self@[key@],
    {
        proof {
            use_type_invariant(self);
            lemma_entries_map(self.entries@);
        }
        match self.position(key) {
            Some(i) => Some(self.entries[i].1.clone()),
            None => None,
        }
    }

    /// The value of the key when it has one and it writes a number.
    pub fn number_text(&self, key: &str) -> (r: Option<String>)
        ensures
            r is Some <==> (self@.dom().contains(key@) && is_number_text(self@[key@])),
            r matches Some(v) ==> v@ == self@[key@],
    {
        match self.get(key) {
            Some(v) => {
                let c = chars_of(v.as_str());
                if is_number(c.as_slice()) {
                    Some(v)
                } else {
                    None
                }
            },
            None => None,
        }
    }

    /// Sets the value of the key.
    pub fn insert(&mut self, key: &str, value: &str)
        ensures
            final(self)@ == old(self)@.insert(key@, value@),
    {
        proof {
            use_type_invariant(&*self);
        }
        let pos = self.position(key);
        let mut v: Vec<(String, String)> = Vec::new();
        std::mem::swap(&mut v, &mut self.entries);
        let ghost s = v@;
        let entry = (key.to_owned(), value.to_owned());
        match pos {
            Some(i) => {
                v.remove(i);
                v.insert(i, entry);
                proof {
                    assert(v@ =~= s.update(i as int, entry));
                    lemma_replace(s, i as int, entry);
                }
            },
            None => {
                v.push(entry);
                proof {
                    assert(v@.drop_last() =~= s);
                    assert forall|a: int, b: int| 0 <= a < b < v@.len() implies (
                    #[trigger] v@[a]).0@ != (#[trigger] v@[b]).0@ by {
                        if b == s.len() {
                            assert(v@[a] == s[a]);
                        } else {
                            assert(v@[a] == s[a] && v@[b] == s[b]);
                        }
                    }
                }
            },
        }
        self.entries = v;
    }

    /// Removes the key and its value.
    pub fn remove(&mut self, key: &str)
        ensures
            final(self)@ == old(self)@.remove(key@),
    {
        proof {
            use_type_invariant(&*self);
            lemma_entries_map(self.entries@);
        }
        match self.position(key) {
            Some(i) => {
                let mut v: Vec<(String, String)> = Vec::new();
                std::mem::swap(&mut v, &mut self.entries);
                let ghost s = v@;
                v.remove(i);
                proof {
                    lemma_remove(s, i as int);
                }
                self.entries = v;
            },
            None => {
                assert(self@.remove(key@) =~= self@);
            },
        }
    }

    /// The keys and values, each key once.
    pub fn pairs(&self) -> (r: Vec<(String, String)>)
        ensures
            distinct_keys(r@),
            entries_map(r@) == self@,
    {
        proof {
            use_type_invariant(self);
        }
        let mut out: Vec<(String, String)> = Vec::new();
        let mut i: usize = 0;
        while i < self.entries.len()
            invariant
                i <= self.entries@.len(),
                distinct_keys(self.entries@),
                out@.len() == i,
                forall|j: int|
                    0 <= j < i ==> (#[trigger] out@[j]).0@ == self.entries@[j].0@ && out@[j].1@
                        == self.entries@[j].1@,
                entries_map(out@) == entries_map(self.entries@.take(i as int)),
            decreases self.entries@.len() - i,
        {
            let k = self.entries[i].0.clone();
            let v = self.entries[i].1.clone();
            let ghost before = out@;
            out.push((k, v));
            proof {
                assert(out@.drop_last() =~= before);
                assert(self.entries@.take(i + 1).drop_last() =~= self.entries@.take(i as int));
            }
            i = i + 1;
        }
        proof {
            assert(self.entries@.take(i as int) =~= self.entries@);
            assert forall|a: int, b: int| 0 <= a < b < out@.len() implies (#[trigger] out@[a]).0@
                != (#[trigger] out@[b]).0@ by {
                assert(self.entries@[a].0@ != self.entries@[b].0@);
            }
        }
        out
    }
}

impl Clone for MiscMap {
    /// A map with the same values.
    fn clone(&self) -> (r: MiscMap)
        ensures
            r@ == self@,
    {
        MiscMap { entries: self.pairs() }
    }
}

} // verus!

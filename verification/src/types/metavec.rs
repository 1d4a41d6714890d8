//! Lists of metadata: lookup by key and update.

use vstd::prelude::*;

use crate::text::chars_of;
use crate::text::chars_eq;
use crate::types::Meta;

verus! {

/// The (key, value) texts of a list of metadata.
pub open spec fn metas_view(m: Seq<Meta>) -> Seq<(Seq<char>, Seq<char>)> {
    m.map_values(|x: Meta| (x.key@, x.value@))
}

/// The position of the first entry with key `k`, if any.
pub open spec fn key_index(p: Seq<(Seq<char>, Seq<char>)>, k: Seq<char>) -> Option<int>
    decreases p.len(),
{
    if p.len() == 0 {
        None
    } else if p[0].0 == k {
        Some(0)
    } else {
        match key_index(p.drop_first(), k) {
            Some(i) => Some(i + 1),
            None => None,
        }
    }
}

/// The value of the first entry with key `k`, if any.
pub open spec fn meta_lookup(p: Seq<(Seq<char>, Seq<char>)>, k: Seq<char>) -> Option<Seq<char>> {
    match key_index(p, k) {
        Some(i) => Some(p[i].1),
        None => None,
    }
}

/// The entries after setting key `k` to `v`: the first entry with that key takes the value,
/// or a new entry is added at the end.
pub open spec fn meta_set(p: Seq<(Seq<char>, Seq<char>)>, k: Seq<char>, v: Seq<char>) -> Seq<
    (Seq<char>, Seq<char>),
> {
    match key_index(p, k) {
        Some(i) => p.update(i, (k, v)),
        None => p.push((k, v)),
    }
}

/// `key_index` is the first position that holds the key.
pub proof fn lemma_key_index(p: Seq<(Seq<char>, Seq<char>)>, k: Seq<char>)
    ensures
        match key_index(p, k) {
            Some(i) => 0 <= i < p.len() && p[i].0 == k && forall|j: int|
                0 <= j < i ==> p[j].0 != k,
            None => forall|j: int| 0 <= j < p.len() ==> p[j].0 != k,
        },
    decreases p.len(),
{
    if p.len() > 0 && p[0].0 != k {
        lemma_key_index(p.drop_first(), k);
        match key_index(p.drop_first(), k) {
            Some(i) => {
                assert forall|j: int| 0 <= j < i + 1 implies p[j].0 != k by {
                    if j > 0 {
                        assert(p[j] == p.drop_first()[j - 1]);
                    }
                }
            },
            None => {
                assert forall|j: int| 0 <= j < p.len() implies p[j].0 != k by {
                    if j > 0 {
                        assert(p[j] == p.drop_first()[j - 1]);
                    }
                }
            },
        }
    }
}

/// A position is `key_index` when it holds the key and no earlier one does.
proof fn lemma_key_index_first(p: Seq<(Seq<char>, Seq<char>)>, k: Seq<char>, i: int)
    requires
        0 <= i <= p.len(),
        forall|j: int| 0 <= j < i ==> p[j].0 != k,
        i < p.len() ==> p[i].0 == k,
    ensures
        key_index(p, k) == (if i < p.len() {
            Some(i)
        } else {
            None::<int>
        }),
{
    lemma_key_index(p, k);
    match key_index(p, k) {
        Some(x) => {
            if x < i {
                assert(p[x].0 != k);
            }
            if x > i {
                assert(p[i].0 != k);
            }
        },
        None => {
            if i < p.len() {
                assert(p[i].0 != k);
            }
        },
    }
}

/// The position of the first metadata with the given key (the length of the list if none).
fn find_key(m: &Vec<Meta>, key: &str) -> (i: usize)
    ensures
        i <= m@.len(),
        key_index(metas_view(m@), key@) == (if i < m@.len() {
            Some(i as int)
        } else {
            None::<int>
        }),
{
    let k = chars_of(key);
    let mut i: usize = 0;
    while i < m.len()
        invariant
            i <= m@.len(),
            k@ == key@,
            forall|j: int| 0 <= j < i ==> metas_view(m@)[j].0 != key@,
        decreases m@.len() - i,
    {
        let mk = chars_of(m[i].key.as_str());
        if chars_eq(&mk, &k) {
            proof {
                lemma_key_index_first(metas_view(m@), key@, i as int);
            }
            return i;
        }
        i = i + 1;
    }
    proof {
        lemma_key_index_first(metas_view(m@), key@, i as int);
    }
    i
}

/// Check if key is included in metadata
pub fn has_meta(m: &Vec<Meta>, key: &str) -> (r: bool)
    ensures
        r == (meta_lookup(metas_view(m@), key@) is Some),
{
    find_key(m, key) < m.len()
}

/// Get (optional) metadata value by key
pub fn get_meta(m: &Vec<Meta>, key: &str) -> (r: Option<String>)
    ensures
        match meta_lookup(metas_view(m@), key@) {
            Some(v) => r matches Some(s) && s@ == v,
            None => r is None,
        },
{
    let i = find_key(m, key);
    if i < m.len() {
        Some(m[i].value.clone())
    } else {
        None
    }
}

/// Check if key has the given value
pub fn has_meta_value(m: &Vec<Meta>, key: &str, value: &str) -> (r: bool)
    ensures
        r == (meta_lookup(metas_view(m@), key@) == Some(value@)),
{
    let i = find_key(m, key);
    if i < m.len() {
        let a = chars_of(m[i].value.as_str());
        let b = chars_of(value);
        chars_eq(&a, &b)
    } else {
        false
    }
}

/// Update metadata value for key or insert new metadata.
pub fn set_meta(m: &mut Vec<Meta>, key: &str, value: &str)
    ensures
        metas_view(final(m)@) == meta_set(metas_view(old(m)@), key@, value@),
{
    let i = find_key(m, key);
    let ghost p = metas_view(old(m)@);
    if i < m.len() {
        m.set(i, Meta::new(key, value));
        proof {
            assert(metas_view(m@) =~= p.update(i as int, (key@, value@)));
        }
    } else {
        m.push(Meta::new(key, value));
        proof {
            assert(metas_view(m@) =~= p.push((key@, value@)));
        }
    }
}

/// A copy of a list of metadata.
pub fn copy_metas(m: &Vec<Meta>) -> (r: Vec<Meta>)
    ensures
        metas_view(r@) == metas_view(m@),
{
    let mut r: Vec<Meta> = Vec::new();
    let mut k: usize = 0;
    while k < m.len()
        invariant
            k <= m@.len(),
            metas_view(r@) == metas_view(m@).take(k as int),
        decreases m@.len() - k,
    {
        let x = Meta::new(m[k].key.as_str(), m[k].value.as_str());
        let ghost before = r@;
        r.push(x);
        assert(metas_view(r@) =~= metas_view(before).push((x.key@, x.value@)));
        assert(metas_view(m@).take(k as int + 1) =~= metas_view(m@).take(k as int).push(
            (m@[k as int].key@, m@[k as int].value@),
        ));
        k = k + 1;
    }
    assert(metas_view(m@).take(k as int) =~= metas_view(m@));
    r
}

/// After setting a key, looking it up gives the value that was set.
pub proof fn lemma_set_then_lookup(p: Seq<(Seq<char>, Seq<char>)>, k: Seq<char>, v: Seq<char>)
    ensures
        meta_lookup(meta_set(p, k, v), k) == Some(v),
{
    lemma_key_index(p, k);
    let q = meta_set(p, k, v);
    match key_index(p, k) {
        Some(i) => {
            lemma_key_index_first(q, k, i);
        },
        None => {
            lemma_key_index_first(q, k, p.len() as int);
        },
    }
}

/// Setting a key leaves the value of every other key as it was.
pub proof fn lemma_set_keeps_others(
    p: Seq<(Seq<char>, Seq<char>)>,
    k: Seq<char>,
    v: Seq<char>,
    k2: Seq<char>,
)
    requires
        k2 != k,
    ensures
        meta_lookup(meta_set(p, k, v), k2) == meta_lookup(p, k2),
{
    lemma_key_index(p, k2);
    lemma_key_index(p, k);
    let q = meta_set(p, k, v);
    match key_index(p, k2) {
        Some(i) => {
            lemma_key_index_first(q, k2, i);
        },
        None => {
            lemma_key_index_first(q, k2, q.len() as int);
        },
    }
}

/// Setting a key twice to the same value is the same as setting it once; a set adds at
/// most one entry.
pub proof fn lemma_set_idempotent(p: Seq<(Seq<char>, Seq<char>)>, k: Seq<char>, v: Seq<char>)
    ensures
        meta_set(meta_set(p, k, v), k, v) == meta_set(p, k, v),
        meta_set(p, k, v).len() == p.len() || meta_set(p, k, v).len() == p.len() + 1,
        meta_set(p, k, v).len() == p.len() <==> meta_lookup(p, k) is Some,
{
    lemma_key_index(p, k);
    let q = meta_set(p, k, v);
    match key_index(p, k) {
        Some(i) => {
            lemma_key_index_first(q, k, i);
            assert(q.update(i, (k, v)) =~= q);
        },
        None => {
            lemma_key_index_first(q, k, p.len() as int);
            assert(q.update(p.len() as int, (k, v)) =~= q);
        },
    }
}

/// Lists that hold metadata.
pub trait MetaVec {
    /// The metadata of this list.
    spec fn meta_seq(&self) -> Seq<Meta>;

    /// Get vector of metadata
    fn get_metavec(&self) -> (r: &Vec<Meta>)
        ensures
            r@ == self.meta_seq(),
    ;

    /// Update metadata value for key or insert new metadata.
    fn set_meta(&mut self, key: &str, value: &str)
        ensures
            metas_view(final(self).meta_seq()) == meta_set(
                metas_view(old(self).meta_seq()),
                key@,
                value@,
            ),
    ;

    /// Check if key is included in metadata
    fn has_meta(&self, key: &str) -> (r: bool)
        ensures
            r == (meta_lookup(metas_view(self.meta_seq()), key@) is Some),
    {
        has_meta(self.get_metavec(), key)
    }

    /// Check if key has the given value
    fn has_meta_value(&self, key: &str, value: &str) -> (r: bool)
        ensures
            r == (meta_lookup(metas_view(self.meta_seq()), key@) == Some(value@)),
    {
        has_meta_value(self.get_metavec(), key, value)
    }

    /// Get (optional) metadata value by key
    fn get_meta(&self, key: &str) -> (r: Option<String>)
        ensures
            match meta_lookup(metas_view(self.meta_seq()), key@) {
                Some(v) => r matches Some(s) && s@ == v,
                None => r is None,
            },
    {
        get_meta(self.get_metavec(), key)
    }
}

} // verus!

//! First-match lookup over key sequences, shared by every table of the
//! library: a table is a vector of records, its key sequence the view of the
//! record keys in order, and a lookup finds the first record whose key
//! matches.

use vstd::prelude::*;

verus! {

/// Index of the first entry whose key equals `key`, or `-1` if none does.
pub open spec fn seq_find(keys: Seq<Seq<char>>, key: Seq<char>) -> int
    decreases keys.len(),
{
    if keys.len() == 0 {
        -1
    } else if keys[0] == key {
        0
    } else if seq_find(keys.drop_first(), key) < 0 {
        -1
    } else {
        seq_find(keys.drop_first(), key) + 1
    }
}

/// What a non-negative / negative result of `seq_find` means.
pub proof fn lemma_seq_find_props(keys: Seq<Seq<char>>, key: Seq<char>)
    ensures
        seq_find(keys, key) >= 0 ==> {
            &&& seq_find(keys, key) < keys.len()
            &&& keys[seq_find(keys, key)] == key
            &&& forall|j: int| 0 <= j < seq_find(keys, key) ==> keys[j] != key
        },
        seq_find(keys, key) < 0 ==> seq_find(keys, key) == -1 && (forall|j: int|
            0 <= j < keys.len() ==> keys[j] != key),
    decreases keys.len(),
{
    if keys.len() > 0 && keys[0] != key {
        lemma_seq_find_props(keys.drop_first(), key);
        assert(forall|j: int| 1 <= j < keys.len() ==> keys[j] == keys.drop_first()[j - 1]);
    }
}

/// `seq_find` returns exactly the first matching index.
pub proof fn lemma_seq_find_at(keys: Seq<Seq<char>>, key: Seq<char>, i: int)
    requires
        0 <= i < keys.len(),
        keys[i] == key,
        forall|j: int| 0 <= j < i ==> keys[j] != key,
    ensures
        seq_find(keys, key) == i,
    decreases keys.len(),
{
    if i > 0 {
        assert(forall|j: int| 1 <= j < keys.len() ==> keys[j] == keys.drop_first()[j - 1]);
        lemma_seq_find_at(keys.drop_first(), key, i - 1);
    }
}

/// When no entry matches, `seq_find` reports absence.
pub proof fn lemma_seq_find_none(keys: Seq<Seq<char>>, key: Seq<char>)
    requires
        forall|j: int| 0 <= j < keys.len() ==> keys[j] != key,
    ensures
        seq_find(keys, key) == -1,
    decreases keys.len(),
{
    if keys.len() > 0 {
        assert(forall|j: int| 1 <= j < keys.len() ==> keys[j] == keys.drop_first()[j - 1]);
        lemma_seq_find_none(keys.drop_first(), key);
    }
}

/// The views of a list of names, in order.
pub open spec fn string_keys(s: Seq<String>) -> Seq<Seq<char>> {
    s.map(|i: int, x: String| x@)
}

/// First index of `name` in a list of names.
pub fn find_string(names: &Vec<String>, name: &String) -> (r: Option<usize>)
    ensures
        match r {
            Some(i) => seq_find(string_keys(names@), name@) == i as int && i < names@.len(),
            None => seq_find(string_keys(names@), name@) == -1,
        },
{
    let n = names.len();
    let mut i: usize = 0;
    while i < n
        invariant
            n == names@.len(),
            i <= n,
            forall|j: int| 0 <= j < i ==> string_keys(names@)[j] != name@,
        decreases n - i,
    {
        if names[i] == *name {
            proof {
                lemma_seq_find_at(string_keys(names@), name@, i as int);
            }
            return Some(i);
        }
        i += 1;
    }
    proof {
        lemma_seq_find_none(string_keys(names@), name@);
    }
    None
}

/// Copy a list of names.
pub fn clone_string_vec(v: &Vec<String>) -> (r: Vec<String>)
    ensures
        r@ == v@,
{
    let n = v.len();
    let mut r: Vec<String> = Vec::new();
    let mut i: usize = 0;
    while i < n
        invariant
            n == v@.len(),
            i <= n,
            r@ == v@.subrange(0, i as int),
        decreases n - i,
    {
        r.push(v[i].clone());
        proof {
            assert(r@ =~= v@.subrange(0, i + 1 as int));
        }
        i += 1;
    }
    proof {
        assert(r@ =~= v@);
    }
    r
}

} // verus!

//! Finding a text key in a sequence of keys.

use vstd::prelude::*;

verus! {

/// The first place of `key` in `keys`, or `None` where it is absent.
pub open spec fn find_key(keys: Seq<Seq<char>>, key: Seq<char>) -> Option<int>
    decreases keys.len(),
{
    if keys.len() == 0 {
        None
    } else {
        match find_key(keys.drop_last(), key) {
            Some(i) => Some(i),
            None => if keys.last() == key {
                Some(keys.len() - 1)
            } else {
                None
            },
        }
    }
}

/// Whether no key occurs twice.
pub open spec fn distinct_keys(keys: Seq<Seq<char>>) -> bool {
    forall|i: int, j: int| 0 <= i < j < keys.len() ==> #[trigger] keys[i] != #[trigger] keys[j]
}

/// What `find_key` returns: the place of the first occurrence, or `None`
/// where there is no occurrence.
pub proof fn lemma_find_key(keys: Seq<Seq<char>>, key: Seq<char>)
    ensures
        match find_key(keys, key) {
            Some(i) => {
                &&& 0 <= i < keys.len()
                &&& keys[i] == key
                &&& forall|j: int| 0 <= j < i ==> #[trigger] keys[j] != key
            },
            None => forall|j: int| 0 <= j < keys.len() ==> #[trigger] keys[j] != key,
        },
    decreases keys.len(),
{
    if keys.len() > 0 {
        let front = keys.drop_last();
        lemma_find_key(front, key);
        match find_key(front, key) {
            Some(i) => {
                assert(keys[i] == front[i]);
                assert forall|j: int| 0 <= j < i implies #[trigger] keys[j] != key by {
                    assert(keys[j] == front[j]);
                }
            },
            None => {
                assert forall|j: int| 0 <= j < keys.len() - 1 implies #[trigger] keys[j] != key by {
                    assert(keys[j] == front[j]);
                }
            },
        }
    }
}

/// A place that holds `key` with no occurrence before it is what
/// `find_key` returns.
pub proof fn lemma_find_key_at(keys: Seq<Seq<char>>, key: Seq<char>, i: int)
    requires
        0 <= i < keys.len(),
        keys[i] == key,
        forall|j: int| 0 <= j < i ==> #[trigger] keys[j] != key,
    ensures
        find_key(keys, key) == Some(i),
{
    lemma_find_key(keys, key);
}

/// Where no place holds `key`, `find_key` returns `None`.
pub proof fn lemma_find_key_absent(keys: Seq<Seq<char>>, key: Seq<char>)
    requires
        forall|j: int| 0 <= j < keys.len() ==> #[trigger] keys[j] != key,
    ensures
        find_key(keys, key) is None,
{
    lemma_find_key(keys, key);
    if find_key(keys, key) is Some {
        let i = find_key(keys, key).unwrap();
        assert(keys[i] == key);
    }
}

/// Where a key is found once another key is appended.
pub proof fn lemma_find_key_push(keys: Seq<Seq<char>>, added: Seq<char>, key: Seq<char>)
    ensures
        find_key(keys.push(added), key) == match find_key(keys, key) {
            Some(i) => Some(i),
            None => if added == key {
                Some(keys.len() as int)
            } else {
                None
            },
        },
{
    assert(keys.push(added).drop_last() =~= keys);
}

} // verus!

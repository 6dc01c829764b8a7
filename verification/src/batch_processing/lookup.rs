//! Finding a key in a sequence of keys, and what insertion and removal do to
//! a sequence without repetitions.

use vstd::prelude::*;

verus! {

/// Index of the first entry of `keys` at or after `from` that equals `key`, or
/// the length of `keys` if there is none.
pub open spec fn position_from(keys: Seq<Seq<char>>, key: Seq<char>, from: int) -> int
    decreases keys.len() - from,
{
    if from < 0 || from >= keys.len() {
        keys.len() as int
    } else if keys[from] == key {
        from
    } else {
        position_from(keys, key, from + 1)
    }
}

/// Index of the first entry of `keys` that equals `key`, or the length of
/// `keys` if there is none.
pub open spec fn position(keys: Seq<Seq<char>>, key: Seq<char>) -> int {
    position_from(keys, key, 0)
}

/// What `position_from` finds: nothing before the result matches, and the
/// result matches unless it is the length.
pub proof fn lemma_position_from(keys: Seq<Seq<char>>, key: Seq<char>, from: int)
    requires
        0 <= from <= keys.len(),
    ensures
        from <= position_from(keys, key, from) <= keys.len(),
        position_from(keys, key, from) < keys.len() ==> keys[position_from(keys, key, from)] == key,
        forall|j: int| from <= j < position_from(keys, key, from) ==> #[trigger] keys[j] != key,
    decreases keys.len() - from,
{
    if from < keys.len() && keys[from] != key {
        lemma_position_from(keys, key, from + 1);
    }
}

/// What `position` finds.
pub proof fn lemma_position(keys: Seq<Seq<char>>, key: Seq<char>)
    ensures
        0 <= position(keys, key) <= keys.len(),
        position(keys, key) < keys.len() ==> keys[position(keys, key)] == key,
        forall|j: int| 0 <= j < position(keys, key) ==> #[trigger] keys[j] != key,
        position(keys, key) < keys.len() <==> keys.contains(key),
{
    lemma_position_from(keys, key, 0);
    if keys.contains(key) {
        let j = choose|j: int| 0 <= j < keys.len() && keys[j] == key;
        assert(keys[j] == key);
    }
}

/// In a sequence without repetitions, an entry sits at its position.
pub proof fn lemma_position_unique(keys: Seq<Seq<char>>, i: int)
    requires
        keys.no_duplicates(),
        0 <= i < keys.len(),
    ensures
        position(keys, keys[i]) == i,
{
    lemma_position(keys, keys[i]);
}

/// `position` is the only index with the properties that `lemma_position`
/// states.
pub proof fn lemma_position_is(keys: Seq<Seq<char>>, key: Seq<char>, r: int)
    requires
        0 <= r <= keys.len(),
        r < keys.len() ==> keys[r] == key,
        forall|j: int| 0 <= j < r ==> #[trigger] keys[j] != key,
    ensures
        position(keys, key) == r,
{
    lemma_position(keys, key);
    let p = position(keys, key);
    if p < r {
        assert(keys[p] != key);
    }
}

/// Where a key is found after another key was appended.
pub proof fn lemma_position_push(keys: Seq<Seq<char>>, added: Seq<char>, key: Seq<char>)
    ensures
        position(keys.push(added), key) == if position(keys, key) < keys.len() {
            position(keys, key)
        } else if added == key {
            keys.len() as int
        } else {
            keys.len() as int + 1
        },
{
    lemma_position(keys, key);
    let p = position(keys, key);
    let longer = keys.push(added);
    if p < keys.len() {
        assert(longer[p] == key);
        assert forall|j: int| 0 <= j < p implies #[trigger] longer[j] != key by {
            assert(keys[j] != key);
        }
        lemma_position_is(longer, key, p);
    } else {
        assert forall|j: int| 0 <= j < keys.len() implies #[trigger] longer[j] != key by {
            assert(keys[j] != key);
        }
        if added == key {
            lemma_position_is(longer, key, keys.len() as int);
        } else {
            lemma_position_is(longer, key, keys.len() as int + 1);
        }
    }
}

/// A sequence without repetitions stays so when a new entry is inserted.
pub proof fn lemma_insert_no_duplicates(keys: Seq<Seq<char>>, at: int, key: Seq<char>)
    requires
        keys.no_duplicates(),
        !keys.contains(key),
        0 <= at <= keys.len(),
    ensures
        keys.insert(at, key).no_duplicates(),
        keys.insert(at, key).len() == keys.len() + 1,
        forall|k: int|
            0 <= k < keys.len() + 1 ==> #[trigger] keys.insert(at, key)[k] == if k < at {
                keys[k]
            } else if k == at {
                key
            } else {
                keys[k - 1]
            },
{
    keys.insert_ensures(at, key);
    let longer = keys.insert(at, key);
    assert forall|k: int| 0 <= k < keys.len() + 1 implies #[trigger] longer[k] == if k < at {
        keys[k]
    } else if k == at {
        key
    } else {
        keys[k - 1]
    } by {}
    assert forall|a: int, b: int| 0 <= a < longer.len() && 0 <= b < longer.len() && a != b
        implies longer[a] != longer[b] by {
        let x = if a < at {
            a
        } else {
            a - 1
        };
        let y = if b < at {
            b
        } else {
            b - 1
        };
        if a != at && b != at {
            assert(keys[x] != keys[y]);
        } else if a == at {
            assert(keys.contains(keys[y]));
        } else {
            assert(keys.contains(keys[x]));
        }
    }
}

/// What a sequence without repetitions holds once the entry at `at` is
/// taken out: every other entry, and that entry no more.
pub proof fn lemma_remove_keys(keys: Seq<Seq<char>>, at: int)
    requires
        keys.no_duplicates(),
        0 <= at < keys.len(),
    ensures
        keys.remove(at).no_duplicates(),
        keys.remove(at).len() == keys.len() - 1,
        !keys.remove(at).contains(keys[at]),
        forall|key: Seq<char>|
            key != keys[at] ==> (#[trigger] keys.remove(at).contains(key) <==> keys.contains(key)),
        forall|k: int|
            0 <= k < keys.len() - 1 ==> #[trigger] keys.remove(at)[k] == if k < at {
                keys[k]
            } else {
                keys[k + 1]
            },
{
    keys.remove_ensures(at);
    let shorter = keys.remove(at);
    assert forall|a: int, b: int| 0 <= a < shorter.len() && 0 <= b < shorter.len() && a != b
        implies shorter[a] != shorter[b] by {
        let x = if a < at {
            a
        } else {
            a + 1
        };
        let y = if b < at {
            b
        } else {
            b + 1
        };
        assert(keys[x] != keys[y]);
    }
    if shorter.contains(keys[at]) {
        let a = choose|a: int| 0 <= a < shorter.len() && shorter[a] == keys[at];
        let x = if a < at {
            a
        } else {
            a + 1
        };
        assert(keys[x] != keys[at]);
    }
    assert forall|key: Seq<char>| key != keys[at] implies (#[trigger] shorter.contains(key)
        <==> keys.contains(key)) by {
        if shorter.contains(key) {
            let a = choose|a: int| 0 <= a < shorter.len() && shorter[a] == key;
            let x = if a < at {
                a
            } else {
                a + 1
            };
            assert(keys[x] == key);
        }
        if keys.contains(key) {
            let x = choose|x: int| 0 <= x < keys.len() && keys[x] == key;
            let a = if x < at {
                x
            } else {
                x - 1
            };
            assert(shorter[a] == key);
        }
    }
}

/// A sequence without repetitions stays so when a new entry is appended.
pub proof fn lemma_push_no_duplicates(keys: Seq<Seq<char>>, key: Seq<char>)
    requires
        keys.no_duplicates(),
        !keys.contains(key),
    ensures
        keys.push(key).no_duplicates(),
{
    assert forall|a: int, b: int| 0 <= a < keys.len() + 1 && 0 <= b < keys.len() + 1 && a != b
        implies keys.push(key)[a] != keys.push(key)[b] by {
        if a < keys.len() && b < keys.len() {
            assert(keys[a] != keys[b]);
        } else if a < keys.len() {
            assert(keys.contains(keys[a]));
        } else {
            assert(keys.contains(keys[b]));
        }
    }
}

} // verus!

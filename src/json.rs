//! A dynamically typed JSON value held as plain data, with the lookups that
//! the decoders need.

use vstd::prelude::*;

verus! {

/// A JSON value. Numbers keep their decimal text; objects keep their
/// entries in wire order.
#[derive(Debug, PartialEq)]
pub enum JsonValue {
    Null,
    Bool(bool),
    Number(String),
    Str(String),
    Array(Vec<JsonValue>),
    Object(Vec<(String, JsonValue)>),
}

/// `i` is the first position of `entries` whose key is `key`.
pub open spec fn first_key_at(entries: Seq<(String, JsonValue)>, key: Seq<char>, i: int) -> bool {
    &&& 0 <= i < entries.len()
    &&& entries[i].0@ == key
    &&& forall|j: int| 0 <= j < i ==> #[trigger] entries[j].0@ != key
}

/// The value stored under `key`: the first entry with that key wins.
pub open spec fn entry_value(entries: Seq<(String, JsonValue)>, key: Seq<char>) -> Option<JsonValue> {
    if exists|i: int| first_key_at(entries, key, i) {
        Some(entries[choose|i: int| first_key_at(entries, key, i)].1)
    } else {
        None
    }
}

/// `v.get(key)`: the member of an object, `None` for a missing key or a
/// value that is not an object.
pub open spec fn member(v: JsonValue, key: Seq<char>) -> Option<JsonValue> {
    match v {
        JsonValue::Object(entries) => entry_value(entries@, key),
        _ => None,
    }
}

/// `v[key]`: like `member`, with `Null` for what is not there.
pub open spec fn member_or_null(v: JsonValue, key: Seq<char>) -> JsonValue {
    match member(v, key) {
        Some(m) => m,
        None => JsonValue::Null,
    }
}

pub proof fn lemma_first_key_unique(entries: Seq<(String, JsonValue)>, key: Seq<char>, i: int, j: int)
    requires
        first_key_at(entries, key, i),
        first_key_at(entries, key, j),
    ensures
        i == j,
{
    if i < j {
        assert(entries[i].0@ != key);
    } else if j < i {
        assert(entries[j].0@ != key);
    }
}

/// Equality of two texts, by their characters.
pub fn text_eq(a: &str, b: &str) -> (r: bool)
    ensures
        r == (a@ == b@),
{
    let x: String = a.to_owned();
    let y: String = b.to_owned();
    x == y
}

/// The first position of `entries` whose key is `key`, if any.
pub fn find_key(entries: &Vec<(String, JsonValue)>, key: &str) -> (r: Option<usize>)
    ensures
        match r {
            Some(i) => first_key_at(entries@, key@, i as int),
            None => forall|j: int| 0 <= j < entries@.len() ==> #[trigger] entries@[j].0@ != key@,
        },
{
    let mut i: usize = 0;
    while i < entries.len()
        invariant
            i <= entries@.len(),
            forall|j: int| 0 <= j < i ==> #[trigger] entries@[j].0@ != key@,
        decreases entries@.len() - i,
    {
        if text_eq(entries[i].0.as_str(), key) {
            return Some(i);
        }
        i = i + 1;
    }
    None
}

/// Moves the value stored under `key` out of `entries`, leaving `Null` in
/// its place; every key, and every other key's value, stays as it was.
pub fn take_entry(entries: &mut Vec<(String, JsonValue)>, key: &str) -> (r: Option<JsonValue>)
    ensures
        r == entry_value(old(entries)@, key@),
        final(entries)@.len() == old(entries)@.len(),
        forall|j: int| 0 <= j < old(entries)@.len() ==> (#[trigger] final(entries)@[j]).0 == old(entries)@[j].0,
        forall|k: Seq<char>| k != key@ ==> entry_value(final(entries)@, k) == entry_value(old(entries)@, k),
{
    match find_key(entries, key) {
        None => {
            proof {
                assert(!exists|i: int| first_key_at(old(entries)@, key@, i));
            }
            None
        },
        Some(i) => {
            let ghost before = entries@;
            let (k, v) = entries.remove(i);
            entries.insert(i, (k, JsonValue::Null));
            proof {
                let after = entries@;
                assert(after =~= before.update(i as int, (before[i as int].0, JsonValue::Null)));
                assert forall|j: int| 0 <= j < after.len() implies #[trigger] after[j].0 == before[j].0 by {}
                let c = choose|c: int| first_key_at(before, key@, c);
                lemma_first_key_unique(before, key@, c, i as int);
                assert forall|k2: Seq<char>| k2 != key@ implies entry_value(after, k2) == entry_value(before, k2) by {
                    if exists|c2: int| first_key_at(before, k2, c2) {
                        let c2 = choose|c2: int| first_key_at(before, k2, c2);
                        assert(first_key_at(after, k2, c2));
                        let c3 = choose|c3: int| first_key_at(after, k2, c3);
                        lemma_first_key_unique(after, k2, c2, c3);
                    } else {
                        if exists|c3: int| first_key_at(after, k2, c3) {
                            let c3 = choose|c3: int| first_key_at(after, k2, c3);
                            assert forall|j: int| 0 <= j < c3 implies #[trigger] before[j].0@ != k2 by {
                                assert(after[j].0 == before[j].0);
                            }
                            assert(first_key_at(before, k2, c3));
                        }
                    }
                }
            }
            Some(v)
        },
    }
}

/// `v.get(key)` on a borrowed value.
pub fn member_ref<'a>(v: &'a JsonValue, key: &str) -> (r: Option<&'a JsonValue>)
    ensures
        match r {
            Some(m) => member(*v, key@) == Some(*m),
            None => member(*v, key@) is None,
        },
{
    match v {
        JsonValue::Object(entries) => match find_key(entries, key) {
            Some(i) => {
                proof {
                    let c = choose|c: int| first_key_at(entries@, key@, c);
                    lemma_first_key_unique(entries@, key@, c, i as int);
                }
                Some(&entries[i].1)
            },
            None => {
                proof {
                    assert(!exists|c: int| first_key_at(entries@, key@, c));
                }
                None
            },
        },
        _ => None,
    }
}

/// The elements of `v` in reverse order, so that popping them off the end
/// hands them out in the order they had.
pub fn reversed<T>(v: Vec<T>) -> (r: Vec<T>)
    ensures
        r@.len() == v@.len(),
        forall|j: int| 0 <= j < v@.len() ==> #[trigger] r@[j] == v@[v@.len() - 1 - j],
{
    let ghost orig = v@;
    let mut v = v;
    let mut r: Vec<T> = Vec::new();
    while v.len() > 0
        invariant
            r@.len() + v@.len() == orig.len(),
            v@ == orig.subrange(0, v@.len() as int),
            forall|j: int| 0 <= j < r@.len() ==> #[trigger] r@[j] == orig[orig.len() - 1 - j],
        decreases v@.len(),
    {
        let x = v.pop().unwrap();
        r.push(x);
    }
    r
}

/// `v.get(key)` on an owned value: moves the member out.
pub fn into_member(v: JsonValue, key: &str) -> (r: Option<JsonValue>)
    ensures
        r == member(v, key@),
{
    match v {
        JsonValue::Object(entries) => {
            let mut entries = entries;
            take_entry(&mut entries, key)
        },
        _ => None,
    }
}

} // verus!

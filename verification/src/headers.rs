use vstd::prelude::*;

verus! {

/// A header: its key and its value.
pub type Header = (Seq<char>, Seq<char>);

/// The least position at or after `from` whose header has the key `key`, or
/// the number of headers where there is none.
pub open spec fn key_index(headers: Seq<Header>, key: Seq<char>, from: int) -> int
    decreases headers.len() - from,
{
    if from >= headers.len() {
        headers.len() as int
    } else if headers[from].0 == key {
        from
    } else {
        key_index(headers, key, from + 1)
    }
}

/// What `key_index` returns lies between `from` and the end, has the key
/// unless it is the end, and no header before it has it.
pub proof fn lemma_key_index(headers: Seq<Header>, key: Seq<char>, from: int)
    requires
        0 <= from <= headers.len(),
    ensures
        from <= key_index(headers, key, from) <= headers.len(),
        key_index(headers, key, from) < headers.len() ==> headers[key_index(
            headers,
            key,
            from,
        )].0 == key,
        forall|j: int| from <= j < key_index(headers, key, from) ==> headers[j].0 != key,
    decreases headers.len() - from,
{
    if from < headers.len() && headers[from].0 != key {
        lemma_key_index(headers, key, from + 1);
    }
}

/// A position that has the key with none before it is what `key_index`
/// returns.
pub proof fn lemma_key_index_is(headers: Seq<Header>, key: Seq<char>, from: int, at: int)
    requires
        0 <= from <= at <= headers.len(),
        at < headers.len() ==> headers[at].0 == key,
        forall|j: int| from <= j < at ==> headers[j].0 != key,
    ensures
        key_index(headers, key, from) == at,
    decreases at - from,
{
    if from < at {
        lemma_key_index_is(headers, key, from + 1, at);
    }
}

/// No key occurs twice.
pub open spec fn distinct_keys(headers: Seq<Header>) -> bool {
    forall|i: int, j: int| 0 <= i < j < headers.len() ==> headers[i].0 != headers[j].0
}

/// The value that the headers give to `key`.
pub open spec fn lookup(headers: Seq<Header>, key: Seq<char>) -> Option<Seq<char>> {
    let at = key_index(headers, key, 0);
    if at < headers.len() {
        Some(headers[at].1)
    } else {
        None
    }
}

/// The headers after `key` was given the value `value`: a key that is there
/// keeps its place and gets the new value, a new key goes to the end.
pub open spec fn put(headers: Seq<Header>, key: Seq<char>, value: Seq<char>) -> Seq<Header> {
    let at = key_index(headers, key, 0);
    if at < headers.len() {
        headers.update(at, (key, value))
    } else {
        headers.push((key, value))
    }
}

/// Giving a key a value keeps the keys distinct, and the key then has that
/// value while every other key has the value it had.
pub proof fn lemma_put(headers: Seq<Header>, key: Seq<char>, value: Seq<char>)
    requires
        distinct_keys(headers),
    ensures
        distinct_keys(put(headers, key, value)),
        lookup(put(headers, key, value), key) == Some(value),
        forall|other: Seq<char>|
            other != key ==> lookup(put(headers, key, value), other) == lookup(headers, other),
{
    let after = put(headers, key, value);
    let at = key_index(headers, key, 0);
    lemma_key_index(headers, key, 0);
    lemma_key_index_is(after, key, 0, at);
    assert forall|other: Seq<char>| other != key implies lookup(after, other) == lookup(
        headers,
        other,
    ) by {
        lemma_key_index(headers, other, 0);
        let a = key_index(headers, other, 0);
        if a < headers.len() {
            lemma_key_index_is(after, other, 0, a);
        } else {
            lemma_key_index_is(after, other, 0, after.len() as int);
        }
    }
}

/// Whether every key has the same value, or none, among `a` as among `b`.
pub open spec fn same_headers(a: Seq<Header>, b: Seq<Header>) -> bool {
    forall|key: Seq<char>| lookup(a, key) == lookup(b, key)
}

/// Whether every key of `a` has the same value among `b` as among `a`.
pub open spec fn agrees(a: Seq<Header>, b: Seq<Header>) -> bool {
    forall|i: int| 0 <= i < a.len() ==> lookup(b, (#[trigger] a[i]).0) == lookup(a, a[i].0)
}

/// Headers that agree with each other both ways give every key the same value.
pub proof fn lemma_agrees(a: Seq<Header>, b: Seq<Header>)
    ensures
        same_headers(a, b) <==> agrees(a, b) && agrees(b, a),
{
    if agrees(a, b) && agrees(b, a) {
        assert forall|key: Seq<char>| lookup(a, key) == lookup(b, key) by {
            lemma_key_index(a, key, 0);
            lemma_key_index(b, key, 0);
            let i = key_index(a, key, 0);
            let j = key_index(b, key, 0);
            if i < a.len() {
                assert(lookup(b, a[i].0) == lookup(a, a[i].0));
            } else if j < b.len() {
                assert(lookup(a, b[j].0) == lookup(b, b[j].0));
            }
        }
    }
}

} // verus!

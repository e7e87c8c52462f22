//! Laws of the value store, stated over the functions that its contracts use.
use crate::eval::{
    array_element, assign_parents, canonical_clear, canonical_copy, canonical_copy_element, canonical_get,
    canonical_parts, canonical_push, canonical_set, clears, empty_key, entries_get, entries_put,
    lemma_entries_put_get, namespace_of, path_key, path_namespace, path_segments, store_assign, store_lookup,
    stored_fields, Namespace, StoreKey, StoreModel, ValueModel,
};
use crate::text::{join_dots, lemma_join_take_grows, lower_all};
use vstd::prelude::*;

verus! {

/// The namespace of a canonical path that names one.
pub open spec fn canonical_namespace(canonical: Seq<char>) -> Namespace {
    match canonical_parts(canonical) {
        Some((namespace, _)) => namespace,
        None => Namespace::Variable,
    }
}

/// The segments of a canonical path behind its namespace.
pub open spec fn canonical_segments(canonical: Seq<char>) -> Seq<Seq<char>> {
    match canonical_parts(canonical) {
        Some((_, segments)) => segments,
        None => Seq::empty(),
    }
}

/// The key of the first `depth` segments.
pub open spec fn key_at(namespace: Namespace, segments: Seq<Seq<char>>, depth: int) -> StoreKey {
    (namespace, join_dots(segments.take(depth)))
}

/// Prefixes of different lengths have different keys.
pub proof fn lemma_keys_differ(namespace: Namespace, segments: Seq<Seq<char>>, a: int, b: int)
    requires
        1 <= a <= segments.len(),
        1 <= b <= segments.len(),
        a != b,
    ensures
        key_at(namespace, segments, a) != key_at(namespace, segments, b),
{
    if a < b {
        lemma_join_take_grows(segments, a, b);
    } else {
        lemma_join_take_grows(segments, b, a);
    }
}

/// Rebuilding the ancestors up to `depth` leaves every key that is none
/// of these ancestors as it was.
pub proof fn lemma_assign_parents_keeps(
    store: StoreModel,
    namespace: Namespace,
    segments: Seq<Seq<char>>,
    current: ValueModel,
    depth: nat,
    other: StoreKey,
)
    requires
        depth < segments.len(),
        forall|d: int| 1 <= d <= depth ==> other != #[trigger] key_at(namespace, segments, d),
    ensures
        assign_parents(store, namespace, segments, current, depth).contains_key(other)
            == store.contains_key(other),
        assign_parents(store, namespace, segments, current, depth)[other] == store[other],
    decreases depth,
{
    if depth > 0 {
        let key = key_at(namespace, segments, depth as int);
        let merged = ValueModel::Struct(entries_put(stored_fields(store, key), segments[depth as int], current));
        lemma_assign_parents_keeps(
            store.insert(key, merged),
            namespace,
            segments,
            merged,
            (depth - 1) as nat,
            other,
        );
    }
}

/// Rebuilding the ancestors up to `depth` makes the ancestor of `d`
/// segments a struct whose field for the next segment is what the store
/// holds one level below.
pub proof fn lemma_assign_parents_shape(
    store: StoreModel,
    namespace: Namespace,
    segments: Seq<Seq<char>>,
    current: ValueModel,
    depth: nat,
    d: int,
)
    requires
        depth < segments.len(),
        1 <= d <= depth,
        store.contains_key(key_at(namespace, segments, (depth + 1) as int)),
        store[key_at(namespace, segments, (depth + 1) as int)] == current,
    ensures
        ({
            let result = assign_parents(store, namespace, segments, current, depth);
            &&& result.contains_key(key_at(namespace, segments, d))
            &&& result.contains_key(key_at(namespace, segments, d + 1))
            &&& result[key_at(namespace, segments, d)] is Struct
            &&& entries_get(result[key_at(namespace, segments, d)]->Struct_0, segments[d]) == Some(
                result[key_at(namespace, segments, d + 1)],
            )
        }),
    decreases depth,
{
    let key = key_at(namespace, segments, depth as int);
    let below = key_at(namespace, segments, (depth + 1) as int);
    let merged = ValueModel::Struct(entries_put(stored_fields(store, key), segments[depth as int], current));
    let next = store.insert(key, merged);
    if d == depth {
        assert forall|e: int| 1 <= e <= depth - 1 implies key != #[trigger] key_at(namespace, segments, e) by {
            lemma_keys_differ(namespace, segments, depth as int, e);
        }
        assert forall|e: int| 1 <= e <= depth - 1 implies below != #[trigger] key_at(namespace, segments, e) by {
            lemma_keys_differ(namespace, segments, (depth + 1) as int, e);
        }
        lemma_keys_differ(namespace, segments, depth as int, (depth + 1) as int);
        lemma_assign_parents_keeps(next, namespace, segments, merged, (depth - 1) as nat, key);
        lemma_assign_parents_keeps(next, namespace, segments, merged, (depth - 1) as nat, below);
        lemma_entries_put_get(stored_fields(store, key), segments[depth as int], current);
    } else {
        lemma_assign_parents_shape(next, namespace, segments, merged, (depth - 1) as nat, d);
    }
}

/// Nested assignment. After a value is assigned to a path, the path
/// resolves to that value, and each of its ancestors resolves to a struct
/// whose field for the next segment is what the next longer prefix
/// resolves to.
pub proof fn law_nested_assignment(
    store: StoreModel,
    namespace: Namespace,
    segments: Seq<Seq<char>>,
    value: ValueModel,
    depth: int,
)
    requires
        1 <= depth <= segments.len(),
    ensures
        ({
            let result = store_assign(store, namespace, segments, value);
            &&& store_lookup(result, namespace, segments) == Some(value)
            &&& depth < segments.len() ==> {
                &&& store_lookup(result, namespace, segments.take(depth)) is Some
                &&& store_lookup(result, namespace, segments.take(depth))->0 is Struct
                &&& entries_get(
                    store_lookup(result, namespace, segments.take(depth))->0->Struct_0,
                    segments[depth],
                ) == store_lookup(result, namespace, segments.take(depth + 1))
            }
        }),
{
    let len = segments.len() as int;
    let top = key_at(namespace, segments, len);
    let first = store.insert((namespace, join_dots(segments)), value);
    let result = store_assign(store, namespace, segments, value);
    assert(segments.take(len) =~= segments);
    assert forall|d: int| 1 <= d <= len - 1 implies top != #[trigger] key_at(namespace, segments, d) by {
        lemma_keys_differ(namespace, segments, len, d);
    }
    lemma_assign_parents_keeps(first, namespace, segments, value, (len - 1) as nat, top);
    if depth < len {
        lemma_assign_parents_shape(first, namespace, segments, value, (len - 1) as nat, depth);
        assert(segments.take(depth).take(depth) =~= segments.take(depth));
        assert(segments.take(depth + 1).take(depth + 1) =~= segments.take(depth + 1));
        assert(join_dots(segments.take(depth)) == key_at(namespace, segments, depth).1);
        assert(join_dots(segments.take(depth + 1)) == key_at(namespace, segments, depth + 1).1);
    }
}

/// Round trip by canonical path. A value assigned under a canonical path,
/// outside `query` and with a key that is not empty, is the value read
/// back under the same path.
pub proof fn law_canonical_round_trip(store: StoreModel, canonical: Seq<char>, value: ValueModel)
    requires
        canonical_parts(canonical) is Some,
        canonical_namespace(canonical) != Namespace::Query,
        !empty_key(canonical_segments(canonical)),
    ensures
        canonical_get(canonical_set(store, canonical, value), canonical) == Some(value),
{
    let lowered = lower_all(canonical_segments(canonical));
    assert(lowered.len() > 0) by {
        if lowered.len() == 0 {
            assert(join_dots(lowered).len() == 0);
        }
    }
    law_nested_assignment(store, canonical_namespace(canonical), lowered, value, 1);
}

/// Round trip under another spelling. A value assigned under one canonical
/// path is read back under every path that differs from it only in letter
/// case or in the alias of its namespace.
pub proof fn law_round_trip_any_case(
    store: StoreModel,
    written: Seq<char>,
    read: Seq<char>,
    value: ValueModel,
)
    requires
        canonical_parts(written) is Some,
        canonical_parts(read) is Some,
        canonical_namespace(written) == canonical_namespace(read),
        lower_all(canonical_segments(written)) == lower_all(canonical_segments(read)),
        canonical_namespace(written) != Namespace::Query,
        !empty_key(canonical_segments(written)),
    ensures
        canonical_get(canonical_set(store, written, value), read) == Some(value),
{
    law_canonical_round_trip(store, written, value);
    law_alias_same_store(canonical_set(store, written, value), written, read, value);
}

/// Two spellings of one name. Paths that differ only in letter case or in
/// the alias of their namespace have the same canonical name.
pub proof fn law_alias_same_name(a: Seq<Seq<char>>, b: Seq<Seq<char>>)
    requires
        a.len() >= 1,
        b.len() == a.len(),
        namespace_of(a[0]) is Some,
        namespace_of(a[0]) == namespace_of(b[0]),
        lower_all(a.skip(1)) == lower_all(b.skip(1)),
    ensures
        path_namespace(a) == path_namespace(b),
        path_key(a) == path_key(b),
{
    assert(path_segments(a) == a.skip(1));
    assert(path_segments(b) == b.skip(1));
    assert(a.skip(1).len() == b.skip(1).len());
}

/// Two spellings of one path. Canonical paths that differ only in letter
/// case or in the alias of their namespace read, assign and clear alike.
pub proof fn law_alias_same_store(store: StoreModel, a: Seq<char>, b: Seq<char>, value: ValueModel)
    requires
        canonical_parts(a) is Some,
        canonical_parts(b) is Some,
        canonical_namespace(a) == canonical_namespace(b),
        lower_all(canonical_segments(a)) == lower_all(canonical_segments(b)),
    ensures
        canonical_get(store, a) == canonical_get(store, b),
        canonical_set(store, a, value) == canonical_set(store, b, value),
        canonical_clear(store, a) == canonical_clear(store, b),
{
    assert(lower_all(canonical_segments(a)).len() == canonical_segments(a).len());
    assert(lower_all(canonical_segments(b)).len() == canonical_segments(b).len());
}

/// Rebuilding ancestors touches no other namespace.
pub proof fn lemma_assign_parents_namespace(
    store: StoreModel,
    namespace: Namespace,
    segments: Seq<Seq<char>>,
    current: ValueModel,
    depth: nat,
    other: StoreKey,
)
    requires
        other.0 != namespace,
    ensures
        assign_parents(store, namespace, segments, current, depth).contains_key(other)
            == store.contains_key(other),
        assign_parents(store, namespace, segments, current, depth)[other] == store[other],
    decreases depth,
{
    if !(depth == 0 || depth >= segments.len()) {
        let key = (namespace, join_dots(segments.take(depth as int)));
        let merged = ValueModel::Struct(entries_put(stored_fields(store, key), segments[depth as int], current));
        lemma_assign_parents_namespace(
            store.insert(key, merged),
            namespace,
            segments,
            merged,
            (depth - 1) as nat,
            other,
        );
    }
}

/// Query immutability. No assignment and no array push by canonical path
/// changes what the store holds in the `query` namespace.
pub proof fn law_query_unchanged(store: StoreModel, canonical: Seq<char>, value: ValueModel, key: Seq<char>)
    ensures
        canonical_set(store, canonical, value).contains_key((Namespace::Query, key)) == store.contains_key(
            (Namespace::Query, key),
        ),
        canonical_set(store, canonical, value)[(Namespace::Query, key)] == store[(Namespace::Query, key)],
        canonical_push(store, canonical, value).contains_key((Namespace::Query, key)) == store.contains_key(
            (Namespace::Query, key),
        ),
        canonical_push(store, canonical, value)[(Namespace::Query, key)] == store[(Namespace::Query, key)],
{
    lemma_set_keeps_query(store, canonical, value, key);
    let pushed = ValueModel::Array(crate::eval::array_items(canonical_get(store, canonical)).push(value));
    lemma_set_keeps_query(store, canonical, pushed, key);
}

/// Whether a key of the `query` namespace holds after a change what it
/// held before.
pub open spec fn query_entry_kept(before: StoreModel, after: StoreModel, key: Seq<char>) -> bool {
    &&& after.contains_key((Namespace::Query, key)) == before.contains_key((Namespace::Query, key))
    &&& before.contains_key((Namespace::Query, key)) ==> after[(Namespace::Query, key)] == before[(
        Namespace::Query,
        key,
    )]
}

/// Query immutability of clearing and copying. Clearing a path outside
/// `query` leaves the `query` namespace as it was. So does a copy, of a
/// value or of an array element, whose destination lies outside `query` or
/// whose source holds something to copy.
pub proof fn law_query_kept_by_copy(
    store: StoreModel,
    dest: Seq<char>,
    src: Seq<char>,
    index: int,
    key: Seq<char>,
)
    ensures
        canonical_namespace(dest) != Namespace::Query ==> query_entry_kept(
            store,
            canonical_clear(store, dest),
            key,
        ),
        canonical_namespace(dest) != Namespace::Query || canonical_get(store, src) is Some
            ==> query_entry_kept(store, canonical_copy(store, dest, src), key),
        canonical_namespace(dest) != Namespace::Query || array_element(canonical_get(store, src), index) is Some
            ==> query_entry_kept(store, canonical_copy_element(store, src, index, dest), key),
{
    match canonical_get(store, src) {
        Some(value) => lemma_set_keeps_query(store, dest, value, key),
        None => {},
    }
    match array_element(canonical_get(store, src), index) {
        Some(value) => lemma_set_keeps_query(store, dest, value, key),
        None => {},
    }
    match canonical_parts(dest) {
        Some((namespace, segments)) => {
            if namespace != Namespace::Query {
                let gone = Set::new(
                    |k: StoreKey| k.0 == namespace && clears(join_dots(lower_all(segments)), k.1),
                );
                assert(!gone.contains((Namespace::Query, key)));
                assert(canonical_clear(store, dest) == store.remove_keys(gone));
            }
        },
        None => {},
    }
}

proof fn lemma_set_keeps_query(store: StoreModel, canonical: Seq<char>, value: ValueModel, key: Seq<char>)
    ensures
        canonical_set(store, canonical, value).contains_key((Namespace::Query, key)) == store.contains_key(
            (Namespace::Query, key),
        ),
        canonical_set(store, canonical, value)[(Namespace::Query, key)] == store[(Namespace::Query, key)],
{
    match canonical_parts(canonical) {
        Some((namespace, segments)) => {
            if !(namespace == Namespace::Query || empty_key(segments)) {
                let lowered = lower_all(segments);
                lemma_assign_parents_namespace(
                    store.insert((namespace, join_dots(lowered)), value),
                    namespace,
                    lowered,
                    value,
                    (lowered.len() - 1) as nat,
                    (Namespace::Query, key),
                );
            }
        },
        None => {},
    }
}

} // verus!

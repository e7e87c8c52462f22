//! The runtime value store: namespaced, dotted, case-folded paths and the
//! values kept under them.
use crate::number::{
    equal_numbers, index_from_number, index_of_number, number_from_length, number_of_nat, number_truthy,
    numbers_equal, truthy_number,
};
use crate::text::{
    has_prefix, is_prefix_of, join_dots, join_first, join_texts, lower_all, lower_seq, lower_text,
    lower_texts, push_char, same_text, split_dots, split_text, texts,
};
use indexmap::IndexMap;
use vstd::prelude::*;

verus! {

/// Namespace qualifiers of a path (`temp`, `variable`, `context`, `query`).
#[derive(Debug, Clone, Copy, PartialEq, Eq, Hash, Structural)]
pub enum Namespace {
    Temp,
    Variable,
    Context,
    Query,
}

/// The namespace that a first path segment names, in any letter case, by its
/// full name or its short alias.
pub open spec fn namespace_of(segment: Seq<char>) -> Option<Namespace> {
    let s = lower_seq(segment);
    if s == "temp"@ || s == "t"@ {
        Some(Namespace::Temp)
    } else if s == "variable"@ || s == "var"@ || s == "v"@ {
        Some(Namespace::Variable)
    } else if s == "context"@ || s == "c"@ {
        Some(Namespace::Context)
    } else if s == "query"@ || s == "q"@ {
        Some(Namespace::Query)
    } else {
        None
    }
}

/// The full name of a namespace.
pub open spec fn namespace_prefix(namespace: Namespace) -> Seq<char> {
    match namespace {
        Namespace::Temp => "temp"@,
        Namespace::Variable => "variable"@,
        Namespace::Context => "context"@,
        Namespace::Query => "query"@,
    }
}

/// The first segment of a path, or the empty text where the path has none.
pub open spec fn first_segment(parts: Seq<Seq<char>>) -> Seq<char> {
    if parts.len() == 0 {
        Seq::<char>::empty()
    } else {
        parts[0]
    }
}

/// The namespace of a path: that of its first segment, else `variable`.
pub open spec fn path_namespace(parts: Seq<Seq<char>>) -> Namespace {
    match namespace_of(first_segment(parts)) {
        Some(namespace) => namespace,
        None => Namespace::Variable,
    }
}

/// The segments of a path behind its namespace. A path whose first segment
/// names no namespace keeps all its segments; an empty path has one empty
/// segment.
pub open spec fn path_segments(parts: Seq<Seq<char>>) -> Seq<Seq<char>> {
    if namespace_of(first_segment(parts)) is Some {
        if parts.len() == 0 {
            parts
        } else {
            parts.skip(1)
        }
    } else if parts.len() == 0 {
        seq![Seq::<char>::empty()]
    } else {
        parts
    }
}

/// The key of a path: its segments lower-cased and joined by dots, or `_`
/// where the path is a bare namespace.
pub open spec fn path_key(parts: Seq<Seq<char>>) -> Seq<char> {
    let segments = path_segments(parts);
    if segments.len() == 0 {
        "_"@
    } else {
        join_dots(lower_all(segments))
    }
}

/// The canonical rendering of a name: its namespace, a dot, its key.
pub open spec fn canonical_text(name: (Namespace, Seq<char>)) -> Seq<char> {
    namespace_prefix(name.0) + seq!['.'] + name.1
}

/// Namespace and segments of a canonical path, or `None` where the text
/// before the first dot names no namespace.
pub open spec fn canonical_parts(canonical: Seq<char>) -> Option<(Namespace, Seq<Seq<char>>)> {
    let parts = split_dots(canonical);
    match namespace_of(parts[0]) {
        Some(namespace) => Some((namespace, parts.skip(1))),
        None => None,
    }
}

impl Namespace {
    pub fn split_parts(parts: &[String]) -> (r: (Namespace, Vec<String>))
        ensures
            r.0 == path_namespace(texts(parts@)),
            texts(r.1@) == path_segments(texts(parts@)),
    {
        let mut rest: Vec<String> = Vec::new();
        if parts.len() == 0 {
            proof {
                reveal_strlit("");
                assert(texts(parts@) =~= Seq::<Seq<char>>::empty());
                assert(""@ =~= Seq::<char>::empty());
            }
            return match Namespace::from_prefix("") {
                Some(namespace) => {
                    assert(texts(rest@) =~= texts(parts@));
                    (namespace, rest)
                },
                None => {
                    rest.push(String::new());
                    assert(texts(rest@) =~= seq![Seq::<char>::empty()]);
                    (Namespace::Variable, rest)
                },
            };
        }
        let found = Namespace::from_prefix(parts[0].as_str());
        let start: usize = if found.is_some() {
            1
        } else {
            0
        };
        assert(texts(rest@) =~= texts(parts@).subrange(start as int, start as int));
        let mut i: usize = start;
        while i < parts.len()
            invariant
                start <= i <= parts.len(),
                texts(rest@) == texts(parts@).subrange(start as int, i as int),
            decreases parts.len() - i,
        {
            let ghost before = rest@;
            rest.push(parts[i].clone());
            assert(texts(rest@) =~= texts(before).push(parts@[i as int]@));
            assert(texts(parts@).subrange(start as int, i + 1) =~= texts(parts@).subrange(
                start as int,
                i as int,
            ).push(parts@[i as int]@));
            i += 1;
        }
        proof {
            assert(texts(parts@).subrange(0, parts.len() as int) =~= texts(parts@));
            assert(texts(parts@).subrange(1, parts.len() as int) =~= texts(parts@).skip(1));
        }
        match found {
            Some(namespace) => (namespace, rest),
            None => (Namespace::Variable, rest),
        }
    }

    pub fn from_prefix(segment: &str) -> (r: Option<Namespace>)
        ensures
            r == namespace_of(segment@),
    {
        let lowered = lower_text(segment);
        let s = lowered.as_str();
        if same_text(s, "temp") || same_text(s, "t") {
            Some(Namespace::Temp)
        } else if same_text(s, "variable") || same_text(s, "var") || same_text(s, "v") {
            Some(Namespace::Variable)
        } else if same_text(s, "context") || same_text(s, "c") {
            Some(Namespace::Context)
        } else if same_text(s, "query") || same_text(s, "q") {
            Some(Namespace::Query)
        } else {
            None
        }
    }

    pub fn prefix(&self) -> (r: &'static str)
        ensures
            r@ == namespace_prefix(*self),
    {
        match self {
            Namespace::Temp => "temp",
            Namespace::Variable => "variable",
            Namespace::Context => "context",
            Namespace::Query => "query",
        }
    }
}

/// The segments of a key: its pieces between dots, none for the empty key.
pub open spec fn key_segments(key: Seq<char>) -> Seq<Seq<char>> {
    if key.len() == 0 {
        Seq::<Seq<char>>::empty()
    } else {
        split_dots(key)
    }
}

/// Canonicalized path (namespace + lowercased dotted key).
#[derive(Debug, PartialEq, Eq, Hash)]
pub struct QualifiedName {
    namespace: Namespace,
    key: String,
}

impl View for QualifiedName {
    type V = (Namespace, Seq<char>);

    closed spec fn view(&self) -> (Namespace, Seq<char>) {
        (self.namespace, self.key@)
    }
}

impl Clone for QualifiedName {
    fn clone(&self) -> (r: Self)
        ensures
            r@ == self@,
    {
        QualifiedName { namespace: self.namespace, key: self.key.clone() }
    }
}

impl QualifiedName {
    pub fn new(namespace: Namespace, key: String) -> (r: Self)
        ensures
            r@ == (namespace, key@),
    {
        QualifiedName { namespace, key }
    }

    pub fn from_parts(parts: &[String]) -> (r: Self)
        ensures
            r@ == (path_namespace(texts(parts@)), path_key(texts(parts@))),
    {
        let (namespace, remaining) = Namespace::split_parts(parts);
        let key = if remaining.len() == 0 {
            "_".to_owned()
        } else {
            let lowered = lower_texts(remaining.as_slice());
            join_texts(lowered.as_slice())
        };
        QualifiedName { namespace, key }
    }

    pub fn namespace(&self) -> (r: &Namespace)
        ensures
            *r == self@.0,
    {
        &self.namespace
    }

    pub fn key(&self) -> (r: &str)
        ensures
            r@ == self@.1,
    {
        self.key.as_str()
    }

    pub fn segments(&self) -> (r: Vec<String>)
        ensures
            texts(r@) == key_segments(self@.1),
    {
        if self.key.as_str().unicode_len() == 0 {
            let r: Vec<String> = Vec::new();
            assert(texts(r@) =~= Seq::<Seq<char>>::empty());
            r
        } else {
            split_text(self.key.as_str())
        }
    }

    pub fn to_path(&self) -> (r: Vec<String>)
        ensures
            texts(r@) == seq![namespace_prefix(self@.0)] + key_segments(self@.1),
    {
        let mut parts: Vec<String> = Vec::new();
        parts.push(self.namespace.prefix().to_owned());
        let mut rest = self.segments();
        let ghost head = parts@;
        let ghost tail = rest@;
        parts.append(&mut rest);
        assert(texts(parts@) =~= texts(head) + texts(tail));
        assert(texts(head) =~= seq![namespace_prefix(self@.0)]);
        parts
    }

    /// The canonical rendering `<namespace>.<key>`.
    pub fn canonical(&self) -> (r: String)
        ensures
            r@ == canonical_text(self@),
    {
        let mut out = self.namespace.prefix().to_owned();
        push_char(&mut out, '.');
        out.append(self.key.as_str());
        out
    }

    /// Whether two names are the same namespace and key.
    pub fn same_as(&self, other: &QualifiedName) -> (r: bool)
        ensures
            r == (self@ == other@),
    {
        self.namespace == other.namespace && same_text(self.key.as_str(), other.key.as_str())
    }
}

/// What a value is: a number (as its bit pattern), a text, a list of
/// values, an ordered list of named fields, or nothing.
pub enum ValueModel {
    Number(u64),
    Text(Seq<char>),
    Array(Seq<ValueModel>),
    Struct(Seq<(Seq<char>, ValueModel)>),
    Null,
}

/// The named fields of a struct value, in insertion order: an
/// `indexmap::IndexMap` from field name to value. What it holds is
/// `struct_entries`.
#[verifier::external_body]
#[derive(Debug)]
pub struct StructFields {
    inner: IndexMap<String, Value>,
}

/// The fields that a `StructFields` holds, in their order, each with the
/// model of its value.
pub uninterp spec fn struct_entries(fields: StructFields) -> Seq<(Seq<char>, ValueModel)>;

/// Primitive value kept in the store.
#[derive(Debug)]
pub enum Value {
    Number(u64),
    String(String),
    Array(Vec<Value>),
    Struct(StructFields),
    Null,
}

pub open spec fn value_model(value: Value) -> ValueModel
    decreases value, 0nat,
{
    match value {
        Value::Number(bits) => ValueModel::Number(bits),
        Value::String(text) => ValueModel::Text(text@),
        Value::Array(items) => ValueModel::Array(value_models(items, items.len() as nat)),
        Value::Struct(fields) => ValueModel::Struct(struct_entries(fields)),
        Value::Null => ValueModel::Null,
    }
}

/// The models of the first `n` items.
pub open spec fn value_models(items: Vec<Value>, n: nat) -> Seq<ValueModel>
    decreases items, n,
{
    if n == 0 || n > items.len() {
        Seq::empty()
    } else {
        value_models(items, (n - 1) as nat).push(value_model(items[n - 1]))
    }
}

/// The models of a list of values.
pub open spec fn models(items: Seq<Value>) -> Seq<ValueModel> {
    items.map_values(|v: Value| value_model(v))
}

impl View for Value {
    type V = ValueModel;

    open spec fn view(&self) -> ValueModel {
        value_model(*self)
    }
}

pub proof fn lemma_value_models(items: Vec<Value>, n: nat)
    requires
        n <= items.len(),
    ensures
        value_models(items, n) == models(items@.take(n as int)),
    decreases n,
{
    if n > 0 {
        lemma_value_models(items, (n - 1) as nat);
        assert(models(items@.take(n as int)) =~= models(items@.take(n - 1)).push(
            value_model(items[n - 1]),
        ));
    } else {
        assert(models(items@.take(0)) =~= Seq::<ValueModel>::empty());
    }
}

/// An array value is the list of its items' models.
pub proof fn lemma_array_model(items: Vec<Value>)
    ensures
        value_model(Value::Array(items)) == ValueModel::Array(models(items@)),
{
    lemma_value_models(items, items.len() as nat);
    assert(items@.take(items.len() as int) =~= items@);
}

/// The first position of `key` among the entries.
pub open spec fn entries_find(entries: Seq<(Seq<char>, ValueModel)>, key: Seq<char>) -> Option<int>
    decreases entries.len(),
{
    if entries.len() == 0 {
        None
    } else {
        match entries_find(entries.drop_last(), key) {
            Some(i) => Some(i),
            None => if entries.last().0 == key {
                Some(entries.len() - 1)
            } else {
                None
            },
        }
    }
}

/// The value of the field named `key`.
pub open spec fn entries_get(entries: Seq<(Seq<char>, ValueModel)>, key: Seq<char>) -> Option<
    ValueModel,
> {
    match entries_find(entries, key) {
        Some(i) => Some(entries[i].1),
        None => None,
    }
}

/// The entries after the field `key` is set: an existing field keeps its
/// place and takes the new value, a new field comes last.
pub open spec fn entries_put(
    entries: Seq<(Seq<char>, ValueModel)>,
    key: Seq<char>,
    value: ValueModel,
) -> Seq<(Seq<char>, ValueModel)> {
    match entries_find(entries, key) {
        Some(i) => entries.update(i, (key, value)),
        None => entries.push((key, value)),
    }
}

pub open spec fn option_model(value: Option<Value>) -> Option<ValueModel> {
    match value {
        Some(v) => Some(v@),
        None => None,
    }
}

pub open spec fn option_ref_model(value: Option<&Value>) -> Option<ValueModel> {
    match value {
        Some(v) => Some(v@),
        None => None,
    }
}

pub proof fn lemma_entries_find(entries: Seq<(Seq<char>, ValueModel)>, key: Seq<char>)
    ensures
        match entries_find(entries, key) {
            Some(i) => 0 <= i < entries.len() && entries[i].0 == key && forall|j: int|
                0 <= j < i ==> entries[j].0 != key,
            None => forall|j: int| 0 <= j < entries.len() ==> entries[j].0 != key,
        },
    decreases entries.len(),
{
    if entries.len() > 0 {
        let rest = entries.drop_last();
        lemma_entries_find(rest, key);
        assert(forall|j: int| 0 <= j < rest.len() ==> rest[j] == entries[j]);
    }
}

pub proof fn lemma_entries_find_at(entries: Seq<(Seq<char>, ValueModel)>, key: Seq<char>, i: int)
    requires
        0 <= i < entries.len(),
        entries[i].0 == key,
        forall|j: int| 0 <= j < i ==> entries[j].0 != key,
    ensures
        entries_find(entries, key) == Some(i),
{
    lemma_entries_find(entries, key);
}

/// A field that was just set reads back as the value that was set.
pub proof fn lemma_entries_put_get(
    entries: Seq<(Seq<char>, ValueModel)>,
    key: Seq<char>,
    value: ValueModel,
)
    ensures
        entries_get(entries_put(entries, key, value), key) == Some(value),
{
    lemma_entries_find(entries, key);
    match entries_find(entries, key) {
        Some(i) => {
            lemma_entries_find_at(entries.update(i, (key, value)), key, i);
        },
        None => {
            lemma_entries_find_at(entries.push((key, value)), key, entries.len() as int);
        },
    }
}

/// `IndexMap::new`: a map without entries.
#[verifier::external_body]
fn fields_new() -> (r: StructFields)
    ensures
        struct_entries(r) == Seq::<(Seq<char>, ValueModel)>::empty(),
{
    StructFields { inner: IndexMap::new() }
}

/// `IndexMap::len`: the number of entries.
#[verifier::external_body]
fn fields_len(fields: &StructFields) -> (n: usize)
    ensures
        n == struct_entries(*fields).len(),
{
    fields.inner.len()
}

/// `IndexMap::insert`: a key that is present keeps its place and takes the
/// new value, and the value that it had is returned; a new key is put last
/// and `None` is returned.
#[verifier::external_body]
fn fields_insert(fields: &mut StructFields, key: String, value: Value) -> (r: Option<Value>)
    ensures
        struct_entries(*final(fields)) == entries_put(struct_entries(*old(fields)), key@, value@),
        option_model(r) == entries_get(struct_entries(*old(fields)), key@),
{
    fields.inner.insert(key, value)
}

/// `IndexMap::get`: the value stored for the key, if it is present.
#[verifier::external_body]
fn fields_get<'a>(fields: &'a StructFields, key: &str) -> (r: Option<&'a Value>)
    ensures
        option_ref_model(r) == entries_get(struct_entries(*fields), key@),
{
    fields.inner.get(key)
}

/// `IndexMap::clone`: a map with the same entries in the same order.
#[verifier::external_body]
fn fields_clone(fields: &StructFields) -> (r: StructFields)
    ensures
        struct_entries(r) == struct_entries(*fields),
{
    StructFields { inner: fields.inner.clone() }
}

impl Clone for StructFields {
    fn clone(&self) -> (r: Self)
        ensures
            struct_entries(r) == struct_entries(*self),
    {
        fields_clone(self)
    }
}

impl StructFields {
    pub fn new() -> (r: Self)
        ensures
            struct_entries(r) == Seq::<(Seq<char>, ValueModel)>::empty(),
    {
        fields_new()
    }

    pub fn len(&self) -> (n: usize)
        ensures
            n == struct_entries(*self).len(),
    {
        fields_len(self)
    }

    pub fn is_empty(&self) -> (r: bool)
        ensures
            r == (struct_entries(*self).len() == 0),
    {
        fields_len(self) == 0
    }

    /// Sets the field `key`; returns the value that the field had.
    pub fn insert(&mut self, key: String, value: Value) -> (r: Option<Value>)
        ensures
            struct_entries(*final(self)) == entries_put(struct_entries(*old(self)), key@, value@),
            option_model(r) == entries_get(struct_entries(*old(self)), key@),
    {
        fields_insert(self, key, value)
    }

    pub fn get(&self, key: &str) -> (r: Option<&Value>)
        ensures
            option_ref_model(r) == entries_get(struct_entries(*self), key@),
    {
        fields_get(self, key)
    }
}

/// The number that a value counts as: a number itself, an array its
/// length, anything else zero.
pub open spec fn number_of_value(value: ValueModel) -> u64 {
    match value {
        ValueModel::Number(bits) => bits,
        ValueModel::Array(items) => number_of_nat(items.len()) as u64,
        _ => 0,
    }
}

/// Truthiness: a number that is not zero, a text, array or struct that is
/// not empty.
pub open spec fn value_truthy(value: ValueModel) -> bool {
    match value {
        ValueModel::Number(bits) => number_truthy(bits),
        ValueModel::Text(text) => text.len() > 0,
        ValueModel::Array(items) => items.len() > 0,
        ValueModel::Struct(entries) => entries.len() > 0,
        ValueModel::Null => false,
    }
}

impl Clone for Value {
    #[verifier::loop_isolation(false)]
    fn clone(&self) -> (r: Self)
        ensures
            r@ == self@,
        decreases self,
    {
        match self {
            Value::Number(bits) => Value::Number(*bits),
            Value::String(text) => Value::String(text.clone()),
            Value::Array(items) => {
                let mut out: Vec<Value> = Vec::new();
                let mut i: usize = 0;
                while i < items.len()
                    invariant
                        *self == Value::Array(*items),
                        i <= items.len(),
                        models(out@) == models(items@.take(i as int)),
                    decreases items.len() - i,
                {
                    let ghost before = out@;
                    assert(decreases_to!(*items => items[i as int]));
                    let copy = items[i].clone();
                    out.push(copy);
                    assert(models(out@) =~= models(before).push(items@[i as int]@));
                    assert(models(items@.take(i + 1)) =~= models(items@.take(i as int)).push(
                        items@[i as int]@,
                    ));
                    i += 1;
                }
                proof {
                    assert(items@.take(items.len() as int) =~= items@);
                    lemma_array_model(out);
                    lemma_array_model(*items);
                }
                Value::Array(out)
            },
            Value::Struct(fields) => Value::Struct(fields_clone(fields)),
            Value::Null => Value::Null,
        }
    }
}

impl Value {
    /// Wraps a number, given as its bit pattern.
    pub fn number(value: u64) -> (r: Self)
        ensures
            r@ == ValueModel::Number(value),
    {
        Value::Number(value)
    }

    pub fn string(value: &str) -> (r: Self)
        ensures
            r@ == ValueModel::Text(value@),
    {
        Value::String(value.to_owned())
    }

    pub fn array(values: Vec<Value>) -> (r: Self)
        ensures
            r@ == ValueModel::Array(models(values@)),
    {
        proof {
            lemma_array_model(values);
        }
        Value::Array(values)
    }

    pub fn as_number(&self) -> (r: u64)
        ensures
            r == number_of_value(self@),
    {
        match self {
            Value::Number(value) => *value,
            Value::String(_) | Value::Null | Value::Struct(_) => 0,
            Value::Array(values) => {
                proof {
                    lemma_array_model(*values);
                }
                number_from_length(values.len())
            },
        }
    }

    pub fn truthy(&self) -> (r: bool)
        ensures
            r == value_truthy(self@),
    {
        match self {
            Value::Number(value) => truthy_number(*value),
            Value::String(text) => text.as_str().unicode_len() > 0,
            Value::Array(values) => {
                proof {
                    lemma_array_model(*values);
                }
                values.len() > 0
            },
            Value::Struct(map) => !map.is_empty(),
            Value::Null => false,
        }
    }

    pub fn as_array(&self) -> (r: Option<&[Value]>)
        ensures
            match r {
                Some(items) => self@ == ValueModel::Array(models(items@)),
                None => !(self@ is Array),
            },
    {
        match self {
            Value::Array(values) => {
                proof {
                    lemma_array_model(*values);
                }
                Some(values.as_slice())
            },
            _ => None,
        }
    }

    pub fn as_struct(&self) -> (r: Option<&StructFields>)
        ensures
            match r {
                Some(fields) => self@ == ValueModel::Struct(struct_entries(*fields)),
                None => !(self@ is Struct),
            },
    {
        match self {
            Value::Struct(map) => Some(map),
            _ => None,
        }
    }
}

/// The key of the store: a namespace and a dotted key.
pub type StoreKey = (Namespace, Seq<char>);

/// What the store holds: the value kept under each key.
pub type StoreModel = Map<StoreKey, ValueModel>;

/// What is found below a value by following `tail`: a struct gives its
/// field of that name, an array its length under the single name `length`.
pub open spec fn nested_value(value: ValueModel, tail: Seq<Seq<char>>) -> Option<ValueModel>
    decreases tail.len(),
{
    if tail.len() == 0 {
        Some(value)
    } else {
        match value {
            ValueModel::Struct(entries) => match entries_get(entries, tail[0]) {
                Some(child) => nested_value(child, tail.skip(1)),
                None => None,
            },
            ValueModel::Array(items) => if tail.len() == 1 && tail[0] == "length"@ {
                Some(ValueModel::Number(number_of_nat(items.len()) as u64))
            } else {
                None
            },
            _ => None,
        }
    }
}

/// The lookup that walks back from the first `depth` segments: the longest
/// stored prefix whose value leads to the remaining segments decides.
pub open spec fn lookup_prefixes(
    store: StoreModel,
    namespace: Namespace,
    segments: Seq<Seq<char>>,
    depth: nat,
) -> Option<ValueModel>
    decreases depth,
{
    if depth == 0 || depth > segments.len() {
        None
    } else {
        let key = (namespace, join_dots(segments.take(depth as int)));
        let shorter = lookup_prefixes(store, namespace, segments, (depth - 1) as nat);
        if store.contains_key(key) {
            if depth == segments.len() {
                Some(store[key])
            } else {
                match nested_value(store[key], segments.skip(depth as int)) {
                    Some(found) => Some(found),
                    None => shorter,
                }
            }
        } else {
            shorter
        }
    }
}

/// The value found for a path: the one stored under its exact key, else
/// the one reached from its longest stored prefix.
pub open spec fn store_lookup(
    store: StoreModel,
    namespace: Namespace,
    segments: Seq<Seq<char>>,
) -> Option<ValueModel> {
    let key = (namespace, join_dots(segments));
    if store.contains_key(key) {
        Some(store[key])
    } else {
        lookup_prefixes(store, namespace, segments, segments.len())
    }
}

/// The fields of a stored struct, or none where the key holds no struct.
pub open spec fn stored_fields(store: StoreModel, key: StoreKey) -> Seq<(Seq<char>, ValueModel)> {
    if store.contains_key(key) {
        match store[key] {
            ValueModel::Struct(entries) => entries,
            _ => Seq::empty(),
        }
    } else {
        Seq::empty()
    }
}

/// The store after the ancestors of the first `depth + 1` segments are
/// rebuilt, deepest first: each ancestor becomes a struct that holds, under
/// the next segment, what was just stored one level below, merged into the
/// struct that the ancestor held before.
pub open spec fn assign_parents(
    store: StoreModel,
    namespace: Namespace,
    segments: Seq<Seq<char>>,
    current: ValueModel,
    depth: nat,
) -> StoreModel
    decreases depth,
{
    if depth == 0 || depth >= segments.len() {
        store
    } else {
        let key = (namespace, join_dots(segments.take(depth as int)));
        let merged = ValueModel::Struct(
            entries_put(stored_fields(store, key), segments[depth as int], current),
        );
        assign_parents(store.insert(key, merged), namespace, segments, merged, (depth - 1) as nat)
    }
}

/// The store after a value is assigned to a path: the value under the
/// joined segments, and every ancestor rebuilt.
pub open spec fn store_assign(
    store: StoreModel,
    namespace: Namespace,
    segments: Seq<Seq<char>>,
    value: ValueModel,
) -> StoreModel {
    assign_parents(
        store.insert((namespace, join_dots(segments)), value),
        namespace,
        segments,
        value,
        (segments.len() - 1) as nat,
    )
}

/// Whether clearing `key` removes the key `candidate`: the key itself, and
/// every key below it.
pub open spec fn clears(key: Seq<char>, candidate: Seq<char>) -> bool {
    candidate == key || (key.len() > 0 && is_prefix_of(key + seq!['.'], candidate))
}

/// The store without the key and the keys below it.
pub open spec fn store_clear(store: StoreModel, namespace: Namespace, key: Seq<char>) -> StoreModel {
    store.remove_keys(Set::new(|k: StoreKey| k.0 == namespace && clears(key, k.1)))
}

/// Reading by canonical path, in any letter case: the lookup is made with
/// the lower-cased segments. A path that names no namespace finds nothing.
pub open spec fn canonical_get(store: StoreModel, canonical: Seq<char>) -> Option<ValueModel> {
    match canonical_parts(canonical) {
        Some((namespace, segments)) => store_lookup(store, namespace, lower_all(segments)),
        None => None,
    }
}

/// Whether the segments give the empty key: there is none, or a single
/// empty one.
pub open spec fn empty_key(segments: Seq<Seq<char>>) -> bool {
    join_dots(lower_all(segments)).len() == 0
}

/// Assignment by path segments. Nothing changes where the path lies in
/// `query` or gives the empty key.
pub open spec fn path_set(store: StoreModel, parts: Seq<Seq<char>>, value: ValueModel) -> StoreModel {
    if path_namespace(parts) == Namespace::Query || empty_key(path_segments(parts)) {
        store
    } else {
        store_assign(store, path_namespace(parts), lower_all(path_segments(parts)), value)
    }
}

/// Assignment by canonical path. Nothing changes where the path names no
/// namespace, names `query`, or gives the empty key.
pub open spec fn canonical_set(store: StoreModel, canonical: Seq<char>, value: ValueModel) -> StoreModel {
    match canonical_parts(canonical) {
        Some((namespace, segments)) => if namespace == Namespace::Query || empty_key(segments) {
            store
        } else {
            store_assign(store, namespace, lower_all(segments), value)
        },
        None => store,
    }
}

pub open spec fn canonical_clear(store: StoreModel, canonical: Seq<char>) -> StoreModel {
    match canonical_parts(canonical) {
        Some((namespace, segments)) => store_clear(store, namespace, join_dots(lower_all(segments))),
        None => store,
    }
}

/// Copying: the destination takes the value found at the source, or is
/// cleared where the source holds nothing.
pub open spec fn canonical_copy(store: StoreModel, dest: Seq<char>, src: Seq<char>) -> StoreModel {
    match canonical_get(store, src) {
        Some(value) => canonical_set(store, dest, value),
        None => canonical_clear(store, dest),
    }
}

/// The items of an array; anything else counts as the empty array.
pub open spec fn array_items(value: Option<ValueModel>) -> Seq<ValueModel> {
    match value {
        Some(ValueModel::Array(items)) => items,
        _ => Seq::empty(),
    }
}

pub open spec fn canonical_push(store: StoreModel, canonical: Seq<char>, value: ValueModel) -> StoreModel {
    canonical_set(
        store,
        canonical,
        ValueModel::Array(array_items(canonical_get(store, canonical)).push(value)),
    )
}

/// The element that an index selects: a negative index counts as 0, an
/// index past the end wraps around; an empty array has no element.
pub open spec fn array_element(value: Option<ValueModel>, index: int) -> Option<ValueModel> {
    let items = array_items(value);
    if items.len() == 0 {
        None
    } else if index < 0 {
        Some(items[0])
    } else {
        Some(items[index % (items.len() as int)])
    }
}

pub open spec fn canonical_copy_element(
    store: StoreModel,
    canonical: Seq<char>,
    index: int,
    dest: Seq<char>,
) -> StoreModel {
    match array_element(canonical_get(store, canonical), index) {
        Some(value) => canonical_set(store, dest, value),
        None => canonical_clear(store, dest),
    }
}

/// The number found at a path, if anything is found.
pub open spec fn option_number(value: Option<ValueModel>) -> Option<u64> {
    match value {
        Some(v) => Some(number_of_value(v)),
        None => None,
    }
}

/// A length as a signed 64-bit count, which is the length itself for
/// every list that memory can hold.
pub open spec fn length_count(n: nat) -> i64 {
    if n > 0x7fff_ffff_ffff_ffff {
        0x7fff_ffff_ffff_ffff
    } else {
        n as i64
    }
}

/// Equality of what two paths hold: two texts, two numbers, or nothing on
/// both sides. Values of different kinds, arrays and structs equal nothing.
pub open spec fn values_equal(left: Option<ValueModel>, right: Option<ValueModel>) -> bool {
    match (left, right) {
        (Some(ValueModel::Text(l)), Some(ValueModel::Text(r))) => l == r,
        (Some(ValueModel::Number(l)), Some(ValueModel::Number(r))) => numbers_equal(l, r),
        (None, None) => true,
        _ => false,
    }
}

/// Whether the store holds the value under a key with this canonical name.
pub open spec fn holds_under(store: StoreModel, name: Seq<char>, value: ValueModel) -> bool {
    exists|key: StoreKey| #[trigger] store.contains_key(key) && name == canonical_text(key) && value == store[key]
}

pub open spec fn number_or_zero(value: Option<ValueModel>) -> u64 {
    match value {
        Some(v) => number_of_value(v),
        None => 0,
    }
}

pub fn parse_canonical_path(canonical: &str) -> (r: Option<(Namespace, Vec<String>)>)
    ensures
        match r {
            Some((namespace, segments)) => canonical_parts(canonical@) == Some(
                (namespace, texts(segments@)),
            ),
            None => canonical_parts(canonical@) is None,
        },
{
    let mut parts = split_text(canonical);
    proof {
        crate::text::lemma_split_nonempty(canonical@);
    }
    let ghost all = parts@;
    let first = parts.remove(0);
    assert(texts(parts@) =~= texts(all).skip(1));
    match Namespace::from_prefix(first.as_str()) {
        Some(namespace) => Some((namespace, parts)),
        None => None,
    }
}

fn lookup_nested_value(value: &Value, tail: &[String], from: usize) -> (r: Option<Value>)
    requires
        from <= tail.len(),
    ensures
        option_model(r) == nested_value(value@, texts(tail@).skip(from as int)),
    decreases tail.len() - from,
{
    let ghost rest = texts(tail@).skip(from as int);
    if from == tail.len() {
        return Some(value.clone());
    }
    assert(rest[0] == tail@[from as int]@);
    assert(rest.skip(1) =~= texts(tail@).skip(from + 1));
    match value {
        Value::Struct(map) => {
            match map.get(tail[from].as_str()) {
                Some(child) => lookup_nested_value(child, tail, from + 1),
                None => None,
            }
        },
        Value::Array(values) => {
            proof {
                lemma_array_model(*values);
            }
            if tail.len() - from == 1 && same_text(tail[from].as_str(), "length") {
                Some(Value::Number(number_from_length(values.len())))
            } else {
                None
            }
        },
        _ => None,
    }
}

/// One stored value with its name.
#[derive(Debug)]
struct Entry {
    name: QualifiedName,
    value: Value,
}

/// Runtime storage for variables: the value kept under each name, every
/// name at most once.
#[derive(Debug)]
pub struct RuntimeContext {
    entries: Vec<Entry>,
}

/// The map that a list of entries stands for. Where a name occurs twice
/// the later entry counts.
spec fn store_map(entries: Seq<Entry>) -> StoreModel
    decreases entries.len(),
{
    if entries.len() == 0 {
        Map::empty()
    } else {
        store_map(entries.drop_last()).insert(entries.last().name@, entries.last().value@)
    }
}

spec fn names_distinct(entries: Seq<Entry>) -> bool {
    forall|i: int, j: int|
        0 <= i < j < entries.len() ==> (#[trigger] entries[i]).name@ != (#[trigger] entries[j]).name@
}

proof fn lemma_store_push(entries: Seq<Entry>, entry: Entry)
    ensures
        store_map(entries.push(entry)) == store_map(entries).insert(entry.name@, entry.value@),
{
    assert(entries.push(entry).drop_last() =~= entries);
}

proof fn lemma_store_keys(entries: Seq<Entry>, key: StoreKey)
    ensures
        store_map(entries).contains_key(key) <==> exists|i: int|
            0 <= i < entries.len() && (#[trigger] entries[i]).name@ == key,
    decreases entries.len(),
{
    if entries.len() > 0 {
        let rest = entries.drop_last();
        lemma_store_keys(rest, key);
        if store_map(entries).contains_key(key) {
            if entries.last().name@ == key {
                assert(entries[entries.len() - 1].name@ == key);
            } else {
                let i = choose|i: int| 0 <= i < rest.len() && (#[trigger] rest[i]).name@ == key;
                assert(entries[i].name@ == key);
            }
        }
        if exists|i: int| 0 <= i < entries.len() && (#[trigger] entries[i]).name@ == key {
            let i = choose|i: int| 0 <= i < entries.len() && (#[trigger] entries[i]).name@ == key;
            if i < rest.len() {
                assert(rest[i].name@ == key);
            }
        }
    }
}

proof fn lemma_store_value(entries: Seq<Entry>, i: int)
    requires
        0 <= i < entries.len(),
        forall|j: int| i < j < entries.len() ==> (#[trigger] entries[j]).name@ != entries[i].name@,
    ensures
        store_map(entries).contains_key(entries[i].name@),
        store_map(entries)[entries[i].name@] == entries[i].value@,
    decreases entries.len(),
{
    if i < entries.len() - 1 {
        let rest = entries.drop_last();
        assert(entries[entries.len() - 1].name@ != entries[i].name@);
        assert forall|j: int| i < j < rest.len() implies (#[trigger] rest[j]).name@ != rest[i].name@ by {
            assert(entries[j].name@ != entries[i].name@);
        }
        lemma_store_value(rest, i);
    }
}

proof fn lemma_store_update(entries: Seq<Entry>, i: int, entry: Entry)
    requires
        0 <= i < entries.len(),
        entries[i].name@ == entry.name@,
        forall|j: int| i < j < entries.len() ==> (#[trigger] entries[j]).name@ != entry.name@,
    ensures
        store_map(entries.update(i, entry)) == store_map(entries).insert(entry.name@, entry.value@),
    decreases entries.len(),
{
    let updated = entries.update(i, entry);
    if i == entries.len() - 1 {
        assert(updated.drop_last() =~= entries.drop_last());
        assert(store_map(updated) =~= store_map(entries).insert(entry.name@, entry.value@));
    } else {
        let rest = entries.drop_last();
        assert(entries[entries.len() - 1].name@ != entry.name@);
        assert forall|j: int| i < j < rest.len() implies (#[trigger] rest[j]).name@ != entry.name@ by {
            assert(entries[j].name@ != entry.name@);
        }
        lemma_store_update(rest, i, entry);
        assert(updated.drop_last() =~= rest.update(i, entry));
        assert(store_map(updated) =~= store_map(entries).insert(entry.name@, entry.value@));
    }
}

impl View for RuntimeContext {
    type V = StoreModel;

    closed spec fn view(&self) -> StoreModel {
        store_map(self.entries@)
    }
}

impl Default for RuntimeContext {
    fn default() -> (r: Self)
        ensures
            r@ == Map::<StoreKey, ValueModel>::empty(),
    {
        RuntimeContext { entries: Vec::new() }
    }
}

impl Clone for RuntimeContext {
    fn clone(&self) -> (r: Self)
        ensures
            r@ == self@,
    {
        proof {
            use_type_invariant(self);
        }
        let mut entries: Vec<Entry> = Vec::new();
        let mut i: usize = 0;
        while i < self.entries.len()
            invariant
                i <= self.entries.len(),
                names_distinct(self.entries@),
                entries@.len() == i,
                forall|j: int| 0 <= j < i ==> (#[trigger] entries@[j]).name@ == self.entries@[j].name@,
                store_map(entries@) == store_map(self.entries@.take(i as int)),
            decreases self.entries.len() - i,
        {
            let entry = Entry { name: self.entries[i].name.clone(), value: self.entries[i].value.clone() };
            proof {
                lemma_store_push(entries@, entry);
                lemma_store_push(self.entries@.take(i as int), self.entries@[i as int]);
                assert(self.entries@.take(i + 1) =~= self.entries@.take(i as int).push(
                    self.entries@[i as int],
                ));
            }
            entries.push(entry);
            i += 1;
        }
        assert(self.entries@.take(self.entries.len() as int) =~= self.entries@);
        RuntimeContext { entries }
    }
}

/// Clearing and keeping, key by key.
proof fn lemma_clear_push(entries: Seq<Entry>, entry: Entry, namespace: Namespace, key: Seq<char>)
    ensures
        store_clear(store_map(entries.push(entry)), namespace, key) == if entry.name@.0 == namespace
            && clears(key, entry.name@.1) {
            store_clear(store_map(entries), namespace, key)
        } else {
            store_clear(store_map(entries), namespace, key).insert(entry.name@, entry.value@)
        },
{
    lemma_store_push(entries, entry);
    let gone = Set::new(|k: StoreKey| k.0 == namespace && clears(key, k.1));
    if entry.name@.0 == namespace && clears(key, entry.name@.1) {
        assert(gone.contains(entry.name@));
        assert(store_map(entries).insert(entry.name@, entry.value@).remove_keys(gone) =~= store_map(
            entries,
        ).remove_keys(gone));
    } else {
        assert(!gone.contains(entry.name@));
        assert(store_map(entries).insert(entry.name@, entry.value@).remove_keys(gone) =~= store_map(
            entries,
        ).remove_keys(gone).insert(entry.name@, entry.value@));
    }
}

impl RuntimeContext {
    #[verifier::type_invariant]
    spec fn well_formed(self) -> bool {
        names_distinct(self.entries@)
    }

    /// The position of the entry with this name.
    fn find(&self, namespace: Namespace, key: &str) -> (r: Option<usize>)
        ensures
            match r {
                Some(i) => i < self.entries.len() && self.entries[i as int].name@ == (namespace, key@)
                    && self@.contains_key((namespace, key@)) && self@[(namespace, key@)]
                    == self.entries[i as int].value@,
                None => !self@.contains_key((namespace, key@)),
            },
    {
        proof {
            use_type_invariant(self);
        }
        let mut i: usize = 0;
        while i < self.entries.len()
            invariant
                i <= self.entries.len(),
                names_distinct(self.entries@),
                forall|j: int| 0 <= j < i ==> (#[trigger] self.entries@[j]).name@ != (namespace, key@),
            decreases self.entries.len() - i,
        {
            let name = &self.entries[i].name;
            if name.namespace == namespace && same_text(name.key.as_str(), key) {
                proof {
                    lemma_store_value(self.entries@, i as int);
                }
                return Some(i);
            }
            i += 1;
        }
        proof {
            lemma_store_keys(self.entries@, (namespace, key@));
        }
        None
    }

    /// Stores a value under a name, in place of what the name held.
    fn put(&mut self, name: QualifiedName, value: Value)
        ensures
            final(self)@ == old(self)@.insert(name@, value@),
    {
        proof {
            use_type_invariant(&*self);
        }
        let entry = Entry { name, value };
        let found = self.find(entry.name.namespace, entry.name.key.as_str());
        let ghost before = self.entries@;
        let mut entries: Vec<Entry> = Vec::new();
        std::mem::swap(&mut self.entries, &mut entries);
        match found {
            Some(i) => {
                proof {
                    lemma_store_update(before, i as int, entry);
                    assert forall|a: int, b: int|
                        0 <= a < b < before.update(i as int, entry).len() implies (
                    #[trigger] before.update(i as int, entry)[a]).name@ != (
                    #[trigger] before.update(i as int, entry)[b]).name@ by {
                        assert(before[a].name@ != before[b].name@);
                    }
                }
                entries.set(i, entry);
            },
            None => {
                proof {
                    lemma_store_push(before, entry);
                    lemma_store_keys(before, entry.name@);
                    assert forall|a: int, b: int|
                        0 <= a < b < before.push(entry).len() implies (
                    #[trigger] before.push(entry)[a]).name@ != (#[trigger] before.push(
                        entry,
                    )[b]).name@ by {
                        if b < before.len() {
                            assert(before[a].name@ != before[b].name@);
                        } else {
                            assert(before[a].name@ != entry.name@);
                        }
                    }
                }
                entries.push(entry);
            },
        }
        self.entries = entries;
    }

    /// Removes a key and every key below it.
    fn remove_below(&mut self, namespace: Namespace, key: &str)
        ensures
            final(self)@ == store_clear(old(self)@, namespace, key@),
    {
        proof {
            use_type_invariant(&*self);
        }
        let mut prefix = key.to_owned();
        push_char(&mut prefix, '.');
        let has_key = key.unicode_len() > 0;
        let ghost initial = self.entries@;
        let mut entries: Vec<Entry> = Vec::new();
        std::mem::swap(&mut self.entries, &mut entries);
        let ghost done: int = 0;
        let mut i: usize = 0;
        proof {
            assert(initial.take(0) =~= Seq::<Entry>::empty());
            assert(entries@.take(0) =~= Seq::<Entry>::empty());
            assert(store_clear(store_map(Seq::<Entry>::empty()), namespace, key@) =~= store_map(
                Seq::<Entry>::empty(),
            ));
            assert(entries@.skip(0) =~= initial.skip(0));
        }
        while i < entries.len()
            invariant
                i <= entries.len(),
                0 <= done <= initial.len(),
                prefix@ == key@ + seq!['.'],
                has_key == (key@.len() > 0),
                names_distinct(entries@),
                entries@.skip(i as int) == initial.skip(done),
                store_map(entries@.take(i as int)) == store_clear(
                    store_map(initial.take(done)),
                    namespace,
                    key@,
                ),
            decreases entries.len() - i,
        {
            let ghost before = entries@;
            assert(before.skip(i as int).len() == initial.skip(done).len());
            assert(before[i as int] == before.skip(i as int)[0]);
            assert(initial[done] == initial.skip(done)[0]);
            let name = &entries[i].name;
            let current = name.key.as_str();
            let gone = name.namespace == namespace && (same_text(current, key) || (has_key && has_prefix(
                current,
                prefix.as_str(),
            )));
            proof {
                lemma_clear_push(initial.take(done), initial[done], namespace, key@);
                assert(initial.take(done + 1) =~= initial.take(done).push(initial[done]));
            }
            if gone {
                entries.remove(i);
                proof {
                    assert(entries@.take(i as int) =~= before.take(i as int));
                    assert(before.skip(i + 1) =~= before.skip(i as int).skip(1));
                    assert(initial.skip(done + 1) =~= initial.skip(done).skip(1));
                    assert(entries@.skip(i as int) =~= before.skip(i + 1));
                    assert forall|a: int, b: int| 0 <= a < b < entries@.len() implies (
                    #[trigger] entries@[a]).name@ != (#[trigger] entries@[b]).name@ by {
                        let a0 = if a < i { a } else { a + 1 };
                        let b0 = if b < i { b } else { b + 1 };
                        assert(before[a0].name@ != before[b0].name@);
                    }
                    done = done + 1;
                }
            } else {
                proof {
                    lemma_store_push(before.take(i as int), before[i as int]);
                    assert(before.take(i + 1) =~= before.take(i as int).push(before[i as int]));
                    assert(before.skip(i + 1) =~= before.skip(i as int).skip(1));
                    assert(initial.skip(done + 1) =~= initial.skip(done).skip(1));
                    done = done + 1;
                }
                i += 1;
            }
        }
        proof {
            assert(entries@.take(i as int) =~= entries@);
            assert(initial.skip(done).len() == 0);
            assert(initial.take(done) =~= initial);
        }
        self.entries = entries;
    }
}

impl RuntimeContext {
    /// A store that holds nothing.
    pub fn new() -> (r: Self)
        ensures
            r@ == Map::<StoreKey, ValueModel>::empty(),
    {
        RuntimeContext { entries: Vec::new() }
    }

    pub fn with_number(self, namespace: Namespace, name: &str, value: u64) -> (r: Self)
        ensures
            r@ == self@.insert((namespace, lower_seq(name@)), ValueModel::Number(value)),
    {
        let mut ctx = self;
        ctx.insert(namespace, name, Value::number(value));
        ctx
    }

    /// Stores a value under the lower-cased name, as one key: no ancestor
    /// is touched.
    pub fn insert(&mut self, namespace: Namespace, name: &str, value: Value)
        ensures
            final(self)@ == old(self)@.insert((namespace, lower_seq(name@)), value@),
    {
        self.put(QualifiedName::new(namespace, lower_text(name)), value);
    }

    pub fn set_value_with_name(&mut self, name: QualifiedName, value: Value)
        ensures
            final(self)@ == old(self)@.insert(name@, value@),
    {
        self.put(name, value);
    }

    /// Assignment by path segments. Nothing changes where the path lies in
    /// `query` or gives the empty key.
    pub fn set_value_for_path(&mut self, parts: &[String], value: Value)
        ensures
            final(self)@ == path_set(old(self)@, texts(parts@), value@),
    {
        let (namespace, raw_segments) = Namespace::split_parts(parts);
        if namespace == Namespace::Query {
            return ;
        }
        let segments = lower_texts(raw_segments.as_slice());
        if join_texts(segments.as_slice()).as_str().unicode_len() == 0 {
            return ;
        }
        self.assign_nested(namespace, segments.as_slice(), value);
    }

    pub fn set_number_for_path(&mut self, parts: &[String], value: u64)
        ensures
            final(self)@ == path_set(old(self)@, texts(parts@), ValueModel::Number(value)),
    {
        self.set_value_for_path(parts, Value::number(value));
    }

    pub fn get_number(&self, name: &QualifiedName) -> (r: Option<u64>)
        ensures
            r == option_number(store_lookup(self@, name@.0, key_segments(name@.1))),
    {
        let segments = name.segments();
        match self.lookup_namespace_path(name.namespace, segments.as_slice()) {
            Some(value) => Some(value.as_number()),
            None => None,
        }
    }

    pub fn get_or_default_number(&self, name: &QualifiedName) -> (r: u64)
        ensures
            r == number_or_zero(store_lookup(self@, name@.0, key_segments(name@.1))),
    {
        match self.get_number(name) {
            Some(value) => value,
            None => 0,
        }
    }

    pub fn get_number_canonical(&self, canonical: &str) -> (r: Option<u64>)
        ensures
            r == option_number(canonical_get(self@, canonical@)),
    {
        match self.get_value_canonical(canonical) {
            Some(value) => Some(value.as_number()),
            None => None,
        }
    }

    pub fn get_value_canonical(&self, canonical: &str) -> (r: Option<Value>)
        ensures
            option_model(r) == canonical_get(self@, canonical@),
    {
        match parse_canonical_path(canonical) {
            Some((namespace, segments)) => {
                let lower = lower_texts(segments.as_slice());
                self.lookup_namespace_path(namespace, lower.as_slice())
            },
            None => None,
        }
    }

    pub fn set_number_canonical(&mut self, canonical: &str, value: u64)
        ensures
            final(self)@ == canonical_set(old(self)@, canonical@, ValueModel::Number(value)),
    {
        self.set_value_canonical(canonical, Value::number(value));
    }

    pub fn set_value_canonical(&mut self, canonical: &str, value: Value)
        ensures
            final(self)@ == canonical_set(old(self)@, canonical@, value@),
    {
        match parse_canonical_path(canonical) {
            Some((namespace, segments)) => {
                let lower = lower_texts(segments.as_slice());
                if namespace == Namespace::Query || join_texts(lower.as_slice()).as_str().unicode_len()
                    == 0 {
                    return ;
                }
                self.assign_nested(namespace, lower.as_slice(), value);
            },
            None => {},
        }
    }

    pub fn clear_value_canonical(&mut self, canonical: &str)
        ensures
            final(self)@ == canonical_clear(old(self)@, canonical@),
    {
        match parse_canonical_path(canonical) {
            Some((namespace, segments)) => {
                let lower = lower_texts(segments.as_slice());
                let key = join_texts(lower.as_slice());
                self.remove_below(namespace, key.as_str());
            },
            None => {},
        }
    }

    pub fn copy_value_canonical(&mut self, dest: &str, src: &str)
        ensures
            final(self)@ == canonical_copy(old(self)@, dest@, src@),
    {
        match self.get_value_canonical(src) {
            Some(value) => self.set_value_canonical(dest, value),
            None => self.clear_value_canonical(dest),
        }
    }

    pub fn array_push_number_canonical(&mut self, canonical: &str, value: u64)
        ensures
            final(self)@ == canonical_push(old(self)@, canonical@, ValueModel::Number(value)),
    {
        self.array_push_value_canonical(canonical, Value::number(value));
    }

    /// Appends to the array at the path; what is there counts as the empty
    /// array unless it is an array.
    pub fn array_push_value_canonical(&mut self, canonical: &str, value: Value)
        ensures
            final(self)@ == canonical_push(old(self)@, canonical@, value@),
    {
        let mut values: Vec<Value> = match self.get_value_canonical(canonical) {
            Some(Value::Array(existing)) => {
                proof {
                    lemma_array_model(existing);
                }
                existing
            },
            _ => {
                let empty: Vec<Value> = Vec::new();
                assert(models(empty@) =~= Seq::<ValueModel>::empty());
                empty
            },
        };
        let ghost before = values@;
        values.push(value);
        assert(models(values@) =~= models(before).push(value@));
        self.set_value_canonical(canonical, Value::array(values));
    }

    pub fn array_push_string_canonical(&mut self, canonical: &str, value: &str)
        ensures
            final(self)@ == canonical_push(old(self)@, canonical@, ValueModel::Text(value@)),
    {
        self.array_push_value_canonical(canonical, Value::string(value));
    }

    /// The number at the index that the number `index` truncates to.
    pub fn array_get_number_canonical(&self, canonical: &str, index: u64) -> (r: u64)
        ensures
            r == number_or_zero(
                array_element(canonical_get(self@, canonical@), index_of_number(index) as int),
            ),
    {
        match self.array_get_value_canonical(canonical, index) {
            Some(value) => value.as_number(),
            None => 0,
        }
    }

    pub fn array_length_canonical(&self, canonical: &str) -> (r: i64)
        ensures
            r == length_count(array_items(canonical_get(self@, canonical@)).len()),
    {
        match self.get_value_canonical(canonical) {
            Some(Value::Array(values)) => {
                proof {
                    lemma_array_model(values);
                }
                length_of(&values)
            },
            _ => 0,
        }
    }

    pub fn array_copy_element_canonical(&mut self, canonical: &str, index: i64, dest: &str)
        ensures
            final(self)@ == canonical_copy_element(old(self)@, canonical@, index as int, dest@),
    {
        match self.array_get_value_by_index(canonical, index) {
            Some(value) => self.set_value_canonical(dest, value),
            None => self.clear_value_canonical(dest),
        }
    }

    fn array_get_value_canonical(&self, canonical: &str, index: u64) -> (r: Option<Value>)
        ensures
            option_model(r) == array_element(
                canonical_get(self@, canonical@),
                index_of_number(index) as int,
            ),
    {
        let idx = index_from_number(index) as i64;
        self.array_get_value_by_index(canonical, idx)
    }

    fn array_get_value_by_index(&self, canonical: &str, index: i64) -> (r: Option<Value>)
        ensures
            option_model(r) == array_element(canonical_get(self@, canonical@), index as int),
    {
        match self.get_value_canonical(canonical) {
            Some(Value::Array(values)) => {
                proof {
                    lemma_array_model(values);
                }
                if values.len() == 0 {
                    return None;
                }
                let wrapped: usize = if index < 0 {
                    0
                } else {
                    ((index as u64) % (values.len() as u64)) as usize
                };
                proof {
                    let items = models(values@);
                    assert(items.len() == values.len());
                    assert(items[wrapped as int] == values@[wrapped as int]@);
                    if index >= 0 {
                        assert(wrapped as int == (index as int) % (items.len() as int));
                    } else {
                        assert(wrapped == 0);
                    }
                    assert(array_items(canonical_get(self@, canonical@)) == items);
                    assert(array_element(canonical_get(self@, canonical@), index as int) == Some(
                        items[wrapped as int],
                    ));
                }
                let picked = values[wrapped].clone();
                assert(picked@ == models(values@)[wrapped as int]);
                Some(picked)
            },
            _ => None,
        }
    }

    pub fn get_value_for_path(&self, parts: &[String]) -> (r: Option<Value>)
        ensures
            option_model(r) == store_lookup(
                self@,
                path_namespace(texts(parts@)),
                lower_all(path_segments(texts(parts@))),
            ),
    {
        let (namespace, raw_segments) = Namespace::split_parts(parts);
        let segments = lower_texts(raw_segments.as_slice());
        self.lookup_namespace_path(namespace, segments.as_slice())
    }

    pub fn with_query(self, name: &str, value: u64) -> (r: Self)
        ensures
            r@ == self@.insert((Namespace::Query, lower_seq(name@)), ValueModel::Number(value)),
    {
        let mut ctx = self;
        ctx.set_query_value(name, value);
        ctx
    }

    pub fn with_query_string(self, name: &str, value: &str) -> (r: Self)
        ensures
            r@ == self@.insert((Namespace::Query, lower_seq(name@)), ValueModel::Text(value@)),
    {
        let mut ctx = self;
        ctx.set_query_string(name, value);
        ctx
    }

    pub fn with_query_value(self, name: &str, value: Value) -> (r: Self)
        ensures
            r@ == self@.insert((Namespace::Query, lower_seq(name@)), value@),
    {
        let mut ctx = self;
        ctx.set_query(name, value);
        ctx
    }

    /// Stores a query value. Only the host writes the `query` namespace.
    pub fn set_query(&mut self, name: &str, value: Value)
        ensures
            final(self)@ == old(self)@.insert((Namespace::Query, lower_seq(name@)), value@),
    {
        self.put(QualifiedName::new(Namespace::Query, lower_text(name)), value);
    }

    pub fn set_query_value(&mut self, name: &str, value: u64)
        ensures
            final(self)@ == old(self)@.insert(
                (Namespace::Query, lower_seq(name@)),
                ValueModel::Number(value),
            ),
    {
        self.set_query(name, Value::number(value));
    }

    pub fn set_query_string(&mut self, name: &str, value: &str)
        ensures
            final(self)@ == old(self)@.insert(
                (Namespace::Query, lower_seq(name@)),
                ValueModel::Text(value@),
            ),
    {
        self.set_query(name, Value::string(value));
    }

    /// Whether two paths hold equal values.
    pub fn paths_equal(&self, left: &str, right: &str) -> (r: bool)
        ensures
            r == values_equal(canonical_get(self@, left@), canonical_get(self@, right@)),
    {
        let left_value = self.get_value_canonical(left);
        let right_value = self.get_value_canonical(right);
        match (left_value, right_value) {
            (Some(Value::String(l)), Some(Value::String(r))) => same_text(l.as_str(), r.as_str()),
            (Some(Value::Number(l)), Some(Value::Number(r))) => equal_numbers(l, r),
            (None, None) => true,
            _ => false,
        }
    }

    /// Whether a path holds exactly this text.
    pub fn path_equals_string(&self, path: &str, text: &str) -> (r: bool)
        ensures
            r == (canonical_get(self@, path@) == Some(ValueModel::Text(text@))),
    {
        match self.get_value_canonical(path) {
            Some(Value::String(s)) => same_text(s.as_str(), text),
            _ => false,
        }
    }

    /// The number of names that hold a value.
    pub fn len(&self) -> (n: usize)
        ensures
            n == self@.dom().len(),
            self@.dom().finite(),
    {
        proof {
            use_type_invariant(self);
            lemma_store_size(self.entries@);
        }
        self.entries.len()
    }

    /// The canonical name and the value of the entry at `index`.
    pub fn variable_at(&self, index: usize) -> (r: Option<(String, Value)>)
        ensures
            match r {
                Some((name, value)) => index < self@.dom().len() && holds_under(self@, name@, value@),
                None => index >= self@.dom().len(),
            },
    {
        proof {
            use_type_invariant(self);
            lemma_store_size(self.entries@);
        }
        if index < self.entries.len() {
            proof {
                assert forall|j: int| index < j < self.entries@.len() implies (
                #[trigger] self.entries@[j]).name@ != self.entries@[index as int].name@ by {}
                lemma_store_value(self.entries@, index as int);
            }
            let entry = &self.entries[index];
            Some((entry.name.canonical(), entry.value.clone()))
        } else {
            None
        }
    }

    /// Every name that holds a value, in canonical form, with its value.
    pub fn list_variables(&self) -> (r: Vec<(String, Value)>)
        ensures
            r@.len() == self@.dom().len(),
            forall|i: int| 0 <= i < r@.len() ==> holds_under(self@, (#[trigger] r@[i]).0@, r@[i].1@),
            forall|key: StoreKey|
                self@.contains_key(key) ==> exists|i: int|
                    0 <= i < r@.len() && (#[trigger] r@[i]).0@ == canonical_text(key) && r@[i].1@
                        == self@[key],
    {
        proof {
            use_type_invariant(self);
            lemma_store_size(self.entries@);
        }
        let mut out: Vec<(String, Value)> = Vec::new();
        let mut i: usize = 0;
        while i < self.entries.len()
            invariant
                i <= self.entries.len(),
                names_distinct(self.entries@),
                out@.len() == i,
                forall|k: int|
                    0 <= k < i ==> (#[trigger] out@[k]).0@ == canonical_text(self.entries@[k].name@) && out@[k].1@
                        == self.entries@[k].value@,
            decreases self.entries.len() - i,
        {
            let entry = &self.entries[i];
            out.push((entry.name.canonical(), entry.value.clone()));
            i += 1;
        }
        proof {
            assert forall|k: int| 0 <= k < out@.len() implies holds_under(
                self@,
                (#[trigger] out@[k]).0@,
                out@[k].1@,
            ) by {
                assert forall|j: int| k < j < self.entries@.len() implies (
                #[trigger] self.entries@[j]).name@ != self.entries@[k].name@ by {}
                lemma_store_value(self.entries@, k);
                let key = self.entries@[k].name@;
                assert(self@.contains_key(key) && out@[k].0@ == canonical_text(key) && out@[k].1@
                    == self@[key]);
            }
            assert forall|key: StoreKey| self@.contains_key(key) implies exists|k: int|
                0 <= k < out@.len() && (#[trigger] out@[k]).0@ == canonical_text(key) && out@[k].1@
                    == self@[key] by {
                lemma_store_keys(self.entries@, key);
                let k = choose|k: int| 0 <= k < self.entries@.len() && (#[trigger] self.entries@[k]).name@ == key;
                assert forall|j: int| k < j < self.entries@.len() implies (
                #[trigger] self.entries@[j]).name@ != self.entries@[k].name@ by {}
                lemma_store_value(self.entries@, k);
                assert(0 <= k < out@.len() && out@[k].0@ == canonical_text(key) && out@[k].1@ == self@[key]);
            }
        }
        out
    }

    fn assign_nested(&mut self, namespace: Namespace, segments: &[String], value: Value)
        requires
            segments.len() > 0,
        ensures
            final(self)@ == store_assign(old(self)@, namespace, texts(segments@), value@),
    {
        let key = join_texts(segments);
        let mut current = value;
        self.put(QualifiedName::new(namespace, key), current.clone());
        let mut depth: usize = segments.len() - 1;
        while depth >= 1
            invariant
                depth < segments.len(),
                store_assign(old(self)@, namespace, texts(segments@), value@) == assign_parents(
                    self@,
                    namespace,
                    texts(segments@),
                    current@,
                    depth as nat,
                ),
            decreases depth,
        {
            let parent_key = join_first(segments, depth);
            let field = segments[depth].clone();
            let mut map = match self.find(namespace, parent_key.as_str()) {
                Some(i) => match &self.entries[i].value {
                    Value::Struct(existing) => existing.clone(),
                    _ => StructFields::new(),
                },
                None => StructFields::new(),
            };
            map.insert(field, current.clone());
            current = Value::Struct(map.clone());
            self.put(QualifiedName::new(namespace, parent_key), Value::Struct(map));
            depth -= 1;
        }
    }

    fn lookup_namespace_path(&self, namespace: Namespace, segments: &[String]) -> (r: Option<Value>)
        ensures
            option_model(r) == store_lookup(self@, namespace, texts(segments@)),
    {
        let key = join_texts(segments);
        if let Some(i) = self.find(namespace, key.as_str()) {
            return Some(self.entries[i].value.clone());
        }
        let mut depth: usize = segments.len();
        while depth >= 1
            invariant
                depth <= segments.len(),
                store_lookup(self@, namespace, texts(segments@)) == lookup_prefixes(
                    self@,
                    namespace,
                    texts(segments@),
                    depth as nat,
                ),
            decreases depth,
        {
            let prefix = join_first(segments, depth);
            if let Some(i) = self.find(namespace, prefix.as_str()) {
                if depth == segments.len() {
                    return Some(self.entries[i].value.clone());
                }
                if let Some(found) = lookup_nested_value(&self.entries[i].value, segments, depth) {
                    return Some(found);
                }
            }
            depth -= 1;
        }
        None
    }
}

/// The length of a list as a signed count.
fn length_of(values: &Vec<Value>) -> (r: i64)
    ensures
        r == length_count(values.len() as nat),
{
    let n = values.len() as u64;
    if n > 0x7fff_ffff_ffff_ffff {
        0x7fff_ffff_ffff_ffff
    } else {
        n as i64
    }
}

proof fn lemma_store_size(entries: Seq<Entry>)
    requires
        names_distinct(entries),
    ensures
        store_map(entries).dom().finite(),
        store_map(entries).dom().len() == entries.len(),
    decreases entries.len(),
{
    if entries.len() > 0 {
        let rest = entries.drop_last();
        assert forall|i: int, j: int| 0 <= i < j < rest.len() implies (#[trigger] rest[i]).name@ != (
        #[trigger] rest[j]).name@ by {
            assert(entries[i].name@ != entries[j].name@);
        }
        lemma_store_size(rest);
        lemma_store_keys(rest, entries.last().name@);
        if store_map(rest).contains_key(entries.last().name@) {
            let i = choose|i: int| 0 <= i < rest.len() && (#[trigger] rest[i]).name@ == entries.last().name@;
            assert(entries[i].name@ != entries[entries.len() - 1].name@);
        }
        assert(store_map(entries).dom() =~= store_map(rest).dom().insert(entries.last().name@));
    }
}

} // verus!

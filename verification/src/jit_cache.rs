//! The compile cache: compiled pure expressions, kept under the source text
//! that they were compiled from. The first artifact stored under a text
//! stays; nothing is evicted.
use crate::ir::{checked, IrExpr};
use crate::jit::{
    artifact_of, compile_expression, expression_code, refuses, well_built, Artifact, Code, CompiledExpression,
    JitError,
};
use crate::text::same_text;
use vstd::prelude::*;

verus! {

/// What a cache holds: source texts and their artifacts, in the order in
/// which they were stored.
pub type CacheModel = Seq<(Seq<char>, Artifact)>;

/// The first position of a source text in the cache.
pub open spec fn cache_find(entries: CacheModel, key: Seq<char>) -> Option<int>
    decreases entries.len(),
{
    if entries.len() == 0 {
        None
    } else {
        match cache_find(entries.drop_last(), key) {
            Some(i) => Some(i),
            None => if entries.last().0 == key {
                Some(entries.len() - 1)
            } else {
                None
            },
        }
    }
}

/// The cache after a request for `key`, where compiling the expression
/// gives `code`: a text that is present changes nothing, a new text is
/// stored with its artifact unless compiling fails.
pub open spec fn cache_after(entries: CacheModel, key: Seq<char>, code: Result<Code, Seq<char>>) -> CacheModel {
    match cache_find(entries, key) {
        Some(_) => entries,
        None => match code {
            Ok(compiled) => entries.push((key, artifact_of(compiled))),
            Err(_) => entries,
        },
    }
}

/// The position of the artifact that a request for `key` is answered
/// with, or `None` where compiling fails.
pub open spec fn cache_handle(entries: CacheModel, key: Seq<char>, code: Result<Code, Seq<char>>) -> Option<
    int,
> {
    match cache_find(entries, key) {
        Some(i) => Some(i),
        None => match code {
            Ok(_) => Some(entries.len() as int),
            Err(_) => None,
        },
    }
}

pub proof fn lemma_cache_find(entries: CacheModel, key: Seq<char>)
    ensures
        match cache_find(entries, key) {
            Some(i) => 0 <= i < entries.len() && entries[i].0 == key && forall|j: int|
                0 <= j < i ==> entries[j].0 != key,
            None => forall|j: int| 0 <= j < entries.len() ==> entries[j].0 != key,
        },
    decreases entries.len(),
{
    if entries.len() > 0 {
        let rest = entries.drop_last();
        lemma_cache_find(rest, key);
        assert(forall|j: int| 0 <= j < rest.len() ==> rest[j] == entries[j]);
    }
}

/// Cache identity, same text. A request that was answered is answered
/// again with the same artifact, whatever is compiled, and changes nothing.
pub proof fn law_cache_reuse(
    entries: CacheModel,
    key: Seq<char>,
    first: Result<Code, Seq<char>>,
    second: Result<Code, Seq<char>>,
)
    requires
        cache_handle(entries, key, first) is Some,
    ensures
        cache_after(cache_after(entries, key, first), key, second) == cache_after(entries, key, first),
        cache_handle(cache_after(entries, key, first), key, second) == cache_handle(entries, key, first),
        cache_after(entries, key, first)[cache_handle(entries, key, first)->0].0 == key,
{
    lemma_cache_find(entries, key);
    let stored = cache_after(entries, key, first);
    lemma_cache_find(stored, key);
    if cache_find(entries, key) is None {
        assert(stored[entries.len() as int].0 == key);
    }
}

/// Cache identity, distinct texts. Two texts that the cache does not hold
/// are answered with two artifacts.
pub proof fn law_cache_distinct(entries: CacheModel, a: Seq<char>, b: Seq<char>, first: Code, second: Code)
    requires
        a != b,
        cache_find(entries, a) is None,
        cache_find(entries, b) is None,
    ensures
        cache_handle(entries, a, Ok(first)) != cache_handle(cache_after(entries, a, Ok(first)), b, Ok(second)),
        cache_after(cache_after(entries, a, Ok(first)), b, Ok(second)).len() == entries.len() + 2,
{
    lemma_cache_find(entries, b);
    let stored = cache_after(entries, a, Ok(first));
    lemma_cache_find(stored, b);
}

#[derive(Debug)]
struct CacheEntry {
    key: String,
    artifact: CompiledExpression,
}

/// Compiled pure expressions by source text.
#[derive(Debug)]
pub struct CompileCache {
    entries: Vec<CacheEntry>,
}

impl View for CompileCache {
    type V = CacheModel;

    closed spec fn view(&self) -> CacheModel {
        self.entries@.map_values(|entry: CacheEntry| (entry.key@, entry.artifact@))
    }
}

impl CompileCache {
    /// An empty cache.
    pub fn new() -> (r: Self)
        ensures
            r@ == Seq::<(Seq<char>, Artifact)>::empty(),
    {
        let r = CompileCache { entries: Vec::new() };
        assert(r@ =~= Seq::<(Seq<char>, Artifact)>::empty());
        r
    }

    /// The artifact at a position.
    pub fn get(&self, handle: usize) -> (r: Option<&CompiledExpression>)
        ensures
            match r {
                Some(artifact) => handle < self@.len() && artifact@ == self@[handle as int].1,
                None => handle >= self@.len(),
            },
    {
        if handle < self.entries.len() {
            Some(&self.entries[handle].artifact)
        } else {
            None
        }
    }

    /// The position of the artifact stored under a source text.
    #[verifier::loop_isolation(false)]
    pub fn find(&self, key: &str) -> (r: Option<usize>)
        ensures
            match r {
                Some(i) => cache_find(self@, key@) == Some(i as int),
                None => cache_find(self@, key@) is None,
            },
    {
        proof {
            lemma_cache_find(self@, key@);
        }
        let mut i: usize = 0;
        while i < self.entries.len()
            invariant
                i <= self.entries.len(),
                forall|j: int| 0 <= j < i ==> self@[j].0 != key@,
            decreases self.entries.len() - i,
        {
            if same_text(self.entries[i].key.as_str(), key) {
                assert(self@[i as int].0 == key@);
                return Some(i);
            }
            i += 1;
        }
        None
    }
}

/// Looks up or compiles a pure expression; a new artifact is stored under
/// the source text. Returns the position of the artifact.
pub fn compile_cached(cache: &mut CompileCache, key: &str, ir: &IrExpr) -> (r: Result<usize, JitError>)
    ensures
        final(cache)@ == cache_after(old(cache)@, key@, expression_code(*ir)),
        match cache_handle(old(cache)@, key@, expression_code(*ir)) {
            Some(handle) => r matches Ok(h) && h == handle && handle < final(cache)@.len(),
            None => r matches Err(error) && expression_code(*ir) matches Err(feature) && refuses(
                error,
                feature,
            ),
        },
        r is Ok && cache_find(old(cache)@, key@) is None && checked(*ir) ==> well_built(
            final(cache)@.last().1,
        ),
{
    if let Some(existing) = cache.find(key) {
        proof {
            lemma_cache_find(cache@, key@);
        }
        return Ok(existing);
    }
    let compiled = compile_expression(ir)?;
    let handle = cache.entries.len();
    let ghost before = cache@;
    cache.entries.push(CacheEntry { key: key.to_owned(), artifact: compiled });
    assert(cache@ =~= before.push((key@, compiled@)));
    Ok(handle)
}

/// The number of artifacts in the cache.
pub fn cache_size(cache: &CompileCache) -> (n: usize)
    ensures
        n == cache@.len(),
{
    cache.entries.len()
}

/// Empties the cache.
pub fn clear_cache(cache: &mut CompileCache)
    ensures
        final(cache)@ == Seq::<(Seq<char>, Artifact)>::empty(),
{
    cache.entries.clear();
    assert(cache@ =~= Seq::<(Seq<char>, Artifact)>::empty());
}

} // verus!

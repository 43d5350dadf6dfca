//! The diagnostic engine: the single source of truth for each open
//! document's text, plus a per-document cache of computed diagnostics.
//! The well-formedness invariant ties the two together: a cache entry
//! exists only for a stored document, and always holds exactly the
//! analysis of that document's current text.

use vstd::prelude::*;

use vstd::hash_map::StringHashMap;

use crate::analysis::{analyze, spec_analyze};
use crate::diag::{dup_diags, dviews, DiagView, Diagnostic};

verus! {

/// Failure values surfaced to callers; never process-fatal.
#[derive(Clone, Copy, Debug, PartialEq, Eq, Structural)]
pub enum EngineError {
    NotFound,
}

pub struct DiagnosticEngine {
    documents: StringHashMap<String>,
    cache: StringHashMap<Vec<Diagnostic>>,
}

impl DiagnosticEngine {
    /// The stored text of each document, by document id.
    pub closed spec fn docs_view(&self) -> Map<Seq<char>, Seq<char>> {
        Map::new(
            |k: Seq<char>| self.documents@.contains_key(k),
            |k: Seq<char>| self.documents@[k]@,
        )
    }

    /// The cached diagnostic list of each document, by document id.
    pub closed spec fn cache_view(&self) -> Map<Seq<char>, Seq<DiagView>> {
        Map::new(|k: Seq<char>| self.cache@.contains_key(k), |k: Seq<char>| dviews(self.cache@[k]@))
    }

    /// Cache coherence: an entry exists only for a stored document, and
    /// equals the analysis of that document's current text.
    pub closed spec fn wf(&self) -> bool {
        forall|k: Seq<char>| #[trigger]
            self.cache@.contains_key(k) ==> self.documents@.contains_key(k) && dviews(
                self.cache@[k]@,
            ) == spec_analyze(self.documents@[k]@)
    }

    pub fn new() -> (r: Self)
        ensures
            r.wf(),
            r.docs_view() == Map::<Seq<char>, Seq<char>>::empty(),
            r.cache_view() == Map::<Seq<char>, Seq<DiagView>>::empty(),
    {
        let r = DiagnosticEngine { documents: StringHashMap::new(), cache: StringHashMap::new() };
        proof {
            assert(r.docs_view() =~= Map::<Seq<char>, Seq<char>>::empty());
            assert(r.cache_view() =~= Map::<Seq<char>, Seq<DiagView>>::empty());
        }
        r
    }

    /// Inserts or replaces the full text for `uri` and invalidates any
    /// cached diagnostics for it, as one atomic step.
    pub fn register_document(&mut self, uri: &str, text: &str)
        requires
            old(self).wf(),
        ensures
            final(self).wf(),
            register_post(*old(self), *final(self), uri@, text@),
    {
        self.documents.insert(String::from_str(uri), String::from_str(text));
        self.cache.remove(uri);
        proof {
            assert(final(self).docs_view() =~= old(self).docs_view().insert(uri@, text@));
            assert(final(self).cache_view() =~= old(self).cache_view().remove(uri@));
        }
    }

    /// Removes the text and any derived cache entry for `uri`; later
    /// reads for it report `NotFound`.
    pub fn unregister_document(&mut self, uri: &str)
        requires
            old(self).wf(),
        ensures
            final(self).wf(),
            final(self).docs_view() == old(self).docs_view().remove(uri@),
            final(self).cache_view() == old(self).cache_view().remove(uri@),
    {
        self.documents.remove(uri);
        self.cache.remove(uri);
        proof {
            assert(final(self).docs_view() =~= old(self).docs_view().remove(uri@));
            assert(final(self).cache_view() =~= old(self).cache_view().remove(uri@));
        }
    }

    /// Forces recomputation on the next read, without new text.
    pub fn invalidate(&mut self, uri: &str)
        requires
            old(self).wf(),
        ensures
            final(self).wf(),
            final(self).docs_view() == old(self).docs_view(),
            final(self).cache_view() == old(self).cache_view().remove(uri@),
    {
        self.cache.remove(uri);
        proof {
            assert(final(self).docs_view() =~= old(self).docs_view());
            assert(final(self).cache_view() =~= old(self).cache_view().remove(uri@));
        }
    }

    /// The diagnostics of the document's current text, memoized per
    /// document: for a stored document the result is exactly
    /// `spec_analyze` of its text, whether served from the cache or
    /// recomputed; for an unknown document, `NotFound`.
    pub fn get_diagnostics(&mut self, uri: &str) -> (r: Result<Vec<Diagnostic>, EngineError>)
        requires
            old(self).wf(),
        ensures
            final(self).wf(),
            old(self).docs_view().contains_key(uri@) ==> (r matches Ok(ds)
                && get_diagnostics_post(*old(self), *final(self), uri@, dviews(ds@))),
            !old(self).docs_view().contains_key(uri@) ==> r == Err::<
                Vec<Diagnostic>,
                EngineError,
            >(EngineError::NotFound) && *final(self) == *old(self),
    {
        let cached = self.cache.get(uri);
        match cached {
            Some(c) => {
                let r = dup_diags(c);
                proof {
                    assert(old(self).cache_view().insert(uri@, dviews(r@)) =~= old(
                        self,
                    ).cache_view());
                }
                Ok(r)
            },
            None => {
                let text_opt = self.documents.get(uri);
                match text_opt {
                    None => Err(EngineError::NotFound),
                    Some(t) => {
                        let text = t.clone();
                        let ds = analyze(text.as_str());
                        let copy = dup_diags(&ds);
                        self.cache.insert(String::from_str(uri), copy);
                        proof {
                            assert(final(self).docs_view() =~= old(self).docs_view());
                            assert(final(self).cache_view() =~= old(self).cache_view().insert(
                                uri@,
                                dviews(ds@),
                            ));
                        }
                        Ok(ds)
                    },
                }
            },
        }
    }
}

/// What `register_document` guarantees: the stored text for `uri` is
/// replaced and the cache entry for `uri` is gone.
pub open spec fn register_post(
    pre: DiagnosticEngine,
    post: DiagnosticEngine,
    uri: Seq<char>,
    text: Seq<char>,
) -> bool {
    &&& post.docs_view() == pre.docs_view().insert(uri, text)
    &&& post.cache_view() == pre.cache_view().remove(uri)
}

/// What a successful `get_diagnostics` guarantees: the result is the
/// analysis of the current text, the store is unchanged, and the cache
/// now holds that result.
pub open spec fn get_diagnostics_post(
    pre: DiagnosticEngine,
    post: DiagnosticEngine,
    uri: Seq<char>,
    r: Seq<DiagView>,
) -> bool {
    &&& pre.docs_view().contains_key(uri)
    &&& r == spec_analyze(pre.docs_view()[uri])
    &&& post.docs_view() == pre.docs_view()
    &&& post.cache_view() == pre.cache_view().insert(uri, r)
}

/// Idempotence: two reads of the same document with no intervening
/// register or invalidate return identical diagnostic lists.
pub proof fn lemma_diagnostics_idempotent(
    e0: DiagnosticEngine,
    e1: DiagnosticEngine,
    e2: DiagnosticEngine,
    uri: Seq<char>,
    r1: Seq<DiagView>,
    r2: Seq<DiagView>,
)
    requires
        get_diagnostics_post(e0, e1, uri, r1),
        get_diagnostics_post(e1, e2, uri, r2),
    ensures
        r1 == r2,
{
}

/// Invalidation: a read after `register_document(uri, text)` reflects
/// exactly the new text, never a stale cached result.
pub proof fn lemma_register_then_get(
    e0: DiagnosticEngine,
    e1: DiagnosticEngine,
    e2: DiagnosticEngine,
    uri: Seq<char>,
    text: Seq<char>,
    r: Seq<DiagView>,
)
    requires
        register_post(e0, e1, uri, text),
        get_diagnostics_post(e1, e2, uri, r),
    ensures
        r == spec_analyze(text),
{
    assert(e1.docs_view()[uri] == text);
}

} // verus!

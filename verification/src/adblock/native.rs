//! The filter engine of the `adblock` crate, held together with what it was
//! built from. Only the constructors here make an `AdblockEngine`, each
//! recording the lists or cache bytes it was given beside the engine it
//! built from them, so every engine's recorded source is its own; the
//! engine's answers are named after that source.
use vstd::prelude::*;

use crate::adblock::texts;

verus! {

#[verifier::external_type_specification]
#[verifier::external_body]
pub struct ExFilterEngine(adblock::Engine);

/// What an engine was built from: filter-list texts, or a serialised cache.
pub enum EngineSource {
    Lists(Seq<Seq<char>>),
    Cache(Seq<u8>),
}

/// The network and cosmetic filter engine, with what it was built from.
pub struct AdblockEngine {
    inner: adblock::Engine,
    source: Ghost<EngineSource>,
}

impl AdblockEngine {
    /// What this engine was built from.
    pub closed spec fn origin(&self) -> EngineSource {
        self.source@
    }
}

/// What an engine built from `src` answers for a request: whether to block,
/// whether an exception matched, and the redirect; or the request error's
/// debug text.
pub uninterp spec fn filter_verdict(src: EngineSource, url: Seq<char>, source_url: Seq<char>, request_type: Seq<char>) -> Result<(bool, bool, Option<Seq<char>>), Seq<char>>;

/// The hide selectors (a set) and the injected script an engine built from
/// `src` gives for the page `url`. The script is assembled by walking a hash
/// map of the page's scriptlets and resolving each against the engine's
/// installed resources; it is a function of `src` and `url` only because no
/// engine made here ever has resources installed, so no scriptlet resolves
/// and the order of the walk leaves no trace.
pub uninterp spec fn page_cosmetics(src: EngineSource, url: Seq<char>) -> (Set<Seq<char>>, Seq<char>);

/// The generic class and id selectors an engine built from `src` gives for
/// the classes and ids seen on a page, leaving out the `exceptions`.
pub uninterp spec fn hidden_selectors(src: EngineSource, classes: Seq<Seq<char>>, ids: Seq<Seq<char>>, exceptions: Set<Seq<char>>) -> Seq<Seq<char>>;

/// Why a cache `dat` is refused (the error's debug text), or `None` when it loads.
pub uninterp spec fn cache_refusal(dat: Seq<u8>) -> Option<Seq<char>>;

/// Calls `FilterSet::new(false)`, `add_filter_list` with default options for
/// each text, and `Engine::new_with_filter_set`, and records the texts as the
/// engine's source.
#[verifier::external_body]
pub(crate) fn build_engine(lists: &Vec<String>) -> (r: AdblockEngine)
    ensures
        r.origin() == EngineSource::Lists(texts(lists@)),
{
    let mut set = adblock::lists::FilterSet::new(false);
    for text in lists.iter() {
        set.add_filter_list(text.clone(), adblock::lists::ParseOptions::default());
    }
    AdblockEngine { inner: adblock::Engine::new_with_filter_set(set), source: Ghost(EngineSource::Lists(texts(lists@))) }
}

/// Calls `Engine::default` and `deserialize`, and records the bytes as the
/// engine's source; a refusal is rendered with its `Debug`. Whether `dat` is
/// refused is named by `cache_refusal`.
#[verifier::external_body]
pub(crate) fn load_engine(dat: &Vec<u8>) -> (r: Result<AdblockEngine, String>)
    ensures
        match r {
            Ok(e) => cache_refusal(dat@) is None && e.origin() == EngineSource::Cache(dat@),
            Err(m) => cache_refusal(dat@) == Some(m@),
        },
{
    let mut inner = adblock::Engine::default();
    match inner.deserialize(dat.as_slice()) {
        Ok(()) => Ok(AdblockEngine { inner, source: Ghost(EngineSource::Cache(dat@)) }),
        Err(e) => Err(format!("{e:?}")),
    }
}

/// Calls `Engine::serialize`. The bytes themselves are not described, but
/// the crate's source shows that `Engine::deserialize` accepts them: they
/// carry the format's magic bytes, version, the checksum of the data and this
/// crate version, which is every check it makes before loading.
#[verifier::external_body]
pub(crate) fn save_engine(e: &AdblockEngine) -> (r: Vec<u8>)
    ensures
        cache_refusal(r@) is None,
{
    e.inner.serialize()
}

/// Calls `Request::new` (method `GET`) and `check_network_request`, reading
/// `should_block`, whether an exception matched, and the redirect; a request
/// error is rendered with its `Debug`. The answer is named by
/// `filter_verdict` for the engine's source.
#[verifier::external_body]
pub(crate) fn ask_engine(e: &AdblockEngine, url: &str, source_url: &str, request_type: &str) -> (r: Result<(bool, bool, Option<String>), String>)
    ensures
        match r {
            Ok((b, x, red)) => filter_verdict(e.origin(), url@, source_url@, request_type@) == Ok::<(bool, bool, Option<Seq<char>>), Seq<char>>(
                (b, x, match red { Some(s) => Some(s@), None => None }),
            ),
            Err(m) => filter_verdict(e.origin(), url@, source_url@, request_type@) == Err::<(bool, bool, Option<Seq<char>>), Seq<char>>(m@),
        },
{
    let request = adblock::request::Request::new(url, source_url, request_type, "GET").map_err(|e| format!("{e:?}"))?;
    let result = e.inner.check_network_request(&request);
    Ok((result.should_block(), result.exception.is_some(), result.redirect))
}

/// Calls `url_cosmetic_resources` and reads its hide selectors (each once, in
/// no particular order) and injected script; named by `page_cosmetics` for
/// the engine's source.
#[verifier::external_body]
pub(crate) fn ask_cosmetics(e: &AdblockEngine, url: &str) -> (r: (Vec<String>, String))
    ensures
        forall|x: Seq<char>| r.0@.map_values(|s: String| s@).contains(x) <==> page_cosmetics(e.origin(), url@).0.contains(x),
        r.0@.map_values(|s: String| s@).no_duplicates(),
        r.1@ == page_cosmetics(e.origin(), url@).1,
{
    let resources = e.inner.url_cosmetic_resources(url);
    (resources.hide_selectors.into_iter().collect(), resources.injected_script)
}

/// Calls `hidden_class_id_selectors` with the exceptions gathered into a
/// `HashSet`; the answer is named by `hidden_selectors` for the engine's
/// source. Its source adds a selector only when the exceptions lack it.
#[verifier::external_body]
pub(crate) fn ask_hidden(e: &AdblockEngine, classes: &Vec<String>, ids: &Vec<String>, exceptions: &Vec<String>) -> (r: Vec<String>)
    ensures
        texts(r@) == hidden_selectors(e.origin(), texts(classes@), texts(ids@), texts(exceptions@).to_set()),
        forall|i: int| 0 <= i < r@.len() ==> !texts(exceptions@).contains(#[trigger] r@[i]@),
{
    let exc: std::collections::HashSet<String> = exceptions.iter().cloned().collect();
    e.inner.hidden_class_id_selectors(classes.iter(), ids.iter(), &exc)
}

} // verus!

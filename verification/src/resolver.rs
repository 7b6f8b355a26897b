use vstd::prelude::*;

use crate::narinfo::NarinfoDoc;

verus! {

/// The lexically cleaned form of a path string: redundant separators and
/// `.`/`..` segments normalized away.
pub uninterp spec fn cleaned_of(p: Seq<char>) -> Seq<char>;

/// Relies on path_clean::clean: the cleaning is lexical — no filesystem
/// access — and, for one build, a function of the path string alone (the
/// splitting into components is the target platform's).
#[verifier::external_body]
fn clean_path(p: &str) -> (r: String)
    ensures
        r@ == cleaned_of(p@),
{
    path_clean::clean(p).to_string_lossy().into_owned()
}

/// Where the metadata document of `id` lives under the mirror root.
pub open spec fn spec_metadata_path(mirror_dir: Seq<char>, id: Seq<char>) -> Seq<char> {
    cleaned_of(mirror_dir + "/"@ + id + ".narinfo"@)
}

/// Where the metadata document of `id` is served relative to the cache base.
pub open spec fn spec_metadata_url(cache_base: Seq<char>, id: Seq<char>) -> Seq<char> {
    cache_base + "/"@ + id + ".narinfo"@
}

/// Where a content blob lives under the mirror root.
pub open spec fn spec_content_path(mirror_dir: Seq<char>, content_url: Seq<char>) -> Seq<char> {
    cleaned_of(mirror_dir + "/"@ + content_url)
}

/// Where a content blob is served relative to the cache base.
pub open spec fn spec_content_url(cache_base: Seq<char>, content_url: Seq<char>) -> Seq<char> {
    cache_base + "/"@ + content_url
}

/// The local path of the metadata document for `id`.
pub fn metadata_path(mirror_dir: &str, id: &str) -> (r: String)
    ensures
        r@ == spec_metadata_path(mirror_dir@, id@),
{
    let mut s = mirror_dir.to_owned();
    s.append("/");
    s.append(id);
    s.append(".narinfo");
    clean_path(s.as_str())
}

/// The remote location of the metadata document for `id`.
pub fn metadata_url(cache_base: &str, id: &str) -> (r: String)
    ensures
        r@ == spec_metadata_url(cache_base@, id@),
{
    let mut s = cache_base.to_owned();
    s.append("/");
    s.append(id);
    s.append(".narinfo");
    s
}

/// The local path of the content blob a metadata document points at.
pub fn content_path(mirror_dir: &str, rel_url: &str) -> (r: String)
    ensures
        r@ == spec_content_path(mirror_dir@, rel_url@),
{
    let mut s = mirror_dir.to_owned();
    s.append("/");
    s.append(rel_url);
    clean_path(s.as_str())
}

/// The remote location of the content blob a metadata document points at.
pub fn content_url(cache_base: &str, rel_url: &str) -> (r: String)
    ensures
        r@ == spec_content_url(cache_base@, rel_url@),
{
    let mut s = cache_base.to_owned();
    s.append("/");
    s.append(rel_url);
    s
}

/// One content fetch the resolver has decided on: the remote location and the
/// digest the body must hash to.
pub struct FetchRequest {
    pub url: String,
    pub expected_digest: String,
}

/// Decides how to obtain the metadata document of `id`: a document already
/// present is used as it is and nothing is fetched; an absent one is fetched
/// from its location under the cache base, with no digest check.
pub fn plan_metadata_fetch(present: bool, cache_base: &str, id: &str) -> (r: Option<String>)
    ensures
        present <==> r is None,
        !present ==> r->Some_0@ == spec_metadata_url(cache_base@, id@),
{
    if present {
        Option::None
    } else {
        Option::Some(metadata_url(cache_base, id))
    }
}

/// Decides how to obtain the content blob of a parsed metadata document: a
/// blob already present is kept and nothing is fetched; an absent one is
/// fetched from its location under the cache base and must hash to the
/// document's digest.
pub fn plan_content_fetch(present: bool, cache_base: &str, doc: &NarinfoDoc) -> (r: Option<
    FetchRequest,
>)
    ensures
        present <==> r is None,
        !present ==> r->Some_0.url@ == spec_content_url(cache_base@, doc.content_url@)
            && r->Some_0.expected_digest@ == doc.content_digest@,
{
    if present {
        Option::None
    } else {
        Option::Some(
            FetchRequest {
                url: content_url(cache_base, doc.content_url.as_str()),
                expected_digest: doc.content_digest.clone(),
            },
        )
    }
}

} // verus!

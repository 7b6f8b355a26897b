use vstd::prelude::*;

pub mod errors;
pub mod fetch;
pub mod narinfo;
pub mod resolver;
pub mod scheduler;
pub mod strutil;

pub use errors::ErrorKind;
pub use fetch::{content_digest, FetchGuard};
pub use narinfo::{parse_narinfo, NarinfoDoc};
pub use resolver::{
    content_path, content_url, metadata_path, metadata_url, plan_content_fetch,
    plan_metadata_fetch, FetchRequest,
};
pub use scheduler::Scheduler;

use strutil::{find_char, rfind_char, spec_find, spec_rfind};

verus! {

/// The package identifier carried by a token: everything before its first `-`,
/// or the whole token when it has none.
pub open spec fn spec_token_id(t: Seq<char>) -> Seq<char> {
    match spec_find(t, '-') {
        Option::None => t,
        Option::Some(i) => t.take(i),
    }
}

/// The final path component of `p`: everything after its last `/`,
/// or all of `p` when it has none.
pub open spec fn spec_final_component(p: Seq<char>) -> Seq<char> {
    match spec_rfind(p, '/') {
        Option::None => p,
        Option::Some(i) => p.skip(i + 1),
    }
}

/// The package identifier of a store-path-like string: the part of its final
/// path component before the first `-`.
pub open spec fn spec_store_path_id(p: Seq<char>) -> Seq<char> {
    spec_token_id(spec_final_component(p))
}

/// Extracts the narinfo hash part from a nix store filename: the prefix of
/// `filename` before its first `-`.
pub fn filename_to_narinfo_hash(filename: &str) -> (r: Result<&str, ErrorKind>)
    ensures
        r is Ok,
        r->Ok_0@ == spec_token_id(filename@),
{
    proof {
        strutil::lemma_spec_find(filename@, '-');
    }
    match find_char(filename, '-') {
        Option::Some(i) => Ok(filename.substring_char(0, i)),
        Option::None => Ok(filename),
    }
}

/// Extracts the narinfo hash from a nix store path: the part of its final
/// path component before the first `-`.
pub fn store_path_to_narinfo_hash(store_path: &str) -> (r: Result<&str, ErrorKind>)
    ensures
        r is Ok,
        r->Ok_0@ == spec_store_path_id(store_path@),
{
    let n = store_path.unicode_len();
    proof {
        strutil::lemma_spec_rfind(store_path@, '/');
    }
    let comp = match rfind_char(store_path, '/') {
        Option::Some(i) => store_path.substring_char(i + 1, n),
        Option::None => store_path,
    };
    filename_to_narinfo_hash(comp)
}

} // verus!

//! Serving the embedded single-page frontend.
//!
//! Any path that no API or login route matched is looked up among the
//! embedded assets; unknown paths fall back to `index.html` so client-side
//! routes survive a refresh.
use vstd::prelude::*;

use crate::text::{chars_of, string_of_range};

verus! {

/// The page served for every path that is not an asset.
pub const INDEX_FILE: &'static str = "index.html";

/// `s` with every leading `/` removed.
pub open spec fn strip_slashes(s: Seq<char>) -> Seq<char>
    decreases s.len(),
{
    if s.len() > 0 && s[0] == '/' {
        strip_slashes(s.drop_first())
    } else {
        s
    }
}

/// The asset path of a request path: leading slashes removed.
pub fn asset_path(uri_path: &str) -> (p: String)
    ensures
        p@ == strip_slashes(uri_path@),
{
    let v = chars_of(uri_path);
    let mut i: usize = 0;
    proof {
        assert(v@.subrange(0, v@.len() as int) =~= v@);
    }
    while i < v.len() && v[i] == '/'
        invariant
            i <= v@.len(),
            strip_slashes(v@.subrange(i as int, v@.len() as int)) == strip_slashes(v@),
        decreases v.len() - i,
    {
        assert(v@.subrange(i as int, v@.len() as int).drop_first() =~= v@.subrange(
            i + 1,
            v@.len() as int,
        ));
        i = i + 1;
    }
    string_of_range(v.as_slice(), i, v.len())
}

/// Which embedded file answers a request: the asset itself when the path
/// names one, otherwise the index page.
pub open spec fn served_file(path: Seq<char>, asset_exists: bool) -> Seq<char> {
    if path.len() > 0 && asset_exists {
        path
    } else {
        INDEX_FILE@
    }
}

/// Picks the embedded file for a request (see [`served_file`]);
/// `asset_exists` tells whether an asset of that path is embedded.
pub fn served_asset(path: &str, asset_exists: bool) -> (f: String)
    ensures
        f@ == served_file(path@, asset_exists),
        path@.len() > 0 && asset_exists ==> f@ == path@,
        path@.len() == 0 || !asset_exists ==> f@ == INDEX_FILE@,
{
    let v = chars_of(path);
    if v.len() > 0 && asset_exists {
        crate::text::string_of(v.as_slice())
    } else {
        crate::text::string_of(chars_of(INDEX_FILE).as_slice())
    }
}

/// Every embedded file is served under its own path, whatever the path;
/// the index page answers only an empty path or a path with no asset.
pub proof fn law_existing_assets_are_served(path: Seq<char>, asset_exists: bool)
    ensures
        path.len() > 0 && asset_exists ==> served_file(path, asset_exists) == path,
        path.len() == 0 || !asset_exists ==> served_file(path, asset_exists) == INDEX_FILE@,
{
}

} // verus!

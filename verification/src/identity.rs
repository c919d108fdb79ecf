//! The key of a series: a fixed-width text derived from its name, the same for
//! every spelling of the name that gives the same slug.

use crate::text::{hex_lower, hex_string, lemma_hex_lower_len};
use vstd::prelude::*;
use vstd::string::*;
use vstd::utf8::*;

verus! {

/// The slug that `slug::slugify` makes of a name.
pub uninterp spec fn slug_of(name: Seq<char>) -> Seq<char>;

/// The sixteen bytes that `md5::compute` makes of the given bytes.
pub uninterp spec fn md5_of(data: Seq<u8>) -> Seq<u8>;

/// Calls `slug::slugify`. The result is a function of the name alone; the
/// contract gives it its name and says nothing more of it.
#[verifier::external_body]
fn slugify(name: &str) -> (r: String)
    ensures
        r@ == slug_of(name@),
{
    slug::slugify(name)
}

/// Calls `md5::compute` and hands back the digest's bytes. The digest has
/// sixteen bytes and is a function of the input alone.
#[verifier::external_body]
fn md5_digest(data: &[u8]) -> (r: Vec<u8>)
    ensures
        r@ == md5_of(data@),
        r@.len() == 16,
{
    md5::compute(data).0.to_vec()
}

/// The key of the series with the given name: the digest of the name's slug,
/// in lower-case hex.
pub open spec fn series_key_of(name: Seq<char>) -> Seq<char> {
    hex_lower(md5_of(encode_utf8(slug_of(name))))
}

/// Computes the key of the series with the given name. Every name has a key.
pub fn series_key(name: &str) -> (r: String)
    ensures
        r@ == series_key_of(name@),
        r@.len() == 32,
{
    let slug = slugify(name);
    let digest = md5_digest(slug.as_str().as_bytes());
    proof {
        lemma_hex_lower_len(digest@);
    }
    hex_string(digest.as_slice())
}

/// Names with the same slug have the same key.
pub proof fn lemma_same_slug_same_key(a: Seq<char>, b: Seq<char>)
    requires
        slug_of(a) == slug_of(b),
    ensures
        series_key_of(a) == series_key_of(b),
{
}

} // verus!

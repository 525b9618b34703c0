//! Classification of references as remote addresses, and the stable identity
//! of a remote address.
//!
//! A reference string that parses as an absolute network address is Remote;
//! anything else is Local.  The parsed address is reduced to the plain values
//! the logic reads: its canonical serialization, its path part, and a 64-bit
//! hash of the canonical form that names the cached copy.

use vstd::prelude::*;

verus! {

/// What the logic reads of a parsed remote address.
#[derive(Debug, Clone)]
pub struct UrlParts {
    /// The canonical serialization of the address.
    pub canonical: String,
    /// The path part of the address, used for the file extension.
    pub path: String,
    /// The 64-bit identity hash of the canonical serialization.
    pub hash: u64,
}

/// What parsing a reference as a network address yields; a function of the
/// reference text alone.
pub uninterp spec fn parsed_url_of(link: Seq<char>) -> Option<UrlParts>;

/// Relies on `url::Url::parse` for classification and canonicalization, and
/// on `Url`'s `Hash` impl, which hashes only the canonical serialization
/// through std's `DefaultHasher` (fixed-key SipHash, the same in every
/// process of this build): all three parts depend on the link text alone.
#[verifier::external_body]
pub fn parse_url(link: &str) -> (r: Option<UrlParts>)
    ensures
        r == parsed_url_of(link@),
{
    match url::Url::parse(link) {
        Ok(u) => {
            let mut hasher = std::hash::DefaultHasher::new();
            std::hash::Hash::hash(&u, &mut hasher);
            let h = std::hash::Hasher::finish(&hasher);
            Some(
                UrlParts {
                    canonical: u.as_str().to_string(),
                    path: u.path().to_string(),
                    hash: h,
                },
            )
        },
        Err(_) => None,
    }
}

/// What the mime guesser answers for a path; a function of the path alone
/// (it reads only the extension, and falls back to a generic binary type).
pub uninterp spec fn mime_of(path: Seq<char>) -> Seq<char>;

/// Relies on `mime_guess::from_path` with `first_or_octet_stream`: the
/// guess depends on the path's extension alone, with
/// `application/octet-stream` for unknown extensions.
#[verifier::external_body]
pub fn guess_mime(path: &str) -> (r: String)
    ensures
        r@ == mime_of(path@),
{
    mime_guess::from_path(path).first_or_octet_stream().to_string()
}

/// What the file-name sanitizer makes of a chapter name; a function of the
/// name alone.
pub uninterp spec fn sanitized_of(name: Seq<char>) -> Seq<char>;

/// Relies on `sanitize_filename::sanitize` with its default options: the
/// result depends on the name alone.
#[verifier::external_body]
pub fn sanitize_name(name: &str) -> (r: String)
    ensures
        r@ == sanitized_of(name@),
{
    sanitize_filename::sanitize(name)
}

} // verus!

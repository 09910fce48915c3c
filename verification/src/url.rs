//! Giving a target URL its scheme.

use vstd::prelude::*;

verus! {

/// Whether the URL already begins with `https://` or `http://`.
pub open spec fn has_scheme(url: Seq<char>) -> bool {
    "https://"@.is_prefix_of(url) || "http://"@.is_prefix_of(url)
}

/// The URL that a run targets: the given one if it is forced or already has
/// a scheme, and the given one behind `https://` otherwise.
pub open spec fn normalised(url: Seq<char>, force_url: bool) -> Seq<char> {
    if force_url || has_scheme(url) {
        url
    } else {
        "https://"@ + url
    }
}

/// A URL that was not forced has a scheme once it is normalised.
pub proof fn lemma_normalised_has_scheme(url: Seq<char>)
    ensures
        has_scheme(normalised(url, false)),
{
    if !has_scheme(url) {
        assert(("https://"@ + url).subrange(0, "https://"@.len() as int) =~= "https://"@);
    }
}

/// Normalising twice gives what normalising once gives.
pub proof fn lemma_normalise_idempotent(url: Seq<char>, force_url: bool)
    ensures
        normalised(normalised(url, force_url), force_url) == normalised(url, force_url),
{
    if !force_url {
        lemma_normalised_has_scheme(url);
    }
}

/// Whether `s` begins with `prefix`.
fn starts_with(s: &str, prefix: &str) -> (found: bool)
    ensures
        found == prefix@.is_prefix_of(s@),
{
    let n = prefix.unicode_len();
    if s.unicode_len() < n {
        return false;
    }
    let mut i: usize = 0;
    while i < n
        invariant
            i <= n,
            n == prefix@.len(),
            n <= s@.len(),
            forall|j: int| 0 <= j < i ==> s@[j] == prefix@[j],
        decreases n - i,
    {
        if s.get_char(i) != prefix.get_char(i) {
            assert(s@.subrange(0, n as int)[i as int] != prefix@[i as int]);
            return false;
        }
        i = i + 1;
    }
    assert(s@.subrange(0, n as int) =~= prefix@);
    true
}

/// Puts `https://` in front of a URL that has neither `https://` nor
/// `http://` at its start. A forced URL is returned as it is.
pub fn normalise_url(url: String, force_url: bool) -> (result: String)
    ensures
        result@ == normalised(url@, force_url),
{
    if force_url {
        url
    } else if starts_with(url.as_str(), "https://") || starts_with(url.as_str(), "http://") {
        url
    } else {
        String::from_str("https://").concat(url.as_str())
    }
}

} // verus!

use vstd::prelude::*;

verus! {

/// The sequence of characters that `str::to_lowercase` produces for a given
/// input. Unicode case folding is far too large to restate here; the result
/// is a function of the input characters alone, so it only gets a name.
pub uninterp spec fn lower_of(s: Seq<char>) -> Seq<char>;

/// Relies on str::to_lowercase: the lowercase equivalent of the string,
/// determined by its characters alone.
#[verifier::external_body]
pub(crate) fn to_lower(s: &str) -> (r: String)
    ensures
        r@ == lower_of(s@),
{
    s.to_lowercase()
}

/// Relies on str::starts_with: true exactly when the second string is a
/// prefix of the first.
#[verifier::external_body]
pub(crate) fn str_starts_with(s: &str, prefix: &str) -> (r: bool)
    ensures
        r == prefix@.is_prefix_of(s@),
{
    s.starts_with(prefix)
}

} // verus!

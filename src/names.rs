use vstd::prelude::*;
use vstd::string::StringExecFns;
use heck::{CamelCase, MixedCase, ShoutySnakeCase};

verus! {

/// Why a filter could not render a type.
#[derive(Debug, PartialEq, Eq, Clone, Copy, Structural)]
pub enum EmitError {
    /// The filter has no rendering for this type yet.
    UnsupportedType,
}


/// What heck's `to_camel_case` (UpperCamelCase) makes of a string.
pub uninterp spec fn camel_case_of(s: Seq<char>) -> Seq<char>;

/// What heck's `to_mixed_case` (lowerCamelCase) makes of a string.
pub uninterp spec fn mixed_case_of(s: Seq<char>) -> Seq<char>;

/// What heck's `to_shouty_snake_case` (SHOUTY_SNAKE_CASE) makes of a string.
pub uninterp spec fn shouty_snake_case_of(s: Seq<char>) -> Seq<char>;

/// Relies on heck's `CamelCase::to_camel_case`: the result depends on the
/// characters of `s` alone.
#[verifier::external_body]
pub(crate) fn to_camel_case(s: &str) -> (r: String)
    ensures
        r@ == camel_case_of(s@),
{
    s.to_camel_case()
}

/// Relies on heck's `MixedCase::to_mixed_case`: the result depends on the
/// characters of `s` alone.
#[verifier::external_body]
pub(crate) fn to_mixed_case(s: &str) -> (r: String)
    ensures
        r@ == mixed_case_of(s@),
{
    s.to_mixed_case()
}

/// Relies on heck's `ShoutySnakeCase::to_shouty_snake_case`: the result
/// depends on the characters of `s` alone.
#[verifier::external_body]
pub(crate) fn to_shouty_snake_case(s: &str) -> (r: String)
    ensures
        r@ == shouty_snake_case_of(s@),
{
    s.to_shouty_snake_case()
}

/// `a` followed by `b`.
pub fn concat(a: &str, b: &str) -> (r: String)
    ensures
        r@ == a@ + b@,
{
    let mut s = a.to_owned();
    s.append(b);
    s
}

} // verus!

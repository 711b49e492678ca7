//! The boundary to the route-recognizer engine: the router and parameter
//! types it owns, names for what they hold and for what recognition
//! returns, and the calls the routing logic makes.

use vstd::prelude::*;

verus! {

/// The recognizer engine, held behind an opaque wrapper; what it holds is
/// known only through `router_entries`.
#[verifier::external_body]
pub struct Recognizer {
    inner: route_recognizer::Router<usize>,
}

/// The parameters a successful match captured, as the recognizer holds
/// them.
#[verifier::external_type_specification]
#[verifier::external_body]
pub struct ExParams(route_recognizer::Params);

/// The string is free of U+0000.  The recognizer subtracts one from each
/// character's code to index its transition sets, which panics on U+0000 in
/// builds with overflow checks, so patterns and paths must leave it out.
pub open spec fn no_nul(s: Seq<char>) -> bool {
    forall|i: int| 0 <= i < s.len() ==> #[trigger] s[i] != '\u{0}'
}

/// What the recognizer router holds: the (pattern, handler) pairs handed to
/// `add`, in insertion order.
pub uninterp spec fn router_entries(r: Recognizer) -> Seq<(Seq<char>, usize)>;

/// What recognizing a path against a router yields: a stored handler and
/// the captured key/value parameters, or nothing when no pattern matches.
/// The outcome is a function of the router's contents and the path alone.
pub uninterp spec fn recognition(r: Recognizer, path: Seq<char>) -> Option<
    (usize, Seq<(Seq<char>, Seq<char>)>),
>;

/// What a parameter set holds: its key/value pairs, in the iteration order
/// of the recognizer's sorted map, a function of the contents alone.
pub uninterp spec fn params_entries(p: route_recognizer::Params) -> Seq<(Seq<char>, Seq<char>)>;

/// Relies on route_recognizer::Router::new: a fresh router holds no routes.
#[verifier::external_body]
pub(crate) fn recognizer_new() -> (r: Recognizer)
    ensures
        router_entries(r) =~= Seq::<(Seq<char>, usize)>::empty(),
{
    Recognizer { inner: route_recognizer::Router::new() }
}

/// Relies on route_recognizer::Router::add: stores the pattern with its
/// handler.  Only ASCII patterns free of U+0000 are passed in: `add` indexes
/// into the pattern bytewise, and its character classes subtract one from
/// each character's code.
#[verifier::external_body]
pub(crate) fn recognizer_add(r: &mut Recognizer, pattern: &str, handler: usize)
    requires
        pattern.is_ascii(),
        no_nul(pattern@),
    ensures
        router_entries(*final(r)) =~= router_entries(*old(r)).push((pattern@, handler)),
{
    r.inner.add(pattern, handler);
}

/// Relies on route_recognizer::Router::recognize: matches the path against
/// the stored patterns; a successful match hands back one of the stored
/// handlers together with the captured parameters.  The path must be free
/// of U+0000, which the matcher's character classes cannot take.
#[verifier::external_body]
pub(crate) fn recognizer_recognize(r: &Recognizer, path: &str) -> (res: Option<
    (usize, route_recognizer::Params),
>)
    requires
        no_nul(path@),
    ensures
        match res {
            Some((h, p)) => recognition(*r, path@) == Some((h, params_entries(p))) && exists|i: int|
                0 <= i < router_entries(*r).len() && (#[trigger] router_entries(*r)[i]).1 == h,
            None => recognition(*r, path@) is None,
        },
{
    match r.inner.recognize(path) {
        Ok(m) => Some((**m.handler(), m.params().clone())),
        Err(_) => None,
    }
}

/// Relies on route_recognizer::Params::iter: hands the captured parameters
/// out as plain key/value pairs; the keys are distinct, since the
/// recognizer keeps them as the keys of a map.
#[verifier::external_body]
pub(crate) fn params_pairs(p: &route_recognizer::Params) -> (r: Vec<(String, String)>)
    ensures
        r@.len() == params_entries(*p).len(),
        forall|i: int|
            0 <= i < r@.len() ==> ((#[trigger] r@[i]).0@, r@[i].1@) == params_entries(*p)[i],
        forall|i: int, j: int|
            0 <= i < j < r@.len() ==> (#[trigger] r@[i]).0@ != (#[trigger] r@[j]).0@,
{
    p.iter().map(|(k, v)| (k.to_string(), v.to_string())).collect()
}

} // verus!

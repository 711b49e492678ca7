//! User-supplied validation of field values: a form field carries a
//! validation function that maps the field's current value either to `None`
//! (the value is acceptable) or to the message to show for it.

use vstd::prelude::*;

verus! {

/// A validation function over a field value of type `V`.  Whatever the
/// wrapped function promises of its result holds of what `validate`
/// returns.
pub struct ValidationFn<V, F> where F: Fn(V) -> Option<String> {
    func: F,
    value_marker: core::marker::PhantomData<V>,
}

impl<V, F> ValidationFn<V, F> where F: Fn(V) -> Option<String> {
    /// The wrapped function.
    pub closed spec fn spec_func(self) -> F {
        self.func
    }

    /// Run the validation function on a value: `None` means the value is
    /// acceptable, `Some` carries the message for it.
    pub fn validate(&self, i: V) -> (r: Option<String>)
        requires
            call_requires(self.spec_func(), (i,)),
        ensures
            call_ensures(self.spec_func(), (i,), r),
    {
        (self.func)(i)
    }
}

impl<V, F> From<F> for ValidationFn<V, F> where
    F: Fn(V) -> Option<String>
{
    /// Wrap a function as a validation function.
    fn from(f: F) -> (r: ValidationFn<V, F>) {
        ValidationFn { func: f, value_marker: core::marker::PhantomData }
    }
}

impl<V, F> vstd::std_specs::convert::FromSpecImpl<F> for ValidationFn<V, F> where
    F: Fn(V) -> Option<String>
{
    open spec fn obeys_from_spec() -> bool {
        true
    }

    closed spec fn from_spec(f: F) -> Self {
        ValidationFn { func: f, value_marker: core::marker::PhantomData }
    }
}

/// What `from` wraps is what `validate` runs: converting a function gives
/// a validation function whose wrapped function is exactly that function.
pub proof fn lemma_from_wraps<V, F>(f: F) where
    F: Fn(V) -> Option<String>

    ensures
        (<ValidationFn<V, F> as vstd::std_specs::convert::FromSpec<F>>::from_spec(
            f,
        )).spec_func() == f,
{
}

impl<V, F> PartialEq for ValidationFn<V, F> where
    F: Fn(V) -> Option<String>
{
    /// Validation functions are opaque values: any two compare equal, so a
    /// configuration that differs only in its validation function does not
    /// count as changed.
    fn eq(&self, _other: &ValidationFn<V, F>) -> bool {
        true
    }
}

impl<V, F> vstd::std_specs::cmp::PartialEqSpecImpl for ValidationFn<V, F> where
    F: Fn(V) -> Option<String>
{
    open spec fn obeys_eq_spec() -> bool {
        true
    }

    open spec fn eq_spec(&self, _other: &ValidationFn<V, F>) -> bool {
        true
    }
}

} // verus!

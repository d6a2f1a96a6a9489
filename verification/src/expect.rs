//! The default expect handler: it accepts every request that announces an
//! expectation, passing it through unchanged.

use core::marker::PhantomData;
use vstd::prelude::*;

verus! {

/// Passes requests through unconditionally. The type parameter ties the
/// handler to the service factory whose error type it reports.
pub struct ExpectHandler<F>(pub PhantomData<F>);

impl<F> ExpectHandler<F> {
    pub fn new() -> (r: Self)
        ensures
            r == (ExpectHandler::<F>(PhantomData)),
    {
        ExpectHandler(PhantomData)
    }

    /// Building the service always succeeds and yields a fresh handler.
    pub fn new_service(&self) -> (r: Result<ExpectHandler<F>, ()>)
        ensures
            r == Result::<ExpectHandler<F>, ()>::Ok(ExpectHandler(PhantomData)),
    {
        Ok(Self::new())
    }

    /// The handler is always ready.
    pub fn ready(&self) -> (r: Result<(), ()>)
        ensures
            r is Ok,
    {
        Ok(())
    }

    /// Accept the expectation: the request comes back unchanged.
    pub fn call<Req>(&self, req: Req) -> (r: Result<Req, ()>)
        ensures
            r == Result::<Req, ()>::Ok(req),
    {
        Ok(req)
    }
}

impl<F> Default for ExpectHandler<F> {
    /// The default handler is the pass-through handler.
    fn default() -> (r: Self)
        ensures
            r == (ExpectHandler::<F>(PhantomData)),
    {
        Self::new()
    }
}

} // verus!

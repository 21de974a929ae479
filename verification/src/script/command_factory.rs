//! Command factories: what a registered command name makes commands with.
use crate::script::command::BoxedCommand;
use crate::value::PtrValue;
use vstd::prelude::*;

verus! {

/// Makes a command from the arguments of a call.
pub trait CommandFactory: Send + Sync {
    /// Whether this factory may make `r` of `args`; a factory that says
    /// nothing of what it makes may make anything.
    open spec fn creates(&self, args: Vec<PtrValue>, r: Result<BoxedCommand, String>) -> bool {
        true
    }

    /// The command for `args`, or why none can be made.
    fn create(&self, args: Vec<PtrValue>) -> (r: Result<BoxedCommand, String>)
        ensures
            self.creates(args, r),
    ;
}

/// A command factory of any type.
pub type BoxedCommandFactory = Box<dyn CommandFactory>;

/// A command factory made of a closure.
pub struct ClosureFactory<F: Fn(Vec<PtrValue>) -> Result<BoxedCommand, String> + Send + Sync> {
    f: F,
}

impl<F: Fn(Vec<PtrValue>) -> Result<BoxedCommand, String> + Send + Sync> ClosureFactory<F> {
    #[verifier::type_invariant]
    spec fn callable(self) -> bool {
        forall|args: Vec<PtrValue>| self.f.requires((args,))
    }

    /// The closure that makes the commands.
    pub closed spec fn function(self) -> F {
        self.f
    }
}

impl<F: Fn(Vec<PtrValue>) -> Result<BoxedCommand, String> + Send + Sync> CommandFactory for ClosureFactory<F> {
    /// What the closure may give for `args`.
    open spec fn creates(&self, args: Vec<PtrValue>, r: Result<BoxedCommand, String>) -> bool {
        self.function().ensures((args,), r)
    }

    fn create(&self, args: Vec<PtrValue>) -> (r: Result<BoxedCommand, String>)
        ensures
            self.function().ensures((args,), r),
    {
        proof {
            use_type_invariant(self);
        }
        (self.f)(args)
    }
}

/// The command factory that calls `f`.
pub fn closure_factory<F: Fn(Vec<PtrValue>) -> Result<BoxedCommand, String> + Send + Sync + 'static>(f: F) -> (r: Box<ClosureFactory<F>>)
    requires
        forall|args: Vec<PtrValue>| f.requires((args,)),
    ensures
        r.function() == f,
{
    Box::new(ClosureFactory { f })
}

} // verus!

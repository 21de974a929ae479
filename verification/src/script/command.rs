//! Commands: units of work that scripts queue for the engine's world.
use crate::value::{Datum, PtrValue, Value};
use bevy::ecs::world::World;
use std::sync::Arc;
use vstd::prelude::*;

verus! {

#[verifier::external_type_specification]
#[verifier::external_body]
pub struct ExWorld(World);

/// What a command reports: a value on success, a value describing the
/// failure, or that it could not run yet.
#[derive(Debug)]
pub enum CommandResult {
    Success(PtrValue),
    Error(PtrValue),
    Pending,
}

/// The shape of a `CommandResult`.
pub enum Outcome {
    Success(Datum),
    Error(Datum),
    Pending,
}

impl View for CommandResult {
    type V = Outcome;

    open spec fn view(&self) -> Outcome {
        match self {
            CommandResult::Success(v) => Outcome::Success(v@),
            CommandResult::Error(v) => Outcome::Error(v@),
            CommandResult::Pending => Outcome::Pending,
        }
    }
}

impl CommandResult {
    /// A copy of this result.
    pub fn duplicate(&self) -> (r: CommandResult)
        ensures
            r@ == self@,
    {
        match self {
            CommandResult::Success(v) => CommandResult::Success(Arc::new(v.deep_clone())),
            CommandResult::Error(v) => CommandResult::Error(Arc::new(v.deep_clone())),
            CommandResult::Pending => CommandResult::Pending,
        }
    }

    /// An error result carrying `message` as a string.
    pub fn error_message(message: String) -> (r: CommandResult)
        ensures
            r@ == Outcome::Error(Datum::Str(message@)),
    {
        CommandResult::Error(Arc::new(Value::String(message)))
    }
}

/// A unit of work on the world.
///
/// `validate` checks the command's preconditions with read access; only
/// when it succeeds does `execute` run with write access.
pub trait Command: Send + Sync {
    /// Whether validating this command in `world` may give `r`; a command
    /// that says nothing of its validation may give anything.
    open spec fn validates_to(&self, world: World, r: Result<(), String>) -> bool {
        true
    }

    /// Whether running this command on the world `pre` may give `r` and
    /// leave the world `post`; a command that says nothing of its execution
    /// may give and leave anything.
    open spec fn executes_to(&self, pre: World, post: World, r: Outcome) -> bool {
        true
    }

    /// `Ok(())` when the command can run, or the reason why not.
    fn validate(&self, world: &World) -> (r: Result<(), String>)
        ensures
            self.validates_to(*world, r),
    ;

    /// Runs the command.
    fn execute(&self, world: &mut World) -> (r: CommandResult)
        ensures
            self.executes_to(*old(world), *final(world), r@),
    ;
}

/// A command of any type.
pub type BoxedCommand = Box<dyn Command>;

impl Command for Box<dyn Command> {
    open spec fn validates_to(&self, world: World, r: Result<(), String>) -> bool {
        (**self).validates_to(world, r)
    }

    open spec fn executes_to(&self, pre: World, post: World, r: Outcome) -> bool {
        (**self).executes_to(pre, post, r)
    }

    fn validate(&self, world: &World) -> Result<(), String> {
        (**self).validate(world)
    }

    fn execute(&self, world: &mut World) -> CommandResult {
        (**self).execute(world)
    }
}

/// `command` as a `BoxedCommand`.
pub fn boxed<C: Command + 'static>(command: C) -> (r: BoxedCommand) {
    Box::new(command)
}

/// A command made of a validating and an executing closure.
pub struct FnCommand<
    V: Fn(&World) -> Result<(), String> + Send + Sync,
    E: Fn(&mut World) -> CommandResult + Send + Sync,
> {
    validate_fn: V,
    execute_fn: E,
}

impl<
    V: Fn(&World) -> Result<(), String> + Send + Sync,
    E: Fn(&mut World) -> CommandResult + Send + Sync,
> FnCommand<V, E> {
    #[verifier::type_invariant]
    spec fn callable(self) -> bool {
        &&& forall|w: &World| self.validate_fn.requires((w,))
        &&& forall|w: &mut World| self.execute_fn.requires((w,))
    }

    /// The closure that validates.
    pub closed spec fn validator(self) -> V {
        self.validate_fn
    }

    /// The closure that executes.
    pub closed spec fn executor(self) -> E {
        self.execute_fn
    }
}

impl<
    V: Fn(&World) -> Result<(), String> + Send + Sync,
    E: Fn(&mut World) -> CommandResult + Send + Sync,
> Command for FnCommand<V, E> {
    /// What the validating closure may give for `world`.
    open spec fn validates_to(&self, world: World, r: Result<(), String>) -> bool {
        self.validator().ensures((&world,), r)
    }

    /// What one run of the executing closure on `pre` may give.
    open spec fn executes_to(&self, pre: World, post: World, r: Outcome) -> bool {
        exists|w: &mut World, res: CommandResult| *w == pre && res@ == r && self.executor().ensures((w,), res)
    }

    /// What the validating closure gives for `world`.
    fn validate(&self, world: &World) -> (r: Result<(), String>)
        ensures
            self.validator().ensures((world,), r),
    {
        proof {
            use_type_invariant(self);
        }
        (self.validate_fn)(world)
    }

    /// Runs the executing closure on `world`: the result and the world's end
    /// state are those of one run of the closure on the world as it was.
    fn execute(&self, world: &mut World) -> (r: CommandResult)
        ensures
            exists|w: &mut World|
                *w == *old(world) && *final(w) == *final(world) && self.executor().ensures((w,), r),
    {
        proof {
            use_type_invariant(self);
        }
        let r = (self.execute_fn)(world);
        proof {
            assert(exists|w: &mut World| *w == *old(world) && self.execute_fn.ensures((w,), r));
            let w = choose|w: &mut World| *w == *old(world) && self.execute_fn.ensures((w,), r);
            assert(*w == *old(world) && r@ == r@ && self.executor().ensures((w,), r));
        }
        r
    }
}

/// A command whose `validate` is `validate` and whose `execute` is
/// `execute`.
pub fn command_fn<
    V: Fn(&World) -> Result<(), String> + Send + Sync,
    E: Fn(&mut World) -> CommandResult + Send + Sync,
>(validate: V, execute: E) -> (r: FnCommand<V, E>)
    requires
        forall|w: &World| validate.requires((w,)),
        forall|w: &mut World| execute.requires((w,)),
    ensures
        r.validator() == validate,
        r.executor() == execute,
{
    FnCommand { validate_fn: validate, execute_fn: execute }
}

} // verus!

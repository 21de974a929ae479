//! The command system: commands, their factories and registry, the buffer
//! they wait in, the promises of their results, and the step that runs them.
mod command;
mod command_buffer;
mod command_factory;
mod command_promise;
mod command_registry;

pub use command::{boxed, command_fn, BoxedCommand, Command, CommandResult, FnCommand, Outcome};
pub use command_buffer::{lemma_queue_keeps_order, CommandBuffer, QueuedCommand};
pub use command_factory::{closure_factory, BoxedCommandFactory, ClosureFactory, CommandFactory};
pub use command_promise::{
    lemma_resolved_result_is_stable, lemma_unresolved_wait_ends, wait_step_spec, PromiseState, WaitStep,
    WaitStepView,
};
pub use command_registry::{
    creation_failed, creation_failed_message, enqueue_created, unknown_command, unknown_command_message, CommandRegistry,
};

use crate::value::Datum;
use bevy::ecs::world::World;
use vstd::prelude::*;

verus! {

/// How long the REPL waits for a command's result, in milliseconds.
pub struct ReplTimeout(pub u64);

impl Default for ReplTimeout {
    /// Five seconds.
    fn default() -> (r: Self)
        ensures
            r.0 == 5000,
    {
        ReplTimeout(5000)
    }
}

/// How long a command called as a Clojure function waits for its result, in
/// milliseconds.
pub struct CommandFunctionTimeout(pub u64);

impl Default for CommandFunctionTimeout {
    /// Five seconds.
    fn default() -> (r: Self)
        ensures
            r.0 == 5000,
    {
        CommandFunctionTimeout(5000)
    }
}

/// What becomes of a queued command once the engine has run it: its
/// resolver receives a result, or the command goes back to the buffer.
pub enum Dispatch<C, R> {
    Resolve(R, CommandResult),
    Requeue(C, R),
}

/// What a validation decides: `None` lets the command run; a refusal
/// becomes an error result carrying the reason.
pub fn settle_validation(validation: Result<(), String>) -> (r: Option<CommandResult>)
    ensures
        validation is Ok ==> r is None,
        validation matches Err(reason) ==> r matches Some(res) && res@ == Outcome::Error(
            crate::value::Datum::Str(reason@),
        ),
{
    match validation {
        Ok(()) => None,
        Err(reason) => Some(CommandResult::error_message(reason)),
    }
}

/// What an execution decides: a success or an error is delivered as it is;
/// `None` means the command is still pending and runs again later.
pub fn settle_execution(result: CommandResult) -> (r: Option<CommandResult>)
    ensures
        result is Pending ==> r is None,
        !(result is Pending) ==> r == Some(result),
{
    match result {
        CommandResult::Pending => None,
        other => Some(other),
    }
}

/// What running one queued command does, from the world `pre` to the world
/// `post`: it is validated in `pre`; a refusal leaves the world as it was and
/// resolves the command's resolver with an error carrying the reason; after
/// a successful validation it is executed once from `pre` to `post`, and a
/// success or an error is delivered to its resolver as it is, while a
/// pending command goes back to the buffer with its resolver.
pub open spec fn runs_as<C: Command, R>(command: C, resolver: R, pre: World, post: World, d: Dispatch<C, R>) -> bool {
    exists|v: Result<(), String>|
        #[trigger] command.validates_to(pre, v) && (match v {
            Err(reason) => post == pre && (d matches Dispatch::Resolve(r, res) && r == resolver && res@
                == Outcome::Error(Datum::Str(reason@))),
            Ok(()) => exists|o: Outcome|
                #[trigger] command.executes_to(pre, post, o) && (match o {
                    Outcome::Pending => d matches Dispatch::Requeue(c, r) && c == command && r == resolver,
                    _ => d matches Dispatch::Resolve(r, res) && r == resolver && res@ == o,
                }),
        })
}

/// The worlds that running `commands` one after the other passes through,
/// from `first` to `last`, with what became of each command.
pub open spec fn runs_through<C: Command, R>(
    commands: Seq<(C, R)>,
    out: Seq<Dispatch<C, R>>,
    worlds: Seq<World>,
) -> bool {
    &&& out.len() == commands.len()
    &&& worlds.len() == commands.len() + 1
    &&& forall|i: int|
        0 <= i < commands.len() ==> runs_as(commands[i].0, commands[i].1, worlds[i], worlds[i + 1], #[trigger] out[i])
}

/// Runs one queued command against `world`: validates it and, only when it
/// is valid, executes it. The result is what the command's resolver is to
/// receive, or the command and its resolver back when it is still pending.
pub fn process_command<C: Command, R>(command: C, resolver: R, world: &mut World) -> (d: Dispatch<C, R>)
    ensures
        runs_as(command, resolver, *old(world), *final(world), d),
        d matches Dispatch::Requeue(c, r) ==> c == command && r == resolver && command.validates_to(
            *old(world),
            Ok(()),
        ) && command.executes_to(*old(world), *final(world), Outcome::Pending),
        d matches Dispatch::Resolve(r, res) ==> r == resolver && !(res@ is Pending) && ((exists|reason: String|
            command.validates_to(*old(world), Err(reason)) && res@ == Outcome::Error(Datum::Str(reason@))
                && *final(world) == *old(world)) || (command.validates_to(*old(world), Ok(()))
            && command.executes_to(*old(world), *final(world), res@))),
{
    let ghost pre = *world;
    let validation = command.validate(world);
    let ghost v = validation;
    let dispatch = match settle_validation(validation) {
        Some(refusal) => {
            proof {
                let reason = v->Err_0;
                assert(command.validates_to(pre, Err(reason)) && refusal@ == Outcome::Error(Datum::Str(reason@)));
            }
            Dispatch::Resolve(resolver, refusal)
        },
        None => {
            assert(v is Ok);
            assert(v == Ok::<(), String>(v->Ok_0));
            let result = command.execute(world);
            let ghost o = result@;
            assert(command.executes_to(pre, *world, o));
            match settle_execution(result) {
                Some(result) => Dispatch::Resolve(resolver, result),
                None => Dispatch::Requeue(command, resolver),
            }
        },
    };
    assert(command.validates_to(pre, v));
    dispatch
}

/// A valid command whose execution can only give the outcome `out` has
/// `out` delivered to its resolver when `out` is a success or an error, and
/// goes back to the buffer with its resolver when `out` is pending.
pub proof fn lemma_outcome_decides_dispatch<C: Command, R>(
    command: C,
    resolver: R,
    pre: World,
    post: World,
    d: Dispatch<C, R>,
    out: Outcome,
)
    requires
        runs_as(command, resolver, pre, post, d),
        forall|v: Result<(), String>| command.validates_to(pre, v) ==> v == Ok::<(), String>(()),
        forall|o: Outcome| command.executes_to(pre, post, o) ==> o == out,
    ensures
        out is Pending ==> (d matches Dispatch::Requeue(c, r) && c == command && r == resolver),
        !(out is Pending) ==> (d matches Dispatch::Resolve(r, res) && r == resolver && res@ == out),
{
}

/// A command whose validation can only refuse, with `reason`, never runs:
/// the world stays as it was and its resolver receives an error carrying
/// the reason.
pub proof fn lemma_refusal_is_delivered<C: Command, R>(
    command: C,
    resolver: R,
    pre: World,
    post: World,
    d: Dispatch<C, R>,
    reason: String,
)
    requires
        runs_as(command, resolver, pre, post, d),
        forall|v: Result<(), String>| command.validates_to(pre, v) ==> v == Err::<(), String>(reason),
    ensures
        post == pre,
        d matches Dispatch::Resolve(r, res) && r == resolver && res@ == Outcome::Error(Datum::Str(reason@)),
{
}

/// Runs the drained commands in order against `world`: each is validated,
/// and only a valid one is executed. Every command either has its resolver
/// receive a success or an error, or, when it is still pending, goes back to
/// the buffer with its resolver; the outcomes come in the commands' order.
/// With no commands, the world is left as it was.
pub fn process_commands<C: Command, R>(commands: Vec<(C, R)>, world: &mut World) -> (out: Vec<Dispatch<C, R>>)
    ensures
        exists|worlds: Seq<World>|
            #[trigger] runs_through(commands@, out@, worlds) && worlds[0] == *old(world) && worlds.last()
                == *final(world),
{
    let ghost all = commands@;
    let n = commands.len();
    let ghost mut worlds: Seq<World> = seq![*world];
    let mut rest = commands;
    let mut out: Vec<Dispatch<C, R>> = Vec::new();
    let mut i: usize = 0;
    while rest.len() > 0
        invariant
            0 <= i <= all.len(),
            n == all.len(),
            rest@.len() == all.len() - i,
            forall|j: int| 0 <= j < rest@.len() ==> #[trigger] rest@[j] == all[i + j],
            out.len() == i,
            worlds.len() == i + 1,
            worlds[0] == *old(world),
            worlds.last() == *world,
            forall|j: int| 0 <= j < i ==> runs_as(all[j].0, all[j].1, worlds[j], worlds[j + 1], #[trigger] out@[j]),
        decreases rest.len(),
    {
        let ghost before = rest@;
        let ghost pre = *world;
        let (command, resolver) = rest.remove(0);
        assert(command == all[i as int].0 && resolver == all[i as int].1);
        assert forall|j: int| 0 <= j < rest@.len() implies #[trigger] rest@[j] == all[i + 1 + j] by {
            assert(rest@[j] == before[j + 1]);
        }
        let dispatch = process_command(command, resolver, world);
        let ghost d = dispatch;
        let ghost out_before = out@;
        out.push(dispatch);
        assert(out@ == out_before.push(d));
        proof {
            worlds = worlds.push(*world);
        }
        i += 1;
    }
    assert(runs_through(all, out@, worlds));
    out
}

} // verus!

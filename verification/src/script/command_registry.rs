//! The registry of command names and the factories that make their commands.
use crate::registry::NameMap;
use crate::script::command::BoxedCommand;
use crate::script::command_buffer::CommandBuffer;
use crate::script::command_factory::BoxedCommandFactory;
use crate::value::PtrValue;
use vstd::prelude::*;

verus! {

/// The message for a call of a name that no factory is registered under.
pub open spec fn unknown_command_message(name: Seq<char>) -> Seq<char> {
    "Unknown command: '"@ + name + "'"@
}

/// The message for a factory that could not make its command.
pub open spec fn creation_failed_message(name: Seq<char>, reason: Seq<char>) -> Seq<char> {
    "Failed to create command '"@ + name + "': "@ + reason
}

/// `Unknown command: '<name>'`.
pub fn unknown_command(name: &str) -> (r: String)
    ensures
        r@ == unknown_command_message(name@),
{
    let mut m = String::from_str("Unknown command: '");
    m.append(name);
    m.append("'");
    m
}

/// `Failed to create command '<name>': <reason>`.
pub fn creation_failed(name: &str, reason: &str) -> (r: String)
    ensures
        r@ == creation_failed_message(name@, reason@),
{
    let mut m = String::from_str("Failed to create command '");
    m.append(name);
    m.append("': ");
    m.append(reason);
    m
}

/// Queues what the factory of `name` made of a call: a command goes last
/// into `buffer` with `resolver` to receive its result; a refusal queues
/// nothing and gives the message for it.
pub fn enqueue_created<R>(
    name: &str,
    created: Result<BoxedCommand, String>,
    buffer: &mut CommandBuffer<R>,
    resolver: R,
) -> (r: Result<(), String>)
    ensures
        match created {
            Ok(command) => r is Ok && final(buffer)@.len() == old(buffer)@.len() + 1 && final(buffer)@.drop_last()
                == old(buffer)@ && final(buffer)@.last().0 == command && final(buffer)@.last().1 == resolver,
            Err(reason) => r matches Err(m) && m@ == creation_failed_message(name@, reason@) && final(buffer)@
                == old(buffer)@,
        },
{
    match created {
        Ok(command) => {
            let item = (command, resolver);
            let ghost queued = item;
            buffer.push_queued(item);
            assert(buffer@.drop_last() =~= old(buffer)@);
            assert(queued.0 == command && queued.1 == resolver);
            Ok(())
        },
        Err(reason) => Err(creation_failed(name, reason.as_str())),
    }
}

/// The command factories, by command name.
pub struct CommandRegistry {
    factories: NameMap<BoxedCommandFactory>,
}

impl View for CommandRegistry {
    type V = Map<Seq<char>, BoxedCommandFactory>;

    closed spec fn view(&self) -> Map<Seq<char>, BoxedCommandFactory> {
        self.factories@
    }
}

impl CommandRegistry {
    /// A registry with no commands.
    pub fn new() -> (r: Self)
        ensures
            r@ == Map::<Seq<char>, BoxedCommandFactory>::empty(),
    {
        CommandRegistry { factories: NameMap::new() }
    }

    /// Registers `factory` under `name`, replacing any factory of that name.
    pub fn register(&mut self, name: &str, factory: BoxedCommandFactory)
        ensures
            final(self)@ == old(self)@.insert(name@, factory),
    {
        self.factories.insert(String::from_str(name), factory);
    }

    /// Makes the command that `name` stands for from `args` and queues it in
    /// `buffer`, with `resolver` to receive its result. A name without a
    /// factory, or a factory that fails, queues nothing and gives the reason.
    pub fn execute_with_resolver<R>(
        &self,
        name: &str,
        args: Vec<PtrValue>,
        buffer: &mut CommandBuffer<R>,
        resolver: R,
    ) -> (r: Result<(), String>)
        ensures
            !self@.contains_key(name@) ==> (r matches Err(m) && m@ == unknown_command_message(name@)
                && final(buffer)@ == old(buffer)@),
            self@.contains_key(name@) ==> exists|made: Result<BoxedCommand, String>|
                #[trigger] self@[name@].creates(args, made) && match made {
                    Ok(command) => r is Ok && final(buffer)@.len() == old(buffer)@.len() + 1
                        && final(buffer)@.drop_last() == old(buffer)@ && final(buffer)@.last().0 == command
                        && final(buffer)@.last().1 == resolver,
                    Err(reason) => r matches Err(m) && m@ == creation_failed_message(name@, reason@)
                        && final(buffer)@ == old(buffer)@,
                },
    {
        match self.factories.get(name) {
            None => Err(unknown_command(name)),
            Some(factory) => {
                let created = factory.create(args);
                let ghost made = created;
                let r = enqueue_created(name, created, buffer, resolver);
                assert(self@[name@].creates(args, made));
                r
            },
        }
    }

    /// Like `execute_with_resolver`, with a fresh resolver whose result
    /// nobody awaits; a failure queues nothing.
    pub fn execute<R: Default>(&self, name: &str, args: Vec<PtrValue>, buffer: &mut CommandBuffer<R>)
        ensures
            !self@.contains_key(name@) ==> final(buffer)@ == old(buffer)@,
            self@.contains_key(name@) ==> exists|made: Result<BoxedCommand, String>|
                #[trigger] self@[name@].creates(args, made) && match made {
                    Ok(command) => final(buffer)@.len() == old(buffer)@.len() + 1 && final(buffer)@.drop_last()
                        == old(buffer)@ && final(buffer)@.last().0 == command,
                    Err(_) => final(buffer)@ == old(buffer)@,
                },
    {
        if let Some(factory) = self.factories.get(name) {
            let created = factory.create(args);
            let ghost made = created;
            let _ = enqueue_created(name, created, buffer, R::default());
            assert(self@[name@].creates(args, made));
        }
    }

    /// The registered command names, each once.
    pub fn list_commands(&self) -> (r: Vec<String>)
        ensures
            forall|i: int| 0 <= i < r.len() ==> self@.contains_key(#[trigger] r@[i]@),
            forall|n: Seq<char>| self@.contains_key(n) ==> exists|i: int| 0 <= i < r.len() && r@[i]@ == n,
            forall|i: int, j: int| 0 <= i < j < r.len() ==> r@[i]@ != r@[j]@,
    {
        self.factories.names()
    }

    /// Whether a factory is registered under `name`.
    pub fn contains(&self, name: &str) -> (r: bool)
        ensures
            r == self@.contains_key(name@),
    {
        self.factories.contains(name)
    }
}

impl Default for CommandRegistry {
    fn default() -> (r: Self)
        ensures
            r@ == Map::<Seq<char>, BoxedCommandFactory>::empty(),
    {
        Self::new()
    }
}

} // verus!

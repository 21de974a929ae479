//! The queue of commands waiting for the engine to run them.
use crate::script::command::BoxedCommand;
use vstd::prelude::*;

verus! {

/// A queued command together with what receives its result.
pub type QueuedCommand<R> = (BoxedCommand, R);

/// Commands in the order they were queued, each with the resolver of its
/// result.
pub struct CommandBuffer<R> {
    commands: Vec<QueuedCommand<R>>,
}

impl<R> View for CommandBuffer<R> {
    type V = Seq<QueuedCommand<R>>;

    closed spec fn view(&self) -> Seq<QueuedCommand<R>> {
        self.commands@
    }
}

impl<R> CommandBuffer<R> {
    /// An empty buffer.
    pub fn new() -> (r: Self)
        ensures
            r@ == Seq::<QueuedCommand<R>>::empty(),
    {
        CommandBuffer { commands: Vec::new() }
    }

    /// Queues `command`; `resolver` is to receive its result.
    pub fn enqueue_with_resolver(&mut self, command: BoxedCommand, resolver: R)
        ensures
            final(self)@.len() == old(self)@.len() + 1,
            final(self)@.drop_last() == old(self)@,
            final(self)@.last().0 == command,
            final(self)@.last().1 == resolver,
    {
        let item = (command, resolver);
        let ghost queued = item;
        self.push_queued(item);
        assert(self@.drop_last() =~= old(self)@);
        assert(queued.0 == command);
    }

    /// Queues a command together with its resolver.
    pub(crate) fn push_queued(&mut self, item: QueuedCommand<R>)
        ensures
            final(self)@ == old(self)@.push(item),
    {
        self.commands.push(item);
    }

    /// Takes every queued command, in the order queued, and leaves the
    /// buffer empty.
    pub fn drain(&mut self) -> (r: Vec<QueuedCommand<R>>)
        ensures
            r@ == old(self)@,
            final(self)@ == Seq::<QueuedCommand<R>>::empty(),
    {
        let mut taken = Vec::new();
        std::mem::swap(&mut taken, &mut self.commands);
        taken
    }

    /// The number of queued commands.
    pub fn len(&self) -> (r: usize)
        ensures
            r == self@.len(),
    {
        self.commands.len()
    }
}

impl<R: Default> CommandBuffer<R> {
    /// Queues `command` with a fresh resolver whose result nobody awaits.
    pub fn enqueue(&mut self, command: BoxedCommand)
        ensures
            final(self)@.len() == old(self)@.len() + 1,
            final(self)@.drop_last() == old(self)@,
            final(self)@.last().0 == command,
    {
        let resolver: R = R::default();
        let item = (command, resolver);
        let ghost queued = item;
        self.push_queued(item);
        assert(self@.drop_last() =~= old(self)@);
        assert(queued.0 == command);
    }
}

impl<R> Default for CommandBuffer<R> {
    fn default() -> (r: Self)
        ensures
            r@ == Seq::<QueuedCommand<R>>::empty(),
    {
        Self::new()
    }
}

/// Queueing keeps every command already queued where it was and puts the
/// new one last, so that a drain gives the commands back in the order they
/// were queued.
pub proof fn lemma_queue_keeps_order<Q>(before: Seq<Q>, after: Seq<Q>, item: Q)
    requires
        after.len() == before.len() + 1,
        after.drop_last() == before,
        after.last() == item,
    ensures
        after == before.push(item),
        forall|i: int| 0 <= i < before.len() ==> after[i] == before[i],
{
    assert(after =~= before.push(item));
}

} // verus!

//! The replicated state machine that committed commands are delivered to.
use vstd::prelude::*;

verus! {

/// Receives the commands of the log, in log order, once they are committed.
pub trait Receiver<Command> {
    /// Whether the state machine can take `command`.
    spec fn accepts(&self, command: Command) -> bool;

    /// The commands received so far, in the order they were received.
    spec fn received(&self) -> Seq<Command>;

    /// Apply `command` to the state machine.
    fn receive(&mut self, command: &Command)
        requires
            old(self).accepts(*command),
        ensures
            final(self).received() == old(self).received().push(*command),
            forall|c: Command| #[trigger] final(self).accepts(c) == old(self).accepts(c),
    ;
}

/// A state machine given as a closure, together with the commands it has been
/// run on so far.
#[verifier::reject_recursive_types(Command)]
pub struct ClosureReceiver<Command, F> {
    pub state_machine: F,
    pub received: Ghost<Seq<Command>>,
}

impl<Command, F: Fn(&Command)> ClosureReceiver<Command, F> {
    pub fn new(state_machine: F) -> (receiver: Self)
        ensures
            receiver.state_machine == state_machine,
            receiver.received@ == Seq::<Command>::empty(),
    {
        ClosureReceiver { state_machine, received: Ghost(Seq::empty()) }
    }
}

impl<Command, F: Fn(&Command)> Receiver<Command> for ClosureReceiver<Command, F> {
    /// The closure takes the commands its precondition admits.
    open spec fn accepts(&self, command: Command) -> bool {
        call_requires(self.state_machine, (&command,))
    }

    open spec fn received(&self) -> Seq<Command> {
        self.received@
    }

    /// Runs the closure on `command`.
    fn receive(&mut self, command: &Command)
        ensures
            call_ensures(old(self).state_machine, (command,), ()),
            final(self).state_machine == old(self).state_machine,
    {
        (self.state_machine)(command);
        self.received = Ghost(self.received@.push(*command));
    }
}

} // verus!

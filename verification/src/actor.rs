//! The command loop: one consumer takes commands from a queue and executes
//! them one at a time, in the order in which they arrived.

use vstd::prelude::*;

verus! {

/// What the actor asks its driver to do. The driver does exactly that,
/// nothing else meanwhile, and comes back with the matching event.
#[derive(Debug)]
pub enum ActorAction<C> {
    /// Wait for the next command of the queue.
    AwaitCommand,
    /// Run this command's work against the connection, to its end.
    Execute(C),
    /// The session is over: return success.
    Stop,
}

/// What the driver reports back. `R` is whatever a command's work returns.
#[derive(Debug)]
pub enum ActorEvent<C, R> {
    /// The queue handed out this command.
    Next(C),
    /// The queue is empty and every producer is gone.
    Closed,
    /// The command under execution returned, with success or with an error.
    Finished(R),
}

/// The action that follows `event`. What a command returned is dropped: a
/// failed command neither stops the actor nor reaches the commands behind it.
pub open spec fn reaction<C, R>(event: ActorEvent<C, R>) -> ActorAction<C> {
    match event {
        ActorEvent::Next(command) => ActorAction::Execute(command),
        ActorEvent::Closed => ActorAction::Stop,
        ActorEvent::Finished(_) => ActorAction::AwaitCommand,
    }
}

/// Whether `event` is what a driver can report after doing `action`.
pub open spec fn answers<C, R>(action: ActorAction<C>, event: ActorEvent<C, R>) -> bool {
    match action {
        ActorAction::AwaitCommand => event is Next || event is Closed,
        ActorAction::Execute(_) => event is Finished,
        ActorAction::Stop => false,
    }
}

/// The first action of a session: wait for a command.
pub fn start<C>() -> (action: ActorAction<C>)
    ensures
        action == ActorAction::<C>::AwaitCommand,
{
    ActorAction::AwaitCommand
}

/// Decides what to do after `event`. A closed queue stops the actor at once,
/// with success; a command is executed as soon as it is handed out; when it
/// has returned, the next one is awaited.
pub fn react<C, R>(event: ActorEvent<C, R>) -> (action: ActorAction<C>)
    ensures
        action == reaction(event),
{
    match event {
        ActorEvent::Next(command) => ActorAction::Execute(command),
        ActorEvent::Closed => ActorAction::Stop,
        ActorEvent::Finished(_) => ActorAction::AwaitCommand,
    }
}

/// A session as seen from outside, after some events.
pub struct ActorRun<C> {
    /// The action that is due.
    pub action: ActorAction<C>,
    /// The commands whose work was run to its end, in the order in which
    /// that happened.
    pub executed: Seq<C>,
}

/// The command that doing `action` executes, if any.
pub open spec fn executes<C>(action: ActorAction<C>) -> Seq<C> {
    match action {
        ActorAction::Execute(command) => seq![command],
        _ => Seq::empty(),
    }
}

/// Drives the actor from `action` with a driver that reports `script`. The
/// run ends when the actor stops, when the script is used up, or at an event
/// that does not answer the action that is due.
pub open spec fn actor_run<C, R>(action: ActorAction<C>, script: Seq<ActorEvent<C, R>>) -> ActorRun<C>
    decreases script.len(),
{
    if script.len() > 0 && answers(action, script[0]) {
        let rest = actor_run(reaction(script[0]), script.drop_first());
        ActorRun { action: rest.action, executed: executes(action) + rest.executed }
    } else {
        ActorRun { action, executed: Seq::empty() }
    }
}

/// The events of a whole session: the queue hands out `queue` in order,
/// the command at index `i` returns `results[i]`, and then the queue is closed.
pub open spec fn session<C, R>(queue: Seq<C>, results: Seq<R>) -> Seq<ActorEvent<C, R>>
    decreases queue.len(),
{
    if queue.len() == 0 || results.len() == 0 {
        seq![ActorEvent::Closed]
    } else {
        seq![ActorEvent::Next(queue[0]), ActorEvent::Finished(results[0])] + session(
            queue.drop_first(),
            results.drop_first(),
        )
    }
}

/// Commands are executed in the order of the queue, each one to its end
/// before the next is taken, whatever any of them returns; when the queue is
/// closed behind them the actor stops. With an empty queue it stops at once.
pub proof fn actor_serves_in_order<C, R>(queue: Seq<C>, results: Seq<R>)
    requires
        queue.len() == results.len(),
    ensures
        actor_run(ActorAction::AwaitCommand, session(queue, results)) == (ActorRun {
            action: ActorAction::Stop,
            executed: queue,
        }),
    decreases queue.len(),
{
    let script = session(queue, results);
    let run = actor_run(ActorAction::AwaitCommand, script);
    if queue.len() == 0 {
        assert(script.drop_first() =~= Seq::<ActorEvent<C, R>>::empty());
        reveal_with_fuel(actor_run, 2);
        assert(run.executed =~= queue);
    } else {
        let tail = session(queue.drop_first(), results.drop_first());
        actor_serves_in_order(queue.drop_first(), results.drop_first());
        assert(script.drop_first().drop_first() =~= tail);
        assert(script.drop_first()[0] == ActorEvent::<C, R>::Finished(results[0]));
        reveal_with_fuel(actor_run, 3);
        assert(run.executed =~= queue);
    }
}

/// The commands that the queue hands out in `script`, in order.
pub open spec fn offered<C, R>(script: Seq<ActorEvent<C, R>>) -> Seq<C>
    decreases script.len(),
{
    if script.len() == 0 {
        Seq::empty()
    } else {
        executes(reaction(script[0])) + offered(script.drop_first())
    }
}

proof fn lemma_run_follows_queue<C, R>(action: ActorAction<C>, script: Seq<ActorEvent<C, R>>)
    ensures
        actor_run(action, script).executed.is_prefix_of(executes(action) + offered(script)),
    decreases script.len(),
{
    let run = actor_run(action, script);
    let all = executes(action) + offered(script);
    if script.len() > 0 && answers(action, script[0]) {
        let tail = script.drop_first();
        let rest = actor_run(reaction(script[0]), tail);
        lemma_run_follows_queue(reaction(script[0]), tail);
        let behind = executes(reaction(script[0])) + offered(tail);
        assert(rest.executed =~= behind.subrange(0, rest.executed.len() as int));
        assert(run.executed =~= all.subrange(0, run.executed.len() as int));
    } else {
        assert(run.executed =~= all.subrange(0, 0));
    }
}

/// Whatever the driver reports, and however far the session has come, the
/// commands executed so far are the first of those that the queue handed
/// out, in the order in which it handed them out: none is skipped, repeated
/// or overtaken.
pub proof fn actor_keeps_queue_order<C, R>(script: Seq<ActorEvent<C, R>>)
    ensures
        actor_run(ActorAction::AwaitCommand, script).executed.is_prefix_of(offered(script)),
{
    lemma_run_follows_queue(ActorAction::<C>::AwaitCommand, script);
    assert(executes(ActorAction::<C>::AwaitCommand) + offered(script) =~= offered(script));
}

} // verus!

use soundpad_remote_client::actor::{react, start, ActorAction, ActorEvent};
use soundpad_remote_client::outcome::Outcome;
use soundpad_remote_client::receive::{ReceiveStep, Receiver};
use soundpad_remote_client::send::{begin, SendStep};
use std::collections::VecDeque;

struct Command {
    name: &'static str,
    requests: Vec<&'static str>,
    fails: bool,
}

struct Connection {
    log: Vec<String>,
    wire: Vec<u8>,
    wakes: usize,
}

impl Connection {
    fn send(&mut self, bytes: &[u8]) {
        let mut step = begin::<()>(bytes);
        loop {
            match step {
                SendStep::Attempt(tx) => {
                    self.wakes += 1;
                    let outcome = if self.wakes % 3 == 0 {
                        Outcome::WouldBlock
                    } else {
                        self.wire.push(tx.pending()[0]);
                        Outcome::Transferred(1)
                    };
                    step = tx.record(outcome);
                }
                SendStep::Done => return,
                SendStep::Failed(()) => panic!("this wire never fails"),
            }
        }
    }

    fn receive(&mut self, reply: &[u8]) -> String {
        let mut chunk = [0u8; 512];
        chunk[..reply.len()].copy_from_slice(reply);
        match Receiver::new().record::<()>(&chunk, Outcome::Transferred(reply.len())) {
            ReceiveStep::Done(text) => text,
            _ => panic!("a short read ends the message"),
        }
    }
}

fn do_work(command: Command, connection: &mut Connection) -> Result<(), String> {
    connection.log.push(format!("{} starts", command.name));
    for request in &command.requests {
        connection.send(request.as_bytes());
        let reply = connection.receive(b"R-200");
        connection.log.push(format!("{} sent {} got {}", command.name, request, reply));
    }
    connection.log.push(format!("{} ends", command.name));
    if command.fails {
        Err(format!("{} failed", command.name))
    } else {
        Ok(())
    }
}

fn run_actor(queue: Vec<Command>, connection: &mut Connection) -> (Result<(), String>, usize) {
    let mut queue: VecDeque<Command> = queue.into();
    let mut action: ActorAction<Command> = start();
    let mut steps: usize = 0;
    loop {
        steps += 1;
        let event = match action {
            ActorAction::AwaitCommand => match queue.pop_front() {
                Some(command) => ActorEvent::Next(command),
                None => ActorEvent::Closed,
            },
            ActorAction::Execute(command) => ActorEvent::Finished(do_work(command, connection)),
            ActorAction::Stop => return (Ok(()), steps),
        };
        action = react(event);
    }
}

fn idle() -> Connection {
    Connection { log: Vec::new(), wire: Vec::new(), wakes: 0 }
}

#[test]
fn commands_run_in_queue_order_without_interleaving() {
    let mut connection = idle();
    let queue = vec![
        Command { name: "A", requests: vec!["a1"], fails: false },
        Command { name: "B", requests: vec!["b1", "b2", "b3"], fails: false },
        Command { name: "C", requests: vec!["c1"], fails: false },
    ];
    let (result, _) = run_actor(queue, &mut connection);
    assert_eq!(result, Ok(()));
    assert_eq!(
        connection.log,
        vec![
            "A starts",
            "A sent a1 got R-200",
            "A ends",
            "B starts",
            "B sent b1 got R-200",
            "B sent b2 got R-200",
            "B sent b3 got R-200",
            "B ends",
            "C starts",
            "C sent c1 got R-200",
            "C ends",
        ]
    );
    assert_eq!(connection.wire, b"a1b1b2b3c1".to_vec());
}

#[test]
fn a_closed_empty_queue_stops_the_actor_at_once() {
    let mut connection = idle();
    let (result, steps) = run_actor(Vec::new(), &mut connection);
    assert_eq!(result, Ok(()));
    assert_eq!(steps, 2);
    assert!(connection.log.is_empty());
    assert!(connection.wire.is_empty());
}

#[test]
fn a_failing_command_does_not_stop_the_actor() {
    let mut connection = idle();
    let queue = vec![
        Command { name: "A", requests: vec!["a"], fails: true },
        Command { name: "B", requests: vec!["b"], fails: false },
    ];
    let (result, _) = run_actor(queue, &mut connection);
    assert_eq!(result, Ok(()));
    assert_eq!(
        connection.log,
        vec!["A starts", "A sent a got R-200", "A ends", "B starts", "B sent b got R-200", "B ends"]
    );
}

#[test]
fn the_first_action_awaits_a_command() {
    assert!(matches!(start::<u8>(), ActorAction::AwaitCommand));
}

#[test]
fn each_event_has_its_reaction() {
    assert!(matches!(react::<u8, ()>(ActorEvent::Next(7)), ActorAction::Execute(7)));
    assert!(matches!(react::<u8, ()>(ActorEvent::Closed), ActorAction::Stop));
    assert!(matches!(react::<u8, bool>(ActorEvent::Finished(false)), ActorAction::AwaitCommand));
    assert!(matches!(react::<u8, bool>(ActorEvent::Finished(true)), ActorAction::AwaitCommand));
}

use vstd::prelude::*;

verus! {

/// One of the two copy directions of a relayed connection.
#[derive(Debug, Clone, Copy, PartialEq, Eq, Structural)]
pub enum Direction {
    ClientToServer,
    ServerToClient,
}

impl Direction {
    /// The opposite direction, in specifications.
    pub open spec fn other_spec(self) -> Direction {
        match self {
            Direction::ClientToServer => Direction::ServerToClient,
            Direction::ServerToClient => Direction::ClientToServer,
        }
    }

    /// The opposite direction.
    pub fn other(self) -> (r: Direction)
        ensures
            r == self.other_spec(),
            r != self,
    {
        match self {
            Direction::ClientToServer => Direction::ServerToClient,
            Direction::ServerToClient => Direction::ClientToServer,
        }
    }
}

/// What a copy direction reports.
#[derive(Debug, Clone, Copy, PartialEq, Eq, Structural)]
pub enum RelayEvent {
    /// Its source reached end-of-stream.
    Ended(Direction),
    /// Reading or writing failed.
    Errored(Direction),
}

/// What the relay does next.
#[derive(Debug, Clone, Copy, PartialEq, Eq, Structural)]
pub enum RelayAction {
    /// Keep both directions running.
    Continue,
    /// Stop: abandon the given direction, undrained, and finish the connection.
    Abandon(Direction),
    /// The connection is already finished; nothing more to do.
    Finished,
}

/// The relay of one connection pair after interception.
pub struct Relay {
    /// The direction whose termination finished the connection, once one has.
    pub ended_by: Option<Direction>,
}

impl Relay {
    /// The connection has finished.
    pub open spec fn is_finished(&self) -> bool {
        self.ended_by is Some
    }

    /// A relay with both directions running.
    pub fn new() -> (r: Relay)
        ensures
            !r.is_finished(),
    {
        Relay { ended_by: None }
    }

    /// What to do while no direction has reported anything.
    pub fn idle(&self) -> (a: RelayAction)
        ensures
            a == (if self.is_finished() {
                RelayAction::Finished
            } else {
                RelayAction::Continue
            }),
    {
        match self.ended_by {
            Some(_) => RelayAction::Finished,
            None => RelayAction::Continue,
        }
    }

    /// Handles a report from one direction: the first termination, of either kind, abandons
    /// the other direction and finishes the connection; later reports change nothing.
    pub fn step(&mut self, event: RelayEvent) -> (a: RelayAction)
        ensures
            final(self).is_finished(),
            old(self).is_finished() ==> a == RelayAction::Finished && *final(self) == *old(self),
            !old(self).is_finished() ==> match event {
                RelayEvent::Ended(d) | RelayEvent::Errored(d) => a == RelayAction::Abandon(
                    d.other_spec(),
                ) && final(self).ended_by == Some(d),
            },
    {
        if self.ended_by.is_some() {
            return RelayAction::Finished;
        }
        let d = match event {
            RelayEvent::Ended(d) => d,
            RelayEvent::Errored(d) => d,
        };
        self.ended_by = Some(d);
        RelayAction::Abandon(d.other())
    }
}

} // verus!

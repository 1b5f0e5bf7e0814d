use vstd::prelude::*;

verus! {

/// What is observed in one neighbouring cell.
#[derive(Clone, Copy, Debug, PartialEq, Eq, Structural)]
pub enum Connection {
    /// No occupant.
    Empty,
    /// An occupant with the same tile name.
    Same,
    /// An occupant with another tile name.
    Different,
}

/// The constraint that a rule places on one neighbouring cell.
#[derive(Clone, Copy, Debug, PartialEq, Eq, Structural)]
pub enum ConnectionFilter {
    Anything,
    Empty,
    NotEmpty,
    Same,
    Different,
}

impl ConnectionFilter {
    /// Whether this constraint accepts the observed connection.
    pub open spec fn accepts(self, connection: Connection) -> bool {
        match self {
            ConnectionFilter::Anything => true,
            ConnectionFilter::Empty => connection == Connection::Empty,
            ConnectionFilter::NotEmpty => connection != Connection::Empty,
            ConnectionFilter::Same => connection == Connection::Same,
            ConnectionFilter::Different => connection != Connection::Same,
        }
    }

    pub fn matches(&self, connection: Connection) -> (r: bool)
        ensures
            r == self.accepts(connection),
    {
        match self {
            ConnectionFilter::NotEmpty => !matches!(connection, Connection::Empty),
            ConnectionFilter::Empty => matches!(connection, Connection::Empty),
            ConnectionFilter::Anything => true,
            ConnectionFilter::Same => matches!(connection, Connection::Same),
            ConnectionFilter::Different => !matches!(connection, Connection::Same),
        }
    }
}

/// `Different` rejects exactly `Same`, `NotEmpty` rejects exactly `Empty`, and the two
/// are complementary: no connection is rejected by both, and each connection is
/// rejected by at most one of them.
pub proof fn lemma_different_not_empty_complementary(c: Connection)
    ensures
        ConnectionFilter::Different.accepts(c) <==> c != Connection::Same,
        ConnectionFilter::NotEmpty.accepts(c) <==> c != Connection::Empty,
        ConnectionFilter::Different.accepts(c) || ConnectionFilter::NotEmpty.accepts(c),
{
}

} // verus!

use vstd::prelude::*;

verus! {

/// Where the game goes when a level's play state ends.
#[derive(Clone, Copy, Debug, PartialEq, Eq, Structural)]
pub enum Transition {
    NextLevel,
    PrevLevel,
    Editor,
    Exit,
}

/// The decision after each event of the play loop: a request to quit ends the state
/// with `Exit`; otherwise a transition asked for earlier ends it, and is taken out of
/// `pending`; otherwise play goes on.
pub fn next_transition(quit: bool, pending: &mut Option<Transition>) -> (r: Option<Transition>)
    ensures
        r == if quit {
            Some(Transition::Exit)
        } else {
            *old(pending)
        },
        *final(pending) == if quit {
            *old(pending)
        } else {
            None
        },
{
    if quit {
        return Some(Transition::Exit);
    }
    pending.take()
}

} // verus!

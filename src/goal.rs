use vstd::prelude::*;

verus! {

/// A cell of a level's grid.
#[derive(Clone, Copy, Debug, PartialEq, Eq, Structural, Hash)]
pub struct GridCoords {
    pub x: i32,
    pub y: i32,
}

/// The part of the game that the goal feature reads and changes: whether its
/// end-of-turn check is installed, and the index of the level being played.
#[derive(Clone, Copy, Debug, PartialEq, Eq, Structural)]
pub struct LevelProgress {
    pub finish_check: bool,
    pub level_index: usize,
}

/// The number of goals of `goals` at `pos`.
pub open spec fn goals_at(goals: Seq<GridCoords>, pos: GridCoords) -> nat
    decreases goals.len(),
{
    if goals.len() == 0 {
        0
    } else {
        goals_at(goals.drop_last(), pos) + if goals.last() == pos {
            1nat
        } else {
            0nat
        }
    }
}

/// The number of (player, goal) pairs where an upright player (rotation 0) stands on
/// the goal.
pub open spec fn finishes(players: Seq<(GridCoords, i32)>, goals: Seq<GridCoords>) -> nat
    decreases players.len(),
{
    if players.len() == 0 {
        0
    } else {
        finishes(players.drop_last(), goals) + if players.last().1 == 0 {
            goals_at(goals, players.last().0)
        } else {
            0nat
        }
    }
}

proof fn lemma_goals_at_bounded(goals: Seq<GridCoords>, pos: GridCoords)
    ensures
        goals_at(goals, pos) <= goals.len(),
    decreases goals.len(),
{
    if goals.len() > 0 {
        lemma_goals_at_bounded(goals.drop_last(), pos);
    }
}

fn count_goals_at(goals: &[GridCoords], pos: GridCoords) -> (r: usize)
    ensures
        r == goals_at(goals@, pos),
{
    let mut n: usize = 0;
    let mut i: usize = 0;
    while i < goals.len()
        invariant
            i <= goals.len(),
            n == goals_at(goals@.take(i as int), pos),
            n <= i,
        decreases goals.len() - i,
    {
        proof {
            assert(goals@.take(i + 1).drop_last() =~= goals@.take(i as int));
        }
        if goals[i] == pos {
            n = n + 1;
        }
        i = i + 1;
    }
    assert(goals@.take(goals.len() as int) =~= goals@);
    n
}

/// Installs the goal feature: from then on `end_turn` advances the level.
pub fn init(app: &mut LevelProgress)
    ensures
        final(app).finish_check,
        final(app).level_index == old(app).level_index,
{
    app.finish_check = true;
}

/// The goal check at the end of a turn: where it is installed, the level index moves
/// on by one for each upright player standing on a goal.
pub fn end_turn(app: &mut LevelProgress, players: &[(GridCoords, i32)], goals: &[GridCoords])
    requires
        old(app).level_index + players@.len() * goals@.len() <= usize::MAX,
    ensures
        final(app).finish_check == old(app).finish_check,
        final(app).level_index == if old(app).finish_check {
            old(app).level_index + finishes(players@, goals@)
        } else {
            old(app).level_index as int
        },
{
    if !app.finish_check {
        return;
    }
    let ghost start = app.level_index;
    let mut i: usize = 0;
    while i < players.len()
        invariant
            i <= players.len(),
            app.finish_check,
            start + players@.len() * goals@.len() <= usize::MAX,
            app.level_index == start + finishes(players@.take(i as int), goals@),
            finishes(players@.take(i as int), goals@) <= i * goals@.len(),
        decreases players.len() - i,
    {
        let (pos, rotation) = players[i];
        proof {
            assert(players@.take(i + 1).drop_last() =~= players@.take(i as int));
            lemma_goals_at_bounded(goals@, pos);
            assert(i * goals@.len() + goals@.len() == (i + 1) * goals@.len()) by (nonlinear_arith);
            assert((i + 1) * goals@.len() <= players@.len() * goals@.len()) by (nonlinear_arith)
                requires
                    i < players@.len(),
            ;
        }
        if rotation == 0 {
            let n = count_goals_at(goals, pos);
            app.level_index = app.level_index + n;
        }
        i = i + 1;
    }
    assert(players@.take(players.len() as int) =~= players@);
}

} // verus!

use autotile::{end_turn, init, next_transition, Anchor, GridCoords, LevelProgress, Transition};

#[test]
fn goal_check_counts_upright_players_on_goals() {
    let mut app = LevelProgress { finish_check: false, level_index: 3 };
    let players = [(GridCoords { x: 1, y: 1 }, 0), (GridCoords { x: 2, y: 2 }, 90)];
    let goals = [GridCoords { x: 1, y: 1 }, GridCoords { x: 2, y: 2 }];
    end_turn(&mut app, &players, &goals);
    assert_eq!(app.level_index, 3);
    init(&mut app);
    assert!(app.finish_check);
    end_turn(&mut app, &players, &goals);
    assert_eq!(app.level_index, 4);
    end_turn(&mut app, &players, &[]);
    assert_eq!(app.level_index, 4);
}

#[test]
fn quit_wins_over_pending_transition() {
    let mut pending = Some(Transition::NextLevel);
    assert_eq!(next_transition(true, &mut pending), Some(Transition::Exit));
    assert_eq!(pending, Some(Transition::NextLevel));
    assert_eq!(next_transition(false, &mut pending), Some(Transition::NextLevel));
    assert_eq!(pending, None);
    assert_eq!(next_transition(false, &mut pending), None);
}

#[test]
fn anchors_in_halves() {
    assert_eq!(Anchor::TopLeft.v_halves(), (0, 2));
    assert_eq!(Anchor::Center.v_halves(), (1, 1));
    assert_eq!(Anchor::RightCenter.v_halves(), (2, 1));
    assert_eq!(Anchor::BottomCenter.v_halves(), (1, 0));
}

use autotile::{
    direction, direction_index, Connection, ConnectionFilter, IVec2, Rule, Tile, UVec2,
    DIRECTION_COUNT,
};

const ALL: [Connection; 3] = [Connection::Empty, Connection::Same, Connection::Different];

#[test]
fn different_and_not_empty_are_complementary() {
    for c in ALL {
        assert_eq!(ConnectionFilter::Different.matches(c), c != Connection::Same);
        assert_eq!(ConnectionFilter::NotEmpty.matches(c), c != Connection::Empty);
        assert!(ConnectionFilter::Different.matches(c) || ConnectionFilter::NotEmpty.matches(c));
    }
}

#[test]
fn filters_match_table() {
    for c in ALL {
        assert!(ConnectionFilter::Anything.matches(c));
        assert_eq!(ConnectionFilter::Empty.matches(c), c == Connection::Empty);
        assert_eq!(ConnectionFilter::Same.matches(c), c == Connection::Same);
    }
}

#[test]
fn directions_are_the_eight_neighbours() {
    let mut seen = Vec::new();
    for d in 0..DIRECTION_COUNT {
        let v = direction(d);
        assert!(v.x.abs() <= 1 && v.y.abs() <= 1 && (v.x, v.y) != (0, 0));
        assert!(!seen.contains(&v));
        assert_eq!(direction_index(v), Some(d));
        seen.push(v);
    }
    assert_eq!(direction_index(IVec2::new(0, 0)), None);
    assert_eq!(direction_index(IVec2::new(2, 0)), None);
}

#[test]
fn set_filter_records_offset() {
    let mut rule = Rule::new(UVec2::new(3, 4));
    assert!(rule.set_filter(IVec2::new(1, 0), ConnectionFilter::Same));
    assert!(!rule.set_filter(IVec2::new(0, 0), ConnectionFilter::Empty));
    assert_eq!(rule.filter(IVec2::new(1, 0)), Some(ConnectionFilter::Same));
    assert_eq!(rule.filter(IVec2::new(-1, 0)), None);
    assert_eq!(rule.filter(IVec2::new(5, 5)), None);
    assert_eq!(rule.tileset_pos, UVec2::new(3, 4));
}

fn around_with(offset: IVec2, c: Connection) -> [Connection; 8] {
    let mut a = [Connection::Empty; 8];
    a[direction_index(offset).unwrap()] = c;
    a
}

#[test]
fn rule_matches_only_its_constraints() {
    let mut rule = Rule::new(UVec2::new(0, 0));
    rule.set_filter(IVec2::new(1, 0), ConnectionFilter::Same);
    rule.set_filter(IVec2::new(-1, 0), ConnectionFilter::Empty);
    assert!(rule.matches(&around_with(IVec2::new(1, 0), Connection::Same)));
    assert!(!rule.matches(&around_with(IVec2::new(1, 0), Connection::Different)));
    assert!(!rule.matches(&around_with(IVec2::new(-1, 0), Connection::Same)));
    // an unconstrained direction accepts anything
    let mut a = around_with(IVec2::new(1, 0), Connection::Same);
    a[direction_index(IVec2::new(0, 1)).unwrap()] = Connection::Different;
    assert!(rule.matches(&a));
}

fn two_variant_tile() -> Tile {
    let mut a = Rule::new(UVec2::new(1, 0));
    a.set_filter(IVec2::new(0, 1), ConnectionFilter::Empty);
    let mut b = Rule::new(UVec2::new(2, 0));
    b.set_filter(IVec2::new(0, 1), ConnectionFilter::NotEmpty);
    let mut c = Rule::new(UVec2::new(3, 0));
    c.set_filter(IVec2::new(0, -1), ConnectionFilter::Anything);
    Tile { rules: vec![a, b, c], default: Some(UVec2::new(9, 9)) }
}

#[test]
fn matching_positions_in_rule_order() {
    let tile = two_variant_tile();
    let empty = [Connection::Empty; 8];
    assert_eq!(tile.matching_positions(&empty), vec![UVec2::new(1, 0), UVec2::new(3, 0)]);
    let above = around_with(IVec2::new(0, 1), Connection::Same);
    assert_eq!(tile.matching_positions(&above), vec![UVec2::new(2, 0), UVec2::new(3, 0)]);
}

#[test]
fn choice_selects_among_matches() {
    let tile = two_variant_tile();
    let empty = [Connection::Empty; 8];
    assert_eq!(tile.tileset_pos_with(&empty, 0), Some(UVec2::new(1, 0)));
    assert_eq!(tile.tileset_pos_with(&empty, 1), Some(UVec2::new(3, 0)));
    assert_eq!(tile.tileset_pos_with(&empty, 2), Some(UVec2::new(1, 0)));
}

#[test]
fn random_pick_is_a_match() {
    let tile = two_variant_tile();
    let empty = [Connection::Empty; 8];
    let mut seen = Vec::new();
    for _ in 0..200 {
        let p = tile.tileset_pos(&empty).unwrap();
        assert!(p == UVec2::new(1, 0) || p == UVec2::new(3, 0));
        if !seen.contains(&p) {
            seen.push(p);
        }
    }
    assert_eq!(seen.len(), 2);
}

#[test]
fn default_when_nothing_matches() {
    let mut only = Rule::new(UVec2::new(1, 0));
    only.set_filter(IVec2::new(1, 1), ConnectionFilter::Same);
    let with_default = Tile { rules: vec![only], default: Some(UVec2::new(5, 6)) };
    let empty = [Connection::Empty; 8];
    assert_eq!(with_default.tileset_pos(&empty), Some(UVec2::new(5, 6)));
    assert_eq!(with_default.tileset_pos_with(&empty, 7), Some(UVec2::new(5, 6)));
    let without = Tile { rules: vec![only], default: None };
    assert_eq!(without.tileset_pos(&empty), None);
}

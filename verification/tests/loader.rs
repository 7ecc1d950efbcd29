use sokoban::grid::EntityKind;
use sokoban::level::LevelDefinitionError;
use sokoban::level::load_level;

#[test]
fn empty_definition_has_no_rows() {
    let text: Vec<u8> = Vec::new();
    let r = load_level(&text);
    assert!(matches!(r, Err(LevelDefinitionError::NoRows)));
}

#[test]
fn level_without_door_is_refused() {
    // walls framing, player left of a box, a trigger below it, no door
    let text = b"#####\n#@.b#\n#..o#\n#####".to_vec();
    let r = load_level(&text);
    assert!(matches!(r, Err(LevelDefinitionError::NoDoor)));
}

#[test]
fn level_without_player_is_refused() {
    let text = b"###\n#D#\n###".to_vec();
    let r = load_level(&text);
    assert!(matches!(r, Err(LevelDefinitionError::NoPlayer)));
}

#[test]
fn level_with_two_players_is_refused() {
    let text = b"@@D".to_vec();
    let r = load_level(&text);
    assert!(matches!(r, Err(LevelDefinitionError::MultiplePlayers)));
}

#[test]
fn level_with_two_doors_is_refused() {
    let text = b"@DD".to_vec();
    let r = load_level(&text);
    assert!(matches!(r, Err(LevelDefinitionError::MultipleDoors)));
}

#[test]
fn oversized_grid_is_refused() {
    // one very long row and enough ragged empty rows that the cell count
    // no longer fits the index arithmetic
    let mut text = vec![b'#'; 65536];
    for _ in 0..32768 {
        text.push(b'\n');
    }
    let r = load_level(&text);
    assert!(matches!(r, Err(LevelDefinitionError::TooLarge)));
}

#[test]
fn grid_holds_what_each_symbol_places() {
    let text = b"#@bD\n.o..".to_vec();
    let data = load_level(&text).ok().unwrap();
    assert_eq!(data.grid.size.width, 4);
    assert_eq!(data.grid.size.height, 2);
    let kind_at = |i: usize| data.grid.occupant_at(i).map(|o| o.kind);
    assert_eq!(kind_at(0), Some(EntityKind::Wall));
    assert_eq!(kind_at(1), Some(EntityKind::Player));
    assert_eq!(kind_at(2), Some(EntityKind::Box));
    assert_eq!(kind_at(3), Some(EntityKind::Door));
    for i in 4..8 {
        assert_eq!(kind_at(i), None);
    }
    assert_eq!(data.player.x, 1);
    assert_eq!(data.player.y, 0);
    assert_eq!(data.player.index, 1);
    assert_eq!(data.door_index, 3);
    assert_eq!(data.triggers, vec![5]);
    assert!(data.warnings.is_empty());
}

#[test]
fn occupant_ids_are_their_starting_cells() {
    let text = b"#@bD".to_vec();
    let data = load_level(&text).ok().unwrap();
    for i in 0..4 {
        assert_eq!(data.grid.occupant_at(i).unwrap().id, i as u64);
    }
}

#[test]
fn short_rows_are_left_aligned_floor() {
    let text = b"#\n#@D".to_vec();
    let data = load_level(&text).ok().unwrap();
    assert_eq!(data.grid.size.width, 3);
    assert_eq!(data.grid.size.height, 2);
    assert!(data.grid.occupant_at(1).is_none());
    assert!(data.grid.occupant_at(2).is_none());
    assert!(matches!(
        data.grid.occupant_at(0).map(|o| o.kind),
        Some(EntityKind::Wall)
    ));
}

#[test]
fn unrecognized_symbol_is_ignored_with_diagnostic() {
    let text = b"@zD".to_vec();
    let data = load_level(&text).ok().unwrap();
    assert_eq!(data.warnings, vec![1]);
    assert!(data.grid.occupant_at(1).is_none());
}

#[test]
fn trigger_order_is_first_seen() {
    let text = b"o.o\n@oD".to_vec();
    let data = load_level(&text).ok().unwrap();
    assert_eq!(data.triggers, vec![0, 2, 4]);
}

#[test]
fn trailing_newline_closes_the_last_row() {
    let text = b"@D#\n".to_vec();
    let data = load_level(&text).ok().unwrap();
    assert_eq!(data.grid.size.height, 1);
    assert_eq!(data.grid.size.width, 3);
}

use chess_archive::codec::CodecError;
use chess_archive::game::{copy_text, Game, TempGame, TempPlayer};
use chess_archive::names::NameTable;
use chess_archive::store::{CommitError, Store, UNNAMED_PLAYER, UNSPECIFIED};

fn game(white: Option<&str>, black: Option<&str>, moves: &[&str]) -> TempGame {
    let mut game = TempGame::new();
    game.white_name = white.map(String::from);
    game.black_name = black.map(String::from);
    game.moves = moves.iter().map(|m| m.as_bytes().to_vec()).collect();
    game
}

#[test]
fn a_new_archive_holds_the_unspecified_event_and_site() {
    let store = Store::new();
    assert_eq!(store.game_count(), 0);
    assert_eq!(store.player_count(), 0);
    assert_eq!(store.event_count(), 1);
    assert_eq!(store.site_count(), 1);
    assert_eq!(store.event(UNSPECIFIED).unwrap().name.as_deref(), Some(""));
    assert_eq!(store.site(UNSPECIFIED).unwrap().name.as_deref(), Some(""));
    assert!(store.event(0).is_none());
    assert!(store.event(2).is_none());
    assert!(store.game(1).is_none());
    assert!(store.player(1).is_none());
    assert!(store.player(-1).is_none());
    assert!(store.player(UNNAMED_PLAYER).is_some());
    assert!(store.move_buffers().is_empty());
}

#[test]
fn a_commit_stores_the_game_with_the_identities_of_its_names() {
    let mut store = Store::new();
    let mut first = game(Some("Anna"), Some("Boris"), &["e4", "e5"]);
    first.event_name = Some("Open".to_string());
    first.site_name = Some("Graz".to_string());
    first.white_elo = Some(2000);
    first.result = Some("1/2-1/2".to_string());
    assert_eq!(store.commit(&first), Ok(1));
    let row = store.game(1).unwrap();
    assert_eq!((row.id, row.white_id, row.black_id, row.event_id, row.site_id), (1, 1, 2, 2, 2));
    assert_eq!(row.white_elo, Some(2000));
    assert_eq!(row.black_elo, None);
    assert_eq!(row.ply_count, 2);
    assert_eq!(row.result.as_deref(), Some("1/2-1/2"));
    let second = game(Some("Boris"), Some("Anna"), &["d4"]);
    assert_eq!(store.commit(&second), Ok(2));
    let row = store.game(2).unwrap();
    assert_eq!((row.id, row.white_id, row.black_id, row.event_id, row.site_id), (2, 2, 1, 1, 1));
    assert_eq!(store.player_count(), 2);
    assert_eq!(store.move_buffers().len(), 2);
    assert_eq!(store.move_buffers()[1], row.moves2);
}

#[test]
fn an_event_named_by_the_empty_text_is_the_unspecified_one() {
    let mut store = Store::new();
    let mut first = game(None, None, &[]);
    first.event_name = Some(String::new());
    assert_eq!(store.commit(&first), Ok(1));
    assert_eq!(store.game(1).unwrap().event_id, UNSPECIFIED);
    assert_eq!(store.event_count(), 1);
}

#[test]
fn a_game_that_cannot_be_packed_is_not_committed() {
    let mut store = Store::new();
    let bad = game(Some("Anna"), Some("Boris"), &["e4", "e4"]);
    assert_eq!(store.commit(&bad), Err(CommitError::Codec(CodecError::UnresolvedMove)));
    assert_eq!(store.game_count(), 0);
    assert_eq!(store.player_count(), 0);
    assert_eq!(store.event_count(), 1);
}

#[test]
fn the_same_name_on_both_sides_is_one_player() {
    let mut store = Store::new();
    assert_eq!(store.commit(&game(Some("Anna"), Some("Anna"), &[])), Ok(1));
    assert_eq!(store.player_count(), 1);
    let row = store.game(1).unwrap();
    assert_eq!(row.white_id, row.black_id);
}

#[test]
fn a_name_table_enters_a_name_once() {
    let mut table = NameTable::new();
    assert_eq!(table.len(), 0);
    let anna = "Anna".to_string();
    let boris = "Boris".to_string();
    assert_eq!(table.lookup(&anna), None);
    assert_eq!(table.get_or_create(&anna), Some(1));
    assert_eq!(table.get_or_create(&boris), Some(2));
    assert_eq!(table.get_or_create(&anna), Some(1));
    assert_eq!(table.len(), 2);
    assert_eq!(table.lookup(&boris), Some(2));
    assert_eq!(table.name(1), Some(&anna));
    assert_eq!(table.name(2), Some(&boris));
    assert_eq!(table.name(0), None);
    assert_eq!(table.name(3), None);
}

#[test]
fn names_differ_by_case_and_space() {
    let mut table = NameTable::with_sentinel();
    assert_eq!(table.len(), 1);
    assert_eq!(table.get_or_create(&String::new()), Some(1));
    assert_eq!(table.get_or_create(&"anna".to_string()), Some(2));
    assert_eq!(table.get_or_create(&"Anna".to_string()), Some(3));
    assert_eq!(table.get_or_create(&"Anna ".to_string()), Some(4));
    assert_eq!(table.len(), 4);
}

#[test]
fn a_blank_game_knows_nothing() {
    let game = TempGame::default();
    assert!(game.white_name.is_none() && game.black_name.is_none());
    assert!(game.event_name.is_none() && game.site_name.is_none());
    assert!(game.date.is_none() && game.round.is_none() && game.result.is_none());
    assert!(game.white_elo.is_none() && game.black_elo.is_none());
    assert!(game.time_control.is_none() && game.eco.is_none() && game.fen.is_none());
    assert!(game.moves.is_empty());
    let player = TempPlayer::default();
    assert_eq!((player.id, player.name, player.rating), (0, None, None));
}

#[test]
fn copies_are_equal_to_what_they_copy() {
    assert_eq!(copy_text(&Some("x".to_string())), Some("x".to_string()));
    assert_eq!(copy_text(&None), None);
    let mut store = Store::new();
    let mut temp = game(Some("Anna"), None, &["e4"]);
    temp.date = Some("2024.01.01".to_string());
    store.commit(&temp).unwrap();
    let row: &Game = store.game(1).unwrap();
    let copy = row.clone();
    assert_eq!(copy.id, row.id);
    assert_eq!(copy.date, row.date);
    assert_eq!(copy.moves2, row.moves2);
    assert_eq!(copy.white_id, row.white_id);
    assert_eq!(copy.ply_count, row.ply_count);
}

#[test]
fn a_packed_game_is_stored_as_it_is_given() {
    let mut store = Store::new();
    let temp = game(Some("Anna"), None, &["e4", "e5"]);
    let moves2 = chess_archive::codec::encode_moves(
        &temp.moves,
        &chess_archive::engine::Position::initial(),
    )
    .unwrap();
    assert_eq!(store.insert_game(&temp, moves2.clone()), Some(1));
    let row = store.game(1).unwrap();
    assert_eq!(row.moves2, moves2);
    assert_eq!(row.ply_count, 2);
    assert_eq!(row.white_id, 1);
    assert_eq!(row.black_id, UNNAMED_PLAYER);
}

#[test]
fn a_name_keeps_its_identity_while_others_are_entered() {
    let mut table = NameTable::new();
    let anna = "Anna".to_string();
    assert_eq!(table.get_or_create(&anna), Some(1));
    for i in 0..50 {
        table.get_or_create(&format!("Player {}", i)).unwrap();
        assert_eq!(table.lookup(&anna), Some(1));
        assert_eq!(table.get_or_create(&anna), Some(1));
    }
    assert_eq!(table.len(), 51);
}

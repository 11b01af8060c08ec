use chess_archive::game::{Event, Game, Player, Site, TempGame};
use chess_archive::listing::{normalize_game, normalize_games, starting_position};
use chess_archive::store::Store;

fn stored(moves: &[&str]) -> Game {
    let mut store = Store::new();
    let mut game = TempGame::new();
    game.white_name = Some("Anna".to_string());
    game.result = Some("1-0".to_string());
    game.white_elo = Some(2100);
    game.moves = moves.iter().map(|m| m.as_bytes().to_vec()).collect();
    store.commit(&game).unwrap();
    store.game(1).unwrap().clone()
}

fn parts(store_id: i32) -> (Player, Player, Event, Site) {
    (
        Player { id: store_id, name: Some("Anna".to_string()), elo: None },
        Player { id: 0, name: None, elo: None },
        Event { id: 1, name: Some(String::new()) },
        Site { id: 1, name: Some(String::new()) },
    )
}

#[test]
fn a_listed_game_shows_its_moves_in_notation() {
    let game = stored(&["e4", "c5", "Nf3"]);
    let (white, black, event, site) = parts(1);
    let row = normalize_game(game, white, black, event, site);
    assert_eq!(row.id, 1);
    assert_eq!(row.moves, vec![b"e4".to_vec(), b"c5".to_vec(), b"Nf3".to_vec()]);
    assert_eq!(row.ply_count, 3);
    assert_eq!(row.white.name.as_deref(), Some("Anna"));
    assert_eq!(row.black.name, None);
    assert_eq!(row.white_elo, Some(2100));
    assert_eq!(row.result.as_deref(), Some("1-0"));
    assert_eq!(row.event.id, 1);
    assert_eq!(row.site.id, 1);
    assert_eq!(row.fen, None);
}

#[test]
fn a_game_whose_buffer_is_malformed_shows_no_moves() {
    let mut game = stored(&["e4", "c5"]);
    game.moves2 = vec![0, 0, 250];
    let (white, black, event, site) = parts(1);
    let row = normalize_game(game, white, black, event, site);
    assert!(row.moves.is_empty());
    assert_eq!(row.ply_count, 2);
}

#[test]
fn a_game_is_replayed_from_the_start_it_names() {
    let mut game = stored(&[]);
    game.fen = Some("4k3/8/8/8/8/8/4P3/4K3 w - - 0 1".to_string());
    let start = starting_position(&game).unwrap();
    assert_eq!(start.placement, b"4k3/8/8/8/8/8/4P3/4K3 w - -".to_vec());
    let line = vec![b"e4".to_vec()];
    game.moves2 = chess_archive::codec::encode_moves(&line, &start).unwrap();
    let (white, black, event, site) = parts(1);
    let row = normalize_game(game, white, black, event, site);
    assert_eq!(row.moves, line);
    let mut broken = stored(&["e4"]);
    broken.fen = Some("no position".to_string());
    assert!(starting_position(&broken).is_none());
    let (white, black, event, site) = parts(1);
    assert!(normalize_game(broken, white, black, event, site).moves.is_empty());
}

#[test]
fn games_are_listed_in_the_order_given() {
    let mut rows = Vec::new();
    for (i, moves) in [&["e4"][..], &["d4", "d5"], &[]].iter().enumerate() {
        let mut game = stored(moves);
        game.id = 10 + i as i32;
        let (white, black, event, site) = parts(1);
        rows.push((game, white, black, event, site));
    }
    let listed = normalize_games(rows);
    assert_eq!(listed.len(), 3);
    assert_eq!(listed.iter().map(|g| g.id).collect::<Vec<_>>(), vec![10, 11, 12]);
    assert_eq!(listed.iter().map(|g| g.moves.len()).collect::<Vec<_>>(), vec![1, 2, 0]);
    assert!(normalize_games(Vec::new()).is_empty());
}

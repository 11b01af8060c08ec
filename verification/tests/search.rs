use chess_archive::codec::{encode_moves, CodecError};
use chess_archive::engine::{parse_fen, FenError, Position};
use chess_archive::search::{
    count_matches, count_share, game_matches, position_search, search, search_position, share_out,
};

fn packed(moves: &[&str]) -> Vec<u8> {
    let line: Vec<Vec<u8>> = moves.iter().map(|m| m.as_bytes().to_vec()).collect();
    encode_moves(&line, &Position::initial()).unwrap()
}

fn decisive() -> Vec<u8> {
    packed(&["e4", "e5", "Nf3", "Nc6", "Bb5", "a6", "Ba4", "Nf6", "O-O", "Be7"])
}

fn drawn() -> Vec<u8> {
    packed(&["d4", "d5", "c4", "e6", "Nc3", "Nf6"])
}

fn after_bb5() -> Position {
    parse_fen(b"r1bqkbnr/pppp1ppp/2n5/1B2p3/4P3/5N2/PPPP1PPP/RNBQK2R b KQkq - 3 3").unwrap()
}

#[test]
fn a_position_on_the_main_line_is_found() {
    let start = Position::initial();
    assert_eq!(position_search(&decisive(), &start, &after_bb5()), Ok(true));
    assert!(game_matches(&decisive(), &after_bb5()));
    assert_eq!(search(&vec![decisive()], &after_bb5(), 1), 1);
}

#[test]
fn a_position_never_reached_is_not_found() {
    let start = Position::initial();
    assert_eq!(position_search(&drawn(), &start, &after_bb5()), Ok(false));
    assert!(!game_matches(&drawn(), &after_bb5()));
    assert_eq!(search(&vec![drawn()], &after_bb5(), 1), 0);
    let nowhere = parse_fen(b"4k3/8/8/8/8/8/8/4K2R w K - 0 1").unwrap();
    assert_eq!(search(&vec![decisive(), drawn()], &nowhere, 1), 0);
}

#[test]
fn the_last_position_of_a_game_is_found() {
    let end = parse_fen(b"r1bqk2r/1pppbppp/p1n2n2/4p3/B3P3/5N2/PPPP1PPP/RNBQ1RK1 w kq - 5 6")
        .unwrap();
    assert!(game_matches(&decisive(), &end));
}

#[test]
fn the_initial_position_matches_every_game_that_has_a_move() {
    let start = Position::initial();
    let games = vec![decisive(), drawn(), packed(&["a3"])];
    assert_eq!(search(&games, &start, 1), 3);
    assert_eq!(count_matches(&games, &start), 3);
}

#[test]
fn a_game_without_moves_passes_through_no_position() {
    let start = Position::initial();
    assert_eq!(position_search(&[], &start, &start), Ok(false));
    assert_eq!(search(&vec![Vec::new(), decisive()], &start, 1), 1);
}

#[test]
fn counters_of_the_target_do_not_matter() {
    let target =
        parse_fen(b"r1bqkbnr/pppp1ppp/2n5/1B2p3/4P3/5N2/PPPP1PPP/RNBQK2R b KQkq - 0 1").unwrap();
    assert!(game_matches(&decisive(), &target));
}

#[test]
fn a_game_counts_once_however_often_it_is_at_the_position() {
    let shuffle = packed(&["Nf3", "Nf6", "Ng1", "Ng8", "Nf3", "Nf6", "Ng1", "Ng8"]);
    let start = Position::initial();
    assert_eq!(search(&vec![shuffle], &start, 1), 1);
}

#[test]
fn a_fault_after_the_match_does_not_undo_it() {
    let start = Position::initial();
    let mut bytes = packed(&["e4", "e5"]);
    bytes.push(250);
    let after_e4 = parse_fen(b"rnbqkbnr/pppppppp/8/8/4P3/8/PPPP1PPP/RNBQKBNR b KQkq - 0 1").unwrap();
    assert_eq!(position_search(&bytes, &start, &after_e4), Ok(true));
    assert_eq!(
        position_search(&bytes, &start, &after_bb5()),
        Err(CodecError::RankOutOfRange)
    );
    assert!(!game_matches(&bytes, &after_bb5()));
    assert_eq!(search(&vec![bytes], &after_bb5(), 1), 0);
}

#[test]
fn the_count_does_not_depend_on_the_number_of_workers() {
    let mut games = Vec::new();
    for i in 0..60 {
        games.push(if i % 3 == 0 { decisive() } else { drawn() });
    }
    let target = after_bb5();
    let one = search(&games, &target, 1);
    assert_eq!(one, 20);
    for workers in [0usize, 2, 3, 4, 8] {
        assert_eq!(search(&games, &target, workers), one);
    }
    assert_eq!(count_matches(&games, &target), one);
}

#[test]
fn the_counts_of_two_shares_add_up() {
    let games = vec![decisive(), drawn(), decisive(), packed(&["e4"]), drawn()];
    let target = parse_fen(b"rnbqkbnr/pppppppp/8/8/4P3/8/PPPP1PPP/RNBQKBNR b KQkq - 0 1").unwrap();
    let whole = count_matches(&games, &target);
    assert_eq!(whole, 3);
    for cut in 0..=games.len() {
        let left = games[..cut].to_vec();
        let right = games[cut..].to_vec();
        assert_eq!(count_matches(&left, &target) + count_matches(&right, &target), whole);
    }
}

#[test]
fn a_search_from_another_start_follows_that_start() {
    let start = parse_fen(b"4k3/8/8/8/8/8/4P3/4K3 w - - 0 1").unwrap();
    let line = vec![b"e4".to_vec(), b"Kd7".to_vec()];
    let bytes = encode_moves(&line, &start).unwrap();
    let target = parse_fen(b"4k3/8/8/8/4P3/8/8/4K3 b - - 0 1").unwrap();
    assert_eq!(position_search(&bytes, &start, &target), Ok(true));
    assert_eq!(position_search(&bytes, &start, &Position::initial()), Ok(false));
}

#[test]
fn a_search_by_record_reads_the_record_first() {
    let games = vec![decisive(), drawn()];
    let fen = b"r1bqkbnr/pppp1ppp/2n5/1B2p3/4P3/5N2/PPPP1PPP/RNBQK2R b KQkq - 3 3";
    assert_eq!(search_position(&games, fen, 1), Ok(1));
    assert_eq!(search_position(&games, fen, 3), Ok(1));
    assert_eq!(search_position(&games, b"not a record", 1), Err(FenError::Malformed));
    assert_eq!(search_position(&games, b"8/8/8/8/8/8/8/8 w - - 0 1", 1), Err(FenError::Illegal));
    assert_eq!(search_position(&Vec::new(), fen, 2), Ok(0));
}

#[test]
fn more_workers_than_games_get_one_game_each() {
    let games = vec![decisive(), drawn(), decisive()];
    assert_eq!(search(&games, &after_bb5(), usize::MAX), 2);
    let shares = share_out(&games, 8);
    assert_eq!(shares.len(), 3);
    assert!(shares.iter().all(|s| s.len() == 1));
}

#[test]
fn games_are_dealt_out_in_order_and_in_equal_shares() {
    let games: Vec<Vec<u8>> = (0..10u8).map(|i| vec![i]).collect();
    let sizes = |workers: usize| -> Vec<usize> {
        share_out(&games, workers).iter().map(|s| s.len()).collect()
    };
    assert_eq!(sizes(0), vec![10]);
    assert_eq!(sizes(1), vec![10]);
    assert_eq!(sizes(2), vec![5, 5]);
    assert_eq!(sizes(3), vec![4, 4, 2]);
    assert_eq!(sizes(4), vec![3, 3, 3, 1]);
    assert_eq!(sizes(10), vec![1; 10]);
    assert_eq!(sizes(11), vec![1; 10]);
    let joined: Vec<Vec<u8>> = share_out(&games, 3).concat();
    assert_eq!(joined, games);
    assert!(share_out(&[], 4).is_empty());
}

#[test]
fn a_share_is_counted_like_an_archive() {
    let games = vec![decisive(), drawn(), decisive()];
    assert_eq!(count_share(&games, &after_bb5()), 2);
    assert_eq!(count_share(&games[1..], &after_bb5()), 1);
    assert_eq!(count_share(&[], &after_bb5()), 0);
}

use chess_archive::codec::{
    apply, decode_moves, decode_moves_or_empty, encode_moves, find_rank, resolve_move, take_step,
    CodecError,
};
use chess_archive::engine::{legal_moves, parse_fen, positions_equal, FenError, Position};
use chess_archive::index::{read_rank, write_rank, ESCAPE};

fn line(moves: &[&str]) -> Vec<Vec<u8>> {
    moves.iter().map(|m| m.as_bytes().to_vec()).collect()
}

fn ruy_lopez() -> Vec<Vec<u8>> {
    line(&["e4", "e5", "Nf3", "Nc6", "Bb5", "a6", "Ba4", "Nf6", "O-O", "Be7"])
}

fn written(rank: usize) -> Vec<u8> {
    let mut out = Vec::new();
    write_rank(&mut out, rank);
    out
}

#[test]
fn first_moves_take_one_byte_each() {
    let start = Position::initial();
    let moves = line(&["e4", "e5", "Nf3", "Nc6"]);
    let bytes = encode_moves(&moves, &start).unwrap();
    assert_eq!(bytes.len(), 4);
    assert_eq!(decode_moves(&bytes, &start).unwrap(), moves);
}

#[test]
fn a_line_of_legal_moves_comes_back_as_it_was() {
    let start = Position::initial();
    let moves = ruy_lopez();
    let bytes = encode_moves(&moves, &start).unwrap();
    assert_eq!(bytes.len(), 10);
    assert_eq!(decode_moves(&bytes, &start).unwrap(), moves);
}

#[test]
fn a_game_without_moves_packs_to_nothing() {
    let start = Position::initial();
    let bytes = encode_moves(&Vec::new(), &start).unwrap();
    assert!(bytes.is_empty());
    assert_eq!(decode_moves(&bytes, &start).unwrap(), Vec::<Vec<u8>>::new());
}

#[test]
fn a_stored_byte_is_the_rank_among_the_legal_moves() {
    let start = Position::initial();
    let list = legal_moves(&start).unwrap();
    assert_eq!(list.len(), 20);
    let rank = list.iter().position(|s| s.san == b"e4").unwrap();
    let bytes = encode_moves(&line(&["e4"]), &start).unwrap();
    assert_eq!(bytes, vec![rank as u8]);
    assert_eq!(find_rank(&list, b"e4"), Some(rank));
    assert_eq!(find_rank(&list, b"e5"), None);
}

#[test]
fn a_move_that_is_not_legal_is_not_packed() {
    let start = Position::initial();
    assert_eq!(
        encode_moves(&line(&["e4", "e5", "Ke3"]), &start),
        Err(CodecError::UnresolvedMove)
    );
    assert_eq!(
        encode_moves(&line(&["no move"]), &start),
        Err(CodecError::UnresolvedMove)
    );
}

#[test]
fn a_position_that_cannot_be_played_from_is_reported() {
    let broken = Position { placement: b"not a position".to_vec(), halfmoves: 0, fullmoves: 1 };
    assert_eq!(encode_moves(&line(&["e4"]), &broken), Err(CodecError::InvalidPosition));
    assert_eq!(decode_moves(&[0], &broken), Err(CodecError::InvalidPosition));
    assert!(legal_moves(&broken).is_none());
}

#[test]
fn notation_is_stored_as_the_engine_writes_it() {
    let start = Position::initial();
    let loose = line(&["e2e4", "e7e5", "Ng1f3"]);
    let bytes = encode_moves(&loose, &start).unwrap();
    assert_eq!(decode_moves(&bytes, &start).unwrap(), line(&["e4", "e5", "Nf3"]));
    let (_, step) = resolve_move(&start, b"Nf3+").unwrap();
    assert_eq!(step.san, b"Nf3".to_vec());
}

#[test]
fn check_and_mate_are_written_with_their_suffix() {
    let start = Position::initial();
    let moves = line(&["f3", "e5", "g4", "Qh4#"]);
    let bytes = encode_moves(&moves, &start).unwrap();
    assert_eq!(decode_moves(&bytes, &start).unwrap(), moves);
    let unmarked = line(&["f3", "e5", "g4", "Qh4"]);
    assert_eq!(encode_moves(&unmarked, &start).unwrap(), bytes);
}

#[test]
fn a_rank_beyond_the_legal_moves_is_refused() {
    let start = Position::initial();
    assert_eq!(decode_moves(&[20], &start), Err(CodecError::RankOutOfRange));
    assert_eq!(decode_moves(&[0, 200], &start), Err(CodecError::RankOutOfRange));
    assert_eq!(decode_moves(&[ESCAPE, 3], &start), Err(CodecError::RankOutOfRange));
    assert!(decode_moves(&[19], &start).is_ok());
}

#[test]
fn a_buffer_that_ends_in_an_escape_is_truncated() {
    let start = Position::initial();
    assert_eq!(decode_moves(&[ESCAPE], &start), Err(CodecError::Truncated));
    assert_eq!(decode_moves(&[0, ESCAPE, ESCAPE], &start), Err(CodecError::Truncated));
}

#[test]
fn a_malformed_buffer_displays_as_no_moves() {
    let start = Position::initial();
    assert!(decode_moves_or_empty(&[0, 200], &start).is_empty());
    assert!(decode_moves_or_empty(&[ESCAPE], &start).is_empty());
    let bytes = encode_moves(&ruy_lopez(), &start).unwrap();
    assert_eq!(decode_moves_or_empty(&bytes, &start), ruy_lopez());
}

#[test]
fn ranks_below_the_escape_take_one_byte() {
    assert_eq!(written(0), vec![0]);
    assert_eq!(written(19), vec![19]);
    assert_eq!(written(254), vec![254]);
}

#[test]
fn ranks_from_the_escape_on_take_more() {
    assert_eq!(written(255), vec![255, 0]);
    assert_eq!(written(300), vec![255, 45]);
    assert_eq!(written(509), vec![255, 254]);
    assert_eq!(written(510), vec![255, 255, 0]);
}

#[test]
fn a_rank_is_appended_to_what_is_there() {
    let mut out = vec![7, 8];
    write_rank(&mut out, 256);
    assert_eq!(out, vec![7, 8, 255, 1]);
}

#[test]
fn a_rank_reads_back_with_the_place_of_the_next() {
    assert_eq!(read_rank(&[5, 9], 0), Some((5, 1)));
    assert_eq!(read_rank(&[5, 9], 1), Some((9, 2)));
    assert_eq!(read_rank(&[5, 9], 2), None);
    assert_eq!(read_rank(&[255, 45, 1], 0), Some((300, 2)));
    assert_eq!(read_rank(&[255, 255, 0], 0), Some((510, 3)));
    assert_eq!(read_rank(&[255, 255], 0), None);
    for rank in [0usize, 1, 254, 255, 256, 509, 510, 511, 1000] {
        let bytes = written(rank);
        assert_eq!(read_rank(&bytes, 0), Some((rank as u128, bytes.len())));
    }
}

#[test]
fn a_step_follows_the_rank_in_the_buffer() {
    let start = Position::initial();
    let bytes = encode_moves(&line(&["d4", "d5"]), &start).unwrap();
    let (first, next) = take_step(&start, &bytes, 0).unwrap();
    assert_eq!(first.san, b"d4".to_vec());
    assert_eq!(next, 1);
    let (second, end) = take_step(&first.position, &bytes, next).unwrap();
    assert_eq!(second.san, b"d5".to_vec());
    assert_eq!(end, 2);
    assert_eq!(take_step(&start, &bytes, 2).err(), Some(CodecError::Truncated));
}

#[test]
fn applying_a_move_gives_the_position_after_it() {
    let start = Position::initial();
    let after = apply(&start, b"e4").unwrap();
    assert_eq!(after.placement, b"rnbqkbnr/pppppppp/8/8/4P3/8/PPPP1PPP/RNBQKBNR b KQkq -".to_vec());
    assert_eq!(after.halfmoves, 0);
    assert_eq!(after.fullmoves, 1);
    let reply = apply(&after, b"Nf6").unwrap();
    assert_eq!(reply.halfmoves, 1);
    assert_eq!(reply.fullmoves, 2);
    assert_eq!(apply(&start, b"e5").err(), Some(CodecError::UnresolvedMove));
}

#[test]
fn the_initial_position_is_what_the_standard_record_reads_as() {
    let read = parse_fen(b"rnbqkbnr/pppppppp/8/8/8/8/PPPPPPPP/RNBQKBNR w KQkq - 0 1").unwrap();
    let start = Position::initial();
    assert_eq!(read.placement, start.placement);
    assert_eq!(read.halfmoves, 0);
    assert_eq!(read.fullmoves, 1);
    assert!(positions_equal(&read, &start));
    let copy = start.copy();
    assert_eq!(copy.placement, start.placement);
}

#[test]
fn a_record_that_is_no_fen_is_malformed() {
    assert_eq!(parse_fen(b"").err(), Some(FenError::Malformed));
    assert_eq!(parse_fen(b"nonsense").err(), Some(FenError::Malformed));
    assert_eq!(parse_fen(b"8/8/8/8/8/8/8/8 x - - 0 1").err(), Some(FenError::Malformed));
}

#[test]
fn a_record_of_an_impossible_position_is_illegal() {
    assert_eq!(parse_fen(b"8/8/8/8/8/8/8/8 w - - 0 1").err(), Some(FenError::Illegal));
    assert_eq!(
        parse_fen(b"rnbqkbnr/pppppppp/8/8/8/8/PPPPPPPP/RNBQKKNR w KQkq - 0 1").err(),
        Some(FenError::Illegal)
    );
}

#[test]
fn positions_are_compared_without_their_counters() {
    let a = parse_fen(b"rnbqkbnr/pppppppp/8/8/8/8/PPPPPPPP/RNBQKBNR w KQkq - 0 1").unwrap();
    let b = parse_fen(b"rnbqkbnr/pppppppp/8/8/8/8/PPPPPPPP/RNBQKBNR w KQkq - 12 40").unwrap();
    assert_eq!(b.halfmoves, 12);
    assert_eq!(b.fullmoves, 40);
    assert!(positions_equal(&a, &b));
    let black = parse_fen(b"rnbqkbnr/pppppppp/8/8/8/8/PPPPPPPP/RNBQKBNR b KQkq - 0 1").unwrap();
    assert!(!positions_equal(&a, &black));
    let no_castling = parse_fen(b"rnbqkbnr/pppppppp/8/8/8/8/PPPPPPPP/RNBQKBNR w - - 0 1").unwrap();
    assert!(!positions_equal(&a, &no_castling));
}

#[test]
fn an_en_passant_square_counts_only_where_the_capture_is_legal() {
    let with = parse_fen(b"rnbqkbnr/pppppppp/8/8/4P3/8/PPPP1PPP/RNBQKBNR b KQkq e3 0 1").unwrap();
    let without = parse_fen(b"rnbqkbnr/pppppppp/8/8/4P3/8/PPPP1PPP/RNBQKBNR b KQkq - 0 1").unwrap();
    assert!(positions_equal(&with, &without));
    let played = apply(&Position::initial(), b"e4").unwrap();
    assert!(positions_equal(&played, &with));
}

#[test]
fn the_same_position_by_another_order_of_moves_is_equal() {
    let start = Position::initial();
    let mut one = start.copy();
    for m in ["Nf3", "Nf6", "Nc3", "Nc6"] {
        one = apply(&one, m.as_bytes()).unwrap();
    }
    let mut two = start.copy();
    for m in ["Nc3", "Nc6", "Nf3", "Nf6"] {
        two = apply(&two, m.as_bytes()).unwrap();
    }
    assert!(positions_equal(&one, &two));
    assert!(!positions_equal(&one, &start));
}

#[test]
fn a_move_is_picked_by_its_rank() {
    let start = Position::initial();
    let list = legal_moves(&start).unwrap();
    let third = list[3].san.clone();
    assert_eq!(chess_archive::codec::pick_move(list.clone(), 3).unwrap().san, third);
    assert!(chess_archive::codec::pick_move(list.clone(), 20).is_none());
    assert!(chess_archive::codec::pick_move(list, u128::MAX).is_none());
    assert!(chess_archive::codec::pick_move(Vec::new(), 0).is_none());
}

#[test]
fn every_legal_move_of_a_position_is_found_at_its_rank() {
    let start = apply(&Position::initial(), b"e4").unwrap();
    let list = legal_moves(&start).unwrap();
    for (rank, step) in list.iter().enumerate() {
        assert_eq!(find_rank(&list, &step.san), Some(rank));
        let (found, resolved) = resolve_move(&start, &step.san).unwrap();
        assert_eq!(found, rank);
        assert_eq!(resolved.san, step.san);
        assert_eq!(resolved.position.placement, step.position.placement);
        let bytes = encode_moves(&vec![step.san.clone()], &start).unwrap();
        assert_eq!(bytes, vec![rank as u8]);
        assert_eq!(decode_moves(&bytes, &start).unwrap(), vec![step.san.clone()]);
    }
}

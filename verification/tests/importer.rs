use chess_archive::engine::{parse_fen, Position};
use chess_archive::importer::{GameState, ImportError, Importer, RejectReason};
use chess_archive::info::take_info;
use chess_archive::search::search;
use chess_archive::store::{Store, UNNAMED_PLAYER, UNSPECIFIED};
use pgn_reader::{BufferedReader, RawHeader, SanPlus, Skip, Visitor};

struct Feed {
    importer: Importer,
}

impl Visitor for Feed {
    type Result = ();

    fn begin_game(&mut self) {
        self.importer.begin_game();
    }

    fn header(&mut self, key: &[u8], value: RawHeader<'_>) {
        self.importer.header(key, value.as_bytes()).unwrap();
    }

    fn end_headers(&mut self) -> Skip {
        Skip(self.importer.end_headers())
    }

    fn san(&mut self, san: SanPlus) {
        self.importer.san(san.to_string().as_bytes());
    }

    fn begin_variation(&mut self) -> Skip {
        Skip(self.importer.begin_variation())
    }

    fn end_game(&mut self) {
        self.importer.end_game().unwrap();
    }
}

fn import(pgn: &str) -> Store {
    let mut feed = Feed { importer: Importer::new(Store::new()) };
    let mut reader = BufferedReader::new_cursor(pgn.as_bytes());
    reader.read_all(&mut feed).unwrap();
    feed.importer.into_store()
}

fn text(value: &Option<String>) -> Option<&str> {
    value.as_deref()
}

const TWO_GAMES: &str = r#"[Event "Club Match"]
[Site "Vienna"]
[Date "2023.01.15"]
[Round "1"]
[White "Anna"]
[Black "Boris"]
[WhiteElo "2100"]
[BlackElo "?"]
[Result "1-0"]
[ECO "C84"]
[TimeControl "5400+30"]

1. e4 e5 2. Nf3 Nc6 3. Bb5 a6 4. Ba4 Nf6 5. O-O Be7 1-0

[Event "Club Match"]
[White "Boris"]
[Black "Clara"]
[Result "0-1"]

1. e4 e5 2. Nf3 Ke3 3. Bb5 a6 0-1
"#;

#[test]
fn two_games_one_of_them_with_an_illegal_move() {
    let store = import(TWO_GAMES);
    assert_eq!(store.game_count(), 1);
    let game = store.game(1).unwrap();
    assert_eq!(game.ply_count, 10);
    assert_eq!(game.moves2.len(), 10);
    assert_eq!(text(&game.result), Some("1-0"));
    assert_eq!(take_info(&store).game_count, 1);
    let target =
        parse_fen(b"r1bqkbnr/pppp1ppp/2n5/1B2p3/4P3/5N2/PPPP1PPP/RNBQK2R b KQkq - 3 3").unwrap();
    assert_eq!(search(&store.move_buffers(), &target, 1), 1);
    assert_eq!(search(&store.move_buffers(), &target, 4), 1);
}

#[test]
fn a_skipped_game_leaves_no_rows_of_any_kind() {
    let store = import(TWO_GAMES);
    assert_eq!(store.player_count(), 2);
    assert_eq!(store.event_count(), 2);
    assert_eq!(store.site_count(), 2);
    assert!(store.player(3).is_none());
    assert_eq!(text(&store.player(1).unwrap().name), Some("Anna"));
    assert_eq!(text(&store.player(2).unwrap().name), Some("Boris"));
}

#[test]
fn the_headers_of_a_game_are_stored_with_it() {
    let store = import(TWO_GAMES);
    let game = store.game(1).unwrap();
    assert_eq!(game.id, 1);
    assert_eq!(game.white_id, 1);
    assert_eq!(game.black_id, 2);
    assert_eq!(game.event_id, 2);
    assert_eq!(game.site_id, 2);
    assert_eq!(game.white_elo, Some(2100));
    assert_eq!(game.black_elo, None);
    assert_eq!(text(&game.date), Some("2023.01.15"));
    assert_eq!(text(&game.round), Some("1"));
    assert_eq!(text(&game.eco), Some("C84"));
    assert_eq!(text(&game.time_control), Some("5400+30"));
    assert_eq!(game.fen, None);
    assert_eq!(text(&store.event(2).unwrap().name), Some("Club Match"));
    assert_eq!(text(&store.site(2).unwrap().name), Some("Vienna"));
}

#[test]
fn a_player_of_two_games_has_one_row() {
    let store = import(
        r#"[White "Anna"]
[Black "Boris"]

1. e4 e5 *

[White "Clara"]
[Black "Anna"]

1. d4 d5 *

[White "Anna"]
[Black "Anna"]

1. c4 *
"#,
    );
    assert_eq!(store.game_count(), 3);
    assert_eq!(store.player_count(), 3);
    let first = store.game(1).unwrap();
    let second = store.game(2).unwrap();
    let third = store.game(3).unwrap();
    assert_eq!(first.white_id, 1);
    assert_eq!(second.black_id, first.white_id);
    assert_eq!(third.white_id, first.white_id);
    assert_eq!(third.black_id, first.white_id);
    assert_eq!(second.white_id, 3);
    let names: Vec<String> =
        (1..=3).map(|id| store.player(id).unwrap().name.unwrap()).collect();
    assert_eq!(names, vec!["Anna", "Boris", "Clara"]);
}

#[test]
fn a_game_without_event_or_site_refers_to_the_unspecified_ones() {
    let store = import("[White \"Anna\"]\n[Black \"Boris\"]\n\n1. e4 *\n");
    let game = store.game(1).unwrap();
    assert_eq!(game.event_id, UNSPECIFIED);
    assert_eq!(game.site_id, UNSPECIFIED);
    assert_eq!(store.event_count(), 1);
    assert_eq!(store.site_count(), 1);
    assert_eq!(text(&store.event(UNSPECIFIED).unwrap().name), Some(""));
    assert_eq!(text(&store.site(UNSPECIFIED).unwrap().name), Some(""));
}

#[test]
fn a_named_event_is_not_the_unspecified_one() {
    let store = import("[Event \"Open\"]\n[Site \"Graz\"]\n\n1. e4 *\n");
    let game = store.game(1).unwrap();
    assert_eq!(game.event_id, 2);
    assert_eq!(game.site_id, 2);
    assert_ne!(game.event_id, UNSPECIFIED);
}

#[test]
fn a_game_without_names_refers_to_the_unnamed_player() {
    let store = import("[Event \"Open\"]\n\n1. e4 e5 *\n");
    let game = store.game(1).unwrap();
    assert_eq!(game.white_id, UNNAMED_PLAYER);
    assert_eq!(game.black_id, UNNAMED_PLAYER);
    assert_eq!(store.player_count(), 0);
    let unnamed = store.player(UNNAMED_PLAYER).unwrap();
    assert_eq!(unnamed.id, 0);
    assert_eq!(unnamed.name, None);
}

#[test]
fn a_game_of_a_bot_is_skipped() {
    let store = import(
        "[White \"Engine\"]\n[WhiteTitle \"BOT\"]\n[Black \"Anna\"]\n\n1. e4 e5 *\n\n[White \"Anna\"]\n[BlackTitle \"GM\"]\n\n1. d4 *\n",
    );
    assert_eq!(store.game_count(), 1);
    assert_eq!(store.player_count(), 1);
    assert_eq!(text(&store.player(1).unwrap().name), Some("Anna"));
    assert_eq!(store.game(1).unwrap().ply_count, 1);
}

#[test]
fn a_game_from_another_start_is_skipped() {
    let store = import(
        "[White \"Anna\"]\n[FEN \"4k3/8/8/8/8/8/4P3/4K3 w - - 0 1\"]\n\n1. e4 *\n",
    );
    assert_eq!(store.game_count(), 0);
    assert_eq!(store.player_count(), 0);
}

#[test]
fn a_header_that_spells_the_standard_start_is_dropped() {
    let store = import(
        "[White \"Anna\"]\n[FEN \"rnbqkbnr/pppppppp/8/8/8/8/PPPPPPPP/RNBQKBNR w KQkq - 0 1\"]\n\n1. e4 *\n",
    );
    assert_eq!(store.game_count(), 1);
    assert_eq!(store.game(1).unwrap().fen, None);
}

#[test]
fn variations_are_left_out() {
    let store = import("[White \"Anna\"]\n\n1. e4 (1. d4 d5 2. c4) e5 2. Nf3 (2. f4) *\n");
    let game = store.game(1).unwrap();
    assert_eq!(game.ply_count, 3);
    let moves = chess_archive::codec::decode_moves(&game.moves2, &Position::initial()).unwrap();
    assert_eq!(moves, vec![b"e4".to_vec(), b"e5".to_vec(), b"Nf3".to_vec()]);
}

#[test]
fn an_illegal_move_does_not_upset_the_games_after_it() {
    let store = import(
        "[White \"Anna\"]\n\n1. e4 e5 2. Qh7 *\n\n[White \"Boris\"]\n\n1. d4 d5 *\n\n[White \"Clara\"]\n\n1. Nf3 *\n",
    );
    assert_eq!(store.game_count(), 2);
    assert_eq!(text(&store.player(1).unwrap().name), Some("Boris"));
    assert_eq!(text(&store.player(2).unwrap().name), Some("Clara"));
    assert_eq!(store.game(2).unwrap().ply_count, 1);
}

#[test]
fn the_events_of_a_game_step_by_step() {
    let mut imp = Importer::new(Store::new());
    imp.begin_game();
    assert_eq!(imp.state(), GameState::Accumulating);
    assert_eq!(imp.header(b"White", b"Anna"), Ok(()));
    assert_eq!(imp.header(b"Annotator", b"nobody"), Ok(()));
    assert!(!imp.end_headers());
    assert!(imp.begin_variation());
    imp.san(b"e4");
    imp.san(b"e5");
    assert_eq!(imp.game().moves, vec![b"e4".to_vec(), b"e5".to_vec()]);
    assert_eq!(
        imp.position().placement,
        b"rnbqkbnr/pppp1ppp/8/4p3/4P3/8/PPPP1PPP/RNBQKBNR w KQkq -".to_vec()
    );
    assert_eq!(imp.end_game(), Ok(Some(1)));
    imp.begin_game();
    assert!(imp.game().moves.is_empty());
    assert_eq!(imp.game().white_name, None);
    assert_eq!(imp.position().placement, Position::initial().placement);
    assert_eq!(imp.end_game(), Ok(Some(2)));
    assert_eq!(imp.store().game_count(), 2);
}

#[test]
fn the_first_reason_against_a_game_is_kept() {
    let mut imp = Importer::new(Store::new());
    imp.begin_game();
    imp.header(b"BlackTitle", b"BOT").unwrap();
    assert_eq!(imp.state(), GameState::Rejected(RejectReason::BotParticipant));
    assert!(imp.end_headers());
    imp.header(b"FEN", b"8/8/8/8/8/8/8/8 w - - 0 1").unwrap();
    imp.san(b"Ke7");
    assert_eq!(imp.state(), GameState::Rejected(RejectReason::BotParticipant));
    assert_eq!(imp.end_game(), Ok(None));
    assert_eq!(imp.store().game_count(), 0);
    imp.begin_game();
    assert_eq!(imp.state(), GameState::Accumulating);
    imp.header(b"FEN", b"8/8/8/8/8/8/8/8 w - - 0 1").unwrap();
    assert_eq!(imp.state(), GameState::Rejected(RejectReason::NonStandardStart));
    imp.begin_game();
    imp.san(b"e5");
    assert_eq!(imp.state(), GameState::Rejected(RejectReason::IllegalMove));
    imp.san(b"e4");
    assert_eq!(imp.game().moves, vec![b"e4".to_vec()]);
    assert_eq!(imp.end_game(), Ok(None));
}

#[test]
fn a_title_other_than_bot_is_no_reason() {
    let mut imp = Importer::new(Store::new());
    imp.begin_game();
    imp.header(b"WhiteTitle", b"GM").unwrap();
    imp.header(b"BlackTitle", b"bot").unwrap();
    assert_eq!(imp.state(), GameState::Accumulating);
}

#[test]
fn a_rating_is_a_number_or_the_placeholder() {
    let mut imp = Importer::new(Store::new());
    imp.begin_game();
    assert_eq!(imp.header(b"WhiteElo", b"?"), Ok(()));
    assert_eq!(imp.game().white_elo, None);
    assert_eq!(imp.header(b"WhiteElo", b"2450"), Ok(()));
    assert_eq!(imp.game().white_elo, Some(2450));
    assert_eq!(imp.header(b"WhiteElo", b"?"), Ok(()));
    assert_eq!(imp.game().white_elo, Some(2450));
    assert_eq!(imp.header(b"BlackElo", b"+0"), Ok(()));
    assert_eq!(imp.game().black_elo, Some(0));
    assert_eq!(imp.header(b"BlackElo", b"-15"), Ok(()));
    assert_eq!(imp.game().black_elo, Some(-15));
    assert_eq!(imp.header(b"BlackElo", b"2147483647"), Ok(()));
    assert_eq!(imp.game().black_elo, Some(i32::MAX));
    assert_eq!(imp.header(b"BlackElo", b"-2147483648"), Ok(()));
    assert_eq!(imp.game().black_elo, Some(i32::MIN));
}

#[test]
fn a_rating_that_is_no_number_is_an_error_and_changes_nothing() {
    let mut imp = Importer::new(Store::new());
    imp.begin_game();
    imp.header(b"WhiteElo", b"1500").unwrap();
    for bad in [&b""[..], b"abc", b"15x", b" 15", b"2147483648", b"-2147483649", b"+", b"-", b"??", b"1 5"] {
        assert_eq!(imp.header(b"WhiteElo", bad), Err(ImportError::InvalidWhiteElo));
        assert_eq!(imp.header(b"BlackElo", bad), Err(ImportError::InvalidBlackElo));
    }
    assert_eq!(imp.game().white_elo, Some(1500));
    assert_eq!(imp.game().black_elo, None);
    assert_eq!(imp.state(), GameState::Accumulating);
}

#[test]
fn either_date_header_fills_the_date_and_the_later_wins() {
    let mut imp = Importer::new(Store::new());
    imp.begin_game();
    imp.header(b"UTCDate", b"2020.02.02").unwrap();
    assert_eq!(text(&imp.game().date), Some("2020.02.02"));
    imp.header(b"Date", b"2021.03.04").unwrap();
    assert_eq!(text(&imp.game().date), Some("2021.03.04"));
    imp.header(b"UTCDate", b"2022.05.06").unwrap();
    assert_eq!(text(&imp.game().date), Some("2022.05.06"));
}

#[test]
fn escapes_are_resolved_in_names_and_left_in_events() {
    let mut imp = Importer::new(Store::new());
    imp.begin_game();
    imp.header(b"White", br#"The \"Kid\""#).unwrap();
    assert_eq!(text(&imp.game().white_name), Some("The \"Kid\""));
    imp.header(b"Black", br#"back\\slash"#).unwrap();
    assert_eq!(text(&imp.game().black_name), Some("back\\slash"));
    imp.header(b"Event", br#"The \"Open\""#).unwrap();
    assert_eq!(text(&imp.game().event_name), Some(r#"The \"Open\""#));
    imp.header(b"Round", br#"\"2\""#).unwrap();
    assert_eq!(text(&imp.game().round), Some("\"2\""));
}

#[test]
fn bytes_that_are_no_utf8_are_replaced() {
    let mut imp = Importer::new(Store::new());
    imp.begin_game();
    imp.header(b"White", b"Ann\xffa").unwrap();
    assert_eq!(text(&imp.game().white_name), Some("Ann\u{fffd}a"));
    imp.header(b"Site", b"K\xc3\xb6ln").unwrap();
    assert_eq!(text(&imp.game().site_name), Some("Köln"));
    imp.header(b"Site", b"\xc3").unwrap();
    assert_eq!(text(&imp.game().site_name), Some("\u{fffd}"));
}

#[test]
fn every_header_goes_to_its_field() {
    let mut imp = Importer::new(Store::new());
    imp.begin_game();
    imp.header(b"TimeControl", b"300+2").unwrap();
    imp.header(b"ECO", b"B12").unwrap();
    imp.header(b"Round", b"7").unwrap();
    imp.header(b"Site", b"Linz").unwrap();
    imp.header(b"Event", b"Cup").unwrap();
    imp.header(b"Result", b"1/2-1/2").unwrap();
    imp.header(b"white", b"not a header").unwrap();
    let game = imp.game();
    assert_eq!(text(&game.time_control), Some("300+2"));
    assert_eq!(text(&game.eco), Some("B12"));
    assert_eq!(text(&game.round), Some("7"));
    assert_eq!(text(&game.site_name), Some("Linz"));
    assert_eq!(text(&game.event_name), Some("Cup"));
    assert_eq!(text(&game.result), Some("1/2-1/2"));
    assert_eq!(game.white_name, None);
}

#[test]
fn send_commits_whatever_the_state() {
    let mut imp = Importer::new(Store::new());
    imp.begin_game();
    imp.header(b"WhiteTitle", b"BOT").unwrap();
    imp.san(b"e4");
    assert_eq!(imp.send(), Ok(1));
    assert_eq!(imp.store().game_count(), 1);
    assert_eq!(imp.store().game(1).unwrap().ply_count, 1);
}

use bullet_trainer::board::occupied_squares;
use bullet_trainer::epd::{parse_i16_or, parse_result, parse_unsigned_or, split_fields, split_rows};
use bullet_trainer::formats::{ChessBoard, EpdError, MarlinFormat, Position};
use bullet_trainer::inputs::{
    get_num_buckets, Ataxx147, BoardCUDA, Chess768, ChessBuckets, Feat, Features, MAX_FEATURES,
};
use bullet_trainer::loader::{chess768_features, layout_features, SfBinpackLoader, ShuffleOptions, SchedulerType};

const PARSE_FEN: &str = "r1bq1bnr/pppp1kp1/2n1p3/5N1p/1PP5/8/P2PPPPP/RNBQKB1R w - - 0 1 55 [1.0]";

#[test]
fn test_parse() {
    let pos = Position::from_epd(PARSE_FEN).unwrap();

    let pieces = [
        "WHITE PAWN",
        "WHITE KNIGHT",
        "WHITE BISHOP",
        "WHITE ROOK",
        "WHITE QUEEN",
        "WHITE KING",
        "BLACK PAWN",
        "BLACK KNIGHT",
        "BLACK BISHOP",
        "BLACK ROOK",
        "BLACK QUEEN",
        "BLACK KING",
    ];

    let files = ['a', 'b', 'c', 'd', 'e', 'f', 'g', 'h'];

    for (piece, square) in pos.features() {
        let pc = pieces[piece as usize];
        let sq = format!("{}{}", files[square as usize % 8], 1 + square / 8);
        println!("{pc}: {sq}")
    }

    println!("{pos:#?}");

    println!("res: {}", pos.result_idx());
    println!("stm: {}", pos.stm());
    println!("score: {}", pos.score());
}

#[test]
fn position_fields_are_read() {
    let pos = Position::from_epd(PARSE_FEN).unwrap();
    assert_eq!(pos.result_idx(), 2);
    assert_eq!(pos.stm(), 0);
    assert_eq!(pos.score(), 55);
    assert_eq!(pos.hfm, 0);
    assert_eq!(pos.fmc, 1);
    let feats = pos.features();
    assert_eq!(feats.len(), 31);
    // a1 white rook, b1 white knight, then the white king on e1
    assert_eq!(feats[0], (3, 0));
    assert_eq!(feats[1], (1, 1));
    assert_eq!(feats[4], (5, 4));
    // black king on f7 is the eleventh piece from the top
    assert!(feats.contains(&(11, 53)));
}

#[test]
fn position_rejects_bad_records() {
    assert_eq!(Position::from_epd("8/8/8/8/8/8/8/8 w - - 0 1").unwrap_err(), EpdError::MissingField);
    assert_eq!(
        Position::from_epd("8/8/8/8/8/8/8/8 w - - 0 1 0 [2.0]").unwrap_err(),
        EpdError::BadResult
    );
    assert_eq!(
        Position::from_epd("p/8/8/8/8/8/8/8/8 w - - 0 1 0 [0.5]").unwrap_err(),
        EpdError::BadBoard
    );
    assert_eq!(
        Position::from_epd("8/8/8/8/8/8/8/88888888p w - - 0 1 0 [0.5]").unwrap_err(),
        EpdError::BadBoard
    );
    assert_eq!(
        ChessBoard::from_epd("8/8/8/8/8/8/8/8/8 b - - 0 1 0 [0.5]").unwrap_err(),
        EpdError::BadBoard
    );
}

#[test]
fn position_clock_fallbacks() {
    let pos = Position::from_epd("4k3/8/8/8/8/8/8/4K3 b - - x 300 99999 [0.5]").unwrap();
    assert_eq!(pos.hfm, 0);
    assert_eq!(pos.fmc, 300);
    assert_eq!(pos.score(), 0);
    assert_eq!(pos.stm(), 1);
    assert_eq!(pos.result_idx(), 1);
}

#[test]
fn chess_board_from_epd_black_to_move() {
    let board = ChessBoard::from_epd("4k3/8/8/8/8/8/8/4K3 b - - 0 1 -25 [0.0]").unwrap();
    assert_eq!(board.score(), 25);
    assert_eq!(board.result_idx(), 2);
    assert_eq!(board.ksq, 4);
    assert_eq!(board.occ, (1u64 << 4) | (1u64 << 60));
    assert_eq!(board.features(), vec![(0, 5, 4, 4), (1, 5, 60, 4)]);
}

#[test]
fn marlinformat_conversion_matches_text() {
    let board = ChessBoard::from_epd("4k3/8/8/8/8/8/8/4K3 b - - 0 1 0 [0.0]").unwrap();
    let mut pcs = [0u8; 16];
    pcs[0] = 5 | (13 << 4);
    let mf = MarlinFormat {
        occ: (1u64 << 4) | (1u64 << 60),
        pcs,
        stm_enp: 128,
        hfm: 0,
        fmc: 1,
        score: 0,
        result: 0,
        extra: 0,
    };
    assert_eq!(mf.stm(), 1);
    assert_eq!(mf.features(), vec![(0, 5, 4), (1, 5, 60)]);
    let mf_board = ChessBoard::from_marlinformat(&mf);
    assert_eq!(board, mf_board);
}

#[test]
fn marlinformat_unmoved_rook_reads_as_rook() {
    let mut pcs = [0u8; 16];
    pcs[0] = 6;
    let mf = MarlinFormat { occ: 1, pcs, stm_enp: 0, hfm: 0, fmc: 0, score: 7, result: 1, extra: 0 };
    assert_eq!(mf.features(), vec![(0, 3, 0)]);
    assert_eq!(mf.score(), 7);
    assert_eq!(mf.result_idx(), 1);
}

#[test]
fn packed_squares_in_order() {
    let mut pcs = [0u8; 16];
    pcs[0] = 0x21;
    pcs[1] = 0x03;
    let sq = occupied_squares((1 << 3) | (1 << 9) | (1 << 40), &pcs);
    assert_eq!(sq, vec![(1, 3), (2, 9), (3, 40)]);
}

#[test]
fn field_and_row_splitting() {
    let f = split_fields(b"  ab \t c\nd  ");
    assert_eq!(f, vec![b"ab".to_vec(), b"c".to_vec(), b"d".to_vec()]);
    let r = split_rows(&b"a//b".to_vec());
    assert_eq!(r, vec![b"a".to_vec(), vec![], b"b".to_vec()]);
}

#[test]
fn number_and_result_parsing() {
    assert_eq!(parse_i16_or(&b"-32768".to_vec(), 0), -32768);
    assert_eq!(parse_i16_or(&b"32768".to_vec(), 5), 5);
    assert_eq!(parse_i16_or(&b"+12".to_vec(), 0), 12);
    assert_eq!(parse_i16_or(&b"-".to_vec(), 3), 3);
    assert_eq!(parse_unsigned_or(&b"255".to_vec(), 255, 0), 255);
    assert_eq!(parse_unsigned_or(&b"256".to_vec(), 255, 0), 0);
    assert_eq!(parse_unsigned_or(&b"-1".to_vec(), 255, 9), 9);
    assert_eq!(parse_result(&b"[1.0]".to_vec()), Some(2));
    assert_eq!(parse_result(&b"[0.5]".to_vec()), Some(1));
    assert_eq!(parse_result(&b"[0.0]".to_vec()), Some(0));
    assert_eq!(parse_result(&b"[1.5]".to_vec()), None);
}

#[test]
fn chess768_feature_indices() {
    assert_eq!(Chess768::get_feature_indices((1, 10, 0, 0)), (74, 498));
    assert_eq!(Chess768::get_feature_indices((9, 10, 0, 0)), (458, 114));
    assert_eq!(Chess768.size(), 768);
    assert_eq!(Chess768.max_active(), MAX_FEATURES);
}

#[test]
fn bucketed_feature_indices() {
    let mut table = [0usize; 64];
    table[4] = 1;
    table[60] = 2;
    assert_eq!(get_num_buckets(&table), 3);
    assert_eq!(get_num_buckets(&[]), 1);
    let b = ChessBuckets::new(table);
    assert_eq!(b.num_buckets, 3);
    assert_eq!(b.get_feature_indices((1, 10, 4, 60)), (768 + 74, 2 * 768 + 498));
}

#[test]
fn ataxx_feature_indices() {
    assert_eq!(Ataxx147::get_feature_indices((1, 0)), (49, 49 + 42));
    assert_eq!(Ataxx147::get_feature_indices((2, 48)), (98 + 48, 98 + 6));
    assert_eq!(Ataxx147.size(), 147);
}

#[test]
fn feature_pairs_and_records() {
    let f = Feat::new(3, 9);
    assert_eq!((f.our(), f.opp()), (3, 9));
    assert_eq!(BoardCUDA::len(), 32);
    let mut feats = Features::new();
    feats.push(1, 2);
    feats.push(3, 4);
    assert_eq!(feats.next(), Some((1, 2)));
    assert_eq!(feats.next(), Some((3, 4)));
    assert_eq!(feats.next(), None);
}

#[test]
fn board_features_become_records() {
    let board = ChessBoard::from_epd("4k3/8/8/8/8/8/8/4K3 w - - 0 1 0 [0.5]").unwrap();
    let feats = chess768_features(&board);
    assert_eq!(feats, vec![(5 * 64 + 4, 384 + 5 * 64 + 60), (384 + 5 * 64 + 60, 5 * 64 + 4)]);
    let records = layout_features(&vec![feats, vec![]], 3);
    let s = 0xFFFF;
    assert_eq!(
        records,
        vec![
            Feat::new(324, 764),
            Feat::new(764, 324),
            Feat::new(s, s),
            Feat::new(s, s),
            Feat::new(0, 0),
            Feat::new(0, 0),
        ]
    );
}

#[test]
fn loader_and_shuffler_sizes() {
    let l = SfBinpackLoader::new("data.binpack", 1);
    assert_eq!(l.buffer_size, 16384);
    assert_eq!(l.file_path, "data.binpack");
    let opts = ShuffleOptions { input: String::new(), output: String::new(), mem_used_mb: 1 };
    assert_eq!(opts.actual_buffer_size(4, 1000), 256);
    assert_eq!(opts.tmp_file_count(1000), 4);
    assert_eq!(opts.tmp_file_count(9000), 10);
}

#[test]
fn scheduler_drop_points() {
    assert!(SchedulerType::Drop { drop: 5 }.drops_at(5));
    assert!(!SchedulerType::Drop { drop: 5 }.drops_at(10));
    assert!(SchedulerType::Step { step: 4 }.drops_at(8));
    assert!(!SchedulerType::Step { step: 4 }.drops_at(9));
}

#[test]
fn device_records_for_both_sides() {
    let (our, opp) = BoardCUDA::from_features(&vec![(324, 764), (764, 324)]);
    assert_eq!(&our.features[..4], &[324, 764, 0xFFFF, 0]);
    assert_eq!(&opp.features[..4], &[764, 324, 0xFFFF, 0]);
    let full: Vec<(usize, usize)> = (0..32).map(|i| (i, i + 1)).collect();
    let (our, opp) = BoardCUDA::from_features(&full);
    assert_eq!(our.features[31], 31);
    assert_eq!(opp.features[31], 32);
}

#[test]
fn working_conversion() {
    let board = ChessBoard::from_epd(
        "r2k3r/p1ppqpb1/bn2pnp1/3PN3/1p2P3/2N2Q1p/PPPBBPPP/R3K2R b - - 0 1 5 [1.0]",
    )
    .unwrap();
    let mf = MarlinFormat::from_epd(
        "r2k3r/p1ppqpb1/bn2pnp1/3PN3/1p2P3/2N2Q1p/PPPBBPPP/R3K2R b - - 0 1 5 [1.0]",
    )
    .unwrap();
    let mf_board = ChessBoard::from_marlinformat(&mf);

    println!("{mf:?}");
    println!("{board:?}");
    println!("{mf_board:?}");

    assert_eq!(board, mf_board);
}

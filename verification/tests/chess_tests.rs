use chessboard::chess::Board;
use chessboard::chess::Kind;
use chessboard::chess::Pair;
use chessboard::chess::Piece;

#[test]
fn test_board() {
    let mut board = Board::default();

    board.move_piece((1, 1), (1, 3)).unwrap();
    assert_eq!(
        board.at((1, 3)),
        Some(Pair { kind: Kind::Black, piece: Piece::Pawn })
    );

    assert_eq!(board.at((1, 1)), None);

    board.move_piece((6, 1), (6, 4)).unwrap();
    assert_eq!(
        board.at((6, 4)),
        Some(Pair { kind: Kind::White, piece: Piece::Pawn })
    );
    assert_eq!(board.at((6, 1)), None);
}

// use default board but remove the pawns before test
#[test]
fn test_all_moves_rook() {
    let mut board = Board::default();

    for i in 0..8 {
        board.set_square((1, i), None);
        board.set_square((6, i), None);
    }

    // test rook
    assert_eq!(
        board.all_moves((0, 0)),
        vec![(1, 0), (2, 0), (3, 0), (4, 0), (5, 0), (6, 0), (7, 0)]
    );
    assert_eq!(
        board.all_moves((0, 7)),
        vec![(1, 7), (2, 7), (3, 7), (4, 7), (5, 7), (6, 7), (7, 7)]
    );
    assert_eq!(
        board.all_moves((7, 0)),
        vec![(6, 0), (5, 0), (4, 0), (3, 0), (2, 0), (1, 0), (0, 0)]
    );
    assert_eq!(
        board.all_moves((7, 7)),
        vec![(6, 7), (5, 7), (4, 7), (3, 7), (2, 7), (1, 7), (0, 7)]
    );
}

#[test]
fn test_all_moves_knight() {
    let mut board = Board::default();

    // test each knight's possible moves out of the starting position
    assert_eq!(board.all_moves((0, 1)), vec![(2, 0), (2, 2)]);
    assert_eq!(board.all_moves((0, 6)), vec![(2, 5), (2, 7)]);
    assert_eq!(board.all_moves((7, 1)), vec![(5, 0), (5, 2)]);
    assert_eq!(board.all_moves((7, 6)), vec![(5, 5), (5, 7)]);

    // move a knight to the center
    board.move_piece((0, 1), (4, 4)).unwrap();

    let mut moves = board.all_moves((4, 4));
    let mut looking_for_moves = vec![
        (6, 3),
        (6, 5),
        (5, 2),
        (5, 6),
        (3, 2),
        (3, 6),
        (2, 3),
        (2, 5),
    ];

    looking_for_moves.sort();
    moves.sort();

    assert_eq!(moves, looking_for_moves);
}

#[test]
fn test_all_moves_bishop() {
    let mut board = Board::default();

    // test that bishops initially have no valid moves
    assert_eq!(board.all_moves((0, 2)), vec![]);
    assert_eq!(board.all_moves((0, 5)), vec![]);
    assert_eq!(board.all_moves((7, 2)), vec![]);
    assert_eq!(board.all_moves((7, 5)), vec![]);

    // move one bishop to the center
    board.move_piece((0, 2), (4, 4)).unwrap();

    // test that centered bishop has valid moves
    assert_eq!(
        board.all_moves((4, 4)),
        vec![
            (3, 3),
            (2, 2),
            (3, 5),
            (2, 6),
            (5, 3),
            (6, 2),
            (5, 5),
            (6, 6)
        ]
    );
}

#[test]
fn test_all_moves_queen() {
    let mut board = Board::default();

    // test that queens initially have no valid moves
    assert_eq!(board.all_moves((0, 3)), vec![]);
    assert_eq!(board.all_moves((7, 3)), vec![]);

    // move one queen to the center
    board.move_piece((0, 3), (4, 4)).unwrap();

    // test that centered queen has valid moves
    let mut moves = board.all_moves((4, 4));
    let mut looking_for_moves = vec![
        (2, 2),
        (2, 4),
        (2, 6),
        (3, 3),
        (3, 4),
        (3, 5),
        (4, 0),
        (4, 1),
        (4, 2),
        (4, 3),
        (4, 5),
        (4, 6),
        (4, 7),
        (5, 3),
        (5, 4),
        (5, 5),
        (6, 2),
        (6, 4),
        (6, 6),
    ];

    looking_for_moves.sort();
    moves.sort();

    assert_eq!(moves, looking_for_moves);
}

#[test]
fn test_all_moves_king() {
    let mut board = Board::default();

    // test that kings initially have no valid moves
    assert_eq!(board.all_moves((0, 4)), vec![]);
    assert_eq!(board.all_moves((7, 4)), vec![]);

    // move one king to the center
    board.move_piece((0, 4), (4, 4)).unwrap();

    // test that centered king has valid moves
    let mut moves = board.all_moves((4, 4));
    let mut looking_for_moves = vec![
        (3, 3),
        (3, 4),
        (3, 5),
        (4, 3),
        (4, 5),
        (5, 3),
        (5, 4),
        (5, 5),
    ];

    looking_for_moves.sort();
    moves.sort();

    assert_eq!(moves, looking_for_moves);
}

#[test]
fn test_all_moves_pawn_white() {
    let board = Board::default();

    // assert that all pawns initially have valid moves
    for i in 0..8 {
        assert_eq!(board.all_moves((1, i)), vec![(2, i), (3, i)]);
    }

    {
        // move a pawn up by one square and assert it can only move by one square from then on
        let mut board = Board::default();

        board.move_piece((1, 0), (2, 0)).unwrap();
        assert_eq!(board.all_moves((2, 0)), vec![(3, 0)]);

        board.move_piece((2, 0), (3, 0)).unwrap();
        assert_eq!(board.all_moves((3, 0)), vec![(4, 0)]);
    }
}

#[test]
fn test_all_moves_pawn_black() {
    {
        let board = Board::default();

        // assert that all black pawns can move
        for i in 0..8 {
            assert_eq!(board.all_moves((6, i)), vec![(5, i), (4, i)]);
        }
    }

    {
        // move a pawn down by one square and assert it can only move by one square from then on
        let mut board = Board::default();

        board.move_piece((6, 0), (5, 0)).unwrap();
        assert_eq!(board.all_moves((5, 0)), vec![(4, 0)]);

        board.move_piece((5, 0), (4, 0)).unwrap();
        assert_eq!(board.all_moves((4, 0)), vec![(3, 0)]);
    }
}

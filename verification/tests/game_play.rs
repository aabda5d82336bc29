use retris::game::{Game, GameState};
use retris::piece::Tetris;

fn game_with(curter: Tetris) -> Game {
    let mut g = Game::new();
    g.curter = curter;
    g.nxtter = Tetris::from_bytes(0, 0);
    g
}

#[test]
fn new_game_is_stopped_and_empty() {
    let g = Game::new();
    assert!(g.state == GameState::Stopped);
    assert_eq!(g.scores, 0);
    assert_eq!(g.blockes, [[0u8; 10]; 20]);
    assert_eq!(g.curter.position, [-2, 5]);
    assert_eq!(g.nxtter.position, [-2, 5]);
}

#[test]
fn a_free_piece_falls_one_row() {
    let mut g = game_with(Tetris { kind: 0, position: [3, 4], direc: 0 });
    assert!(g.down_fits_score());
    assert!(!g.down());
    assert_eq!(g.curter.position, [4, 4]);
    assert_eq!(g.scores, 0);
    assert_eq!(g.blockes, [[0u8; 10]; 20]);
}

#[test]
fn a_landing_piece_is_fixed_and_the_next_one_falls() {
    // An O piece resting on the floor.
    let mut g = game_with(Tetris { kind: 6, position: [18, 0], direc: 0 });
    let next = g.nxtter;
    assert!(!g.down());
    assert_eq!(g.blockes[18][0], 1);
    assert_eq!(g.blockes[19][0], 1);
    assert_eq!(g.blockes[18][1], 1);
    assert_eq!(g.blockes[19][1], 1);
    assert_eq!(g.curter.kind, next.kind);
    assert_eq!(g.curter.position, next.position);
    assert_eq!(g.nxtter.position, [-2, 5]);
    assert_eq!(g.scores, 0);
}

#[test]
fn one_full_row_scores_twenty() {
    let mut g = game_with(Tetris { kind: 5, position: [19, 1], direc: 1 });
    // The I piece lies along row 19 over columns 0 to 3 when turned once.
    for y in 4..10 {
        g.blockes[19][y] = 1;
    }
    g.blockes[18][7] = 1;
    assert!(!g.down());
    assert_eq!(g.scores, 20);
    for x in 0..20 {
        assert!(g.blockes[x].iter().any(|v| *v == 0));
        assert!(g.blockes[x].iter().all(|v| *v <= 1));
    }
    let mut expected = [[0u8; 10]; 20];
    expected[19][7] = 1;
    assert_eq!(g.blockes, expected);
}

#[test]
fn two_full_rows_score_four_hundred() {
    let mut g = game_with(Tetris { kind: 6, position: [18, 0], direc: 0 });
    for x in 18..20 {
        for y in 2..10 {
            g.blockes[x][y] = 1;
        }
    }
    g.scores = 5;
    assert!(!g.down());
    assert_eq!(g.scores, 405);
    assert_eq!(g.blockes, [[0u8; 10]; 20]);
}

#[test]
fn four_full_rows_score_twenty_to_the_fourth() {
    // The I piece standing upright in column 9, from row 16 to 19.
    let mut g = game_with(Tetris { kind: 5, position: [18, 9], direc: 0 });
    for x in 16..20 {
        for y in 0..9 {
            g.blockes[x][y] = 1;
        }
    }
    assert!(!g.down());
    assert_eq!(g.scores, 160_000);
    assert_eq!(g.blockes, [[0u8; 10]; 20]);
}

#[test]
fn landing_above_the_well_ends_the_game() {
    let mut g = game_with(Tetris { kind: 6, position: [-1, 4], direc: 0 });
    g.state = GameState::Playing;
    g.blockes[1][4] = 1;
    assert!(g.down());
    assert!(g.state == GameState::Stopped);
    // Square 0 at (-1, 4) is outside the well: nothing was filled in.
    g.blockes[1][4] = 0;
    assert_eq!(g.blockes, [[0u8; 10]; 20]);
}

#[test]
fn squares_before_the_one_outside_are_filled_in() {
    // An I piece upright: squares at rows 0, -1, 1, -2 of column 3.
    let mut g = game_with(Tetris { kind: 5, position: [0, 3], direc: 0 });
    g.state = GameState::Playing;
    g.blockes[2][3] = 1;
    assert!(g.down());
    assert!(g.state == GameState::Stopped);
    // Square 0 at row 0 was filled in before square 1 at row -1 stopped it.
    assert_eq!(g.blockes[0][3], 1);
    assert_eq!(g.blockes[1][3], 0);
}

#[test]
fn score_check_sees_an_overflow_coming() {
    let mut g = game_with(Tetris { kind: 6, position: [18, 0], direc: 0 });
    for x in 18..20 {
        for y in 2..10 {
            g.blockes[x][y] = 1;
        }
    }
    g.scores = u128::MAX - 400;
    assert!(g.down_fits_score());
    g.scores = u128::MAX - 399;
    assert!(!g.down_fits_score());
    // Without a landing nothing is added.
    let mut h = game_with(Tetris { kind: 6, position: [3, 0], direc: 0 });
    h.scores = u128::MAX;
    assert!(h.down_fits_score());
}

#[test]
fn sideways_moves_stop_at_walls_and_squares() {
    let mut g = game_with(Tetris { kind: 6, position: [5, 0], direc: 0 });
    g.vertical(-1);
    assert_eq!(g.curter.position, [5, 0]);
    g.vertical(1);
    assert_eq!(g.curter.position, [5, 1]);
    g.blockes[6][3] = 1;
    g.vertical(1);
    assert_eq!(g.curter.position, [5, 1]);
    // Squares above the well do not block.
    let mut h = game_with(Tetris { kind: 6, position: [-3, 8], direc: 0 });
    h.vertical(1);
    assert_eq!(h.curter.position, [-3, 8]);
    h.vertical(-1);
    assert_eq!(h.curter.position, [-3, 7]);
}

#[test]
fn turning_is_undone_when_the_piece_would_not_fit() {
    // The T piece at the left wall: the turn that would send a square to
    // column -1 is refused.
    let mut g = game_with(Tetris { kind: 0, position: [5, 0], direc: 3 });
    g.turn();
    assert_eq!(g.curter.direc, 3);
    let mut h = game_with(Tetris { kind: 0, position: [5, 4], direc: 3 });
    h.turn();
    assert_eq!(h.curter.direc, 0);
    h.blockes[4][4] = 1;
    h.turn();
    assert_eq!(h.curter.direc, 0);
}

use retris::frame::FrameWork;
use retris::game::{Game, GameState};
use retris::piece::Tetris;
use retris::screen::InterFace;
use retris::text::{chars_of, decimal_chars};

fn row_text(frame: &Vec<Vec<char>>, r: usize) -> String {
    frame[r].iter().collect()
}

#[test]
fn decimal_digits() {
    assert_eq!(decimal_chars(0), vec!['0']);
    assert_eq!(decimal_chars(7), vec!['7']);
    assert_eq!(decimal_chars(1204), vec!['1', '2', '0', '4']);
    let max: String = decimal_chars(u128::MAX).into_iter().collect();
    assert_eq!(max, u128::MAX.to_string());
    assert_eq!(max.len(), 39);
}

#[test]
fn chars_of_keeps_every_character() {
    assert_eq!(chars_of("a↑b"), vec!['a', '↑', 'b']);
    assert_eq!(chars_of(""), Vec::<char>::new());
}

#[test]
fn framework_new_draws_the_edge() {
    let f = FrameWork::new(3, 4);
    assert_eq!(f.height, 3);
    assert_eq!(f.width, 4);
    assert_eq!(f.stringify, vec![vec![6, 12, 12, 10], vec![3, 0, 0, 3], vec![5, 12, 12, 9]]);
    let v = f.get_vec();
    let text: Vec<String> = v.iter().map(|r| r.iter().collect()).collect();
    assert_eq!(text, vec!["╔══╗", "║  ║", "╚══╝"]);
}

#[test]
fn framework_one_row_draws_nothing() {
    let f = FrameWork::new(1, 5);
    assert_eq!(f.stringify, vec![vec![0; 5]]);
}

#[test]
fn rdraw_refuses_rectangles_off_the_canvas() {
    let mut f = FrameWork::new(4, 4);
    let before = f.stringify.clone();
    assert!(!f.rdraw(0, 4, 0, 2));
    assert!(!f.rdraw(0, 2, 1, 1));
    assert!(!f.rdraw(2, 2, 0, 3));
    assert_eq!(f.stringify, before);
}

#[test]
fn rdraw_joins_lines_where_they_cross() {
    let mut f = FrameWork::new(5, 5);
    assert!(f.rdraw(0, 2, 0, 4));
    // Row 2 now has a horizontal line meeting the outer vertical lines.
    assert_eq!(f.stringify[2], vec![3 | 5, 12, 12, 12, 3 | 9]);
    let text: String = f.get_vec()[2].iter().collect();
    assert_eq!(text, "╠═══╣");
    // Drawing the same rectangle again changes nothing.
    let before = f.stringify.clone();
    assert!(f.rdraw(0, 2, 0, 4));
    assert_eq!(f.stringify, before);
}

#[test]
fn draw_counts_rows_from_the_bottom() {
    let mut a = FrameWork::new(6, 6);
    let mut b = FrameWork::new(6, 6);
    assert!(a.draw(1, 1, 3, 2));
    assert!(b.rdraw(2, 4, 1, 4));
    assert_eq!(a.stringify, b.stringify);
}

#[test]
fn write_puts_text_in_place() {
    let mut screen = vec![vec!['.'; 8]; 2];
    retris::screen::write(&mut screen, 2, 1, &['a', 'b', 'c']);
    assert_eq!(screen[1], vec!['.', '.', 'a', 'b', 'c', '.', '.', '.']);
    assert_eq!(screen[0], vec!['.'; 8]);
}

#[test]
fn interface_layout() {
    let g = Game::new();
    let frame = g.interface.show_frame(
        &Tetris { kind: 0, position: [-5, 5], direc: 0 },
        &Tetris { kind: 6, position: [-2, 5], direc: 0 },
        &[[0u8; 10]; 20],
        &GameState::Stopped,
        0,
    );
    assert_eq!(frame.len(), 30);
    for r in 0..30 {
        assert_eq!(frame[r].len(), 70);
    }
    assert_eq!(frame[0][0], '╔');
    assert_eq!(frame[0][39], '╦');
    assert_eq!(frame[0][69], '╗');
    assert_eq!(frame[29][0], '╚');
    assert_eq!(frame[29][39], '╩');
    assert_eq!(frame[29][69], '╝');
    assert_eq!(frame[6][9], '╔');
    assert_eq!(frame[27][30], '╝');
    assert!(row_text(&frame, 2).contains("Next Tetris"));
    let r20: String = frame[20][43..48].iter().collect();
    assert_eq!(r20, "↑↓←→:");
    let r21: String = frame[21][47..66].iter().collect();
    assert_eq!(r21, "control the tertris");
    let status: String = frame[5][17..27].iter().collect();
    assert_eq!(status, "You loose!");
    let score: String = frame[3][16..25].iter().collect();
    assert_eq!(score, "Scores: 0");
}

#[test]
fn picture_shows_pieces_and_blocks() {
    let _ = InterFace::new();
    let mut g = Game::new();
    g.curter = Tetris { kind: 6, position: [0, 0], direc: 0 };
    g.nxtter = Tetris { kind: 5, position: [-2, 5], direc: 0 };
    g.blockes[19][9] = 1;
    g.state = GameState::Playing;
    g.scores = 1234;
    let frame = g.show_all();
    // The O piece at rows 0 and 1, columns 0 and 1 of the well.
    for (r, c) in [(7, 10), (7, 11), (7, 12), (7, 13), (8, 10), (8, 13)] {
        assert_eq!(frame[r][c], '█');
    }
    assert_eq!(frame[7][14], ' ');
    // The I piece in the next box, upright at column 54 and 55.
    for r in 6..10 {
        assert_eq!(frame[r][54], '█');
        assert_eq!(frame[r][55], '█');
    }
    // The filled square at row 19, column 9.
    assert_eq!(frame[26][28], '█');
    assert_eq!(frame[26][29], '█');
    let status: String = frame[5][17..24].iter().collect();
    assert_eq!(status, "Playing");
    let score: String = frame[3][16..28].iter().collect();
    assert_eq!(score, "Scores: 1234");
}

#[test]
fn paused_picture_and_largest_score() {
    let mut g = Game::new();
    g.state = GameState::Pausing;
    g.scores = u128::MAX;
    let frame = g.show_all();
    let status: String = frame[5][17..24].iter().collect();
    assert_eq!(status, "Pausing");
    let score: String = frame[3][16..63].iter().collect();
    assert_eq!(score, format!("Scores: {}", u128::MAX));
}

#[test]
fn next_piece_preview_ignores_its_placement() {
    let mut g = Game::new();
    g.nxtter = Tetris { kind: 3, position: [-2, 5], direc: 0 };
    let a = g.show_all();
    g.nxtter = Tetris { kind: 3, position: [4, 1], direc: 2 };
    let b = g.show_all();
    assert_eq!(a, b);
}

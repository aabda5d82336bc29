use retris::piece::Tetris;
use retris::shape::{shape_point, xt_yt};

#[test]
fn shape_table_matches_the_seven_kinds() {
    // T, S, Z, J, L, I, O; square 0 is the centre of every kind.
    let expected: [[[i32; 2]; 4]; 7] = [
        [[0, 0], [0, -1], [0, 1], [1, 0]],
        [[0, 0], [0, 1], [1, 0], [1, -1]],
        [[0, 0], [0, -1], [1, 0], [1, 1]],
        [[0, 0], [-1, 0], [1, 0], [1, -1]],
        [[0, 0], [-1, 0], [1, 0], [1, 1]],
        [[0, 0], [-1, 0], [1, 0], [-2, 0]],
        [[0, 0], [1, 0], [0, 1], [1, 1]],
    ];
    for kind in 0..7 {
        for cell in 0..4 {
            assert_eq!(shape_point(kind, cell), expected[kind][cell]);
        }
    }
}

#[test]
fn xt_yt_turns_the_offset() {
    let mut t = Tetris { kind: 0, position: [5, 4], direc: 0 };
    let p = [1, 2];
    assert_eq!(xt_yt(&p, &t), (6, 6));
    // Clockwise on the screen: one row down and two columns right becomes
    // two rows down and one column left.
    t.direc = 1;
    assert_eq!(xt_yt(&p, &t), (7, 3));
    t.direc = 2;
    assert_eq!(xt_yt(&p, &t), (4, 2));
    t.direc = 3;
    assert_eq!(xt_yt(&p, &t), (3, 5));
    // Any direction from 3 on counts as three quarter turns.
    t.direc = 9;
    assert_eq!(xt_yt(&p, &t), (3, 5));
}

#[test]
fn from_bytes_takes_the_bytes_modulo() {
    let t = Tetris::from_bytes(9, 6);
    assert_eq!(t.kind, 2);
    assert_eq!(t.direc, 2);
    assert_eq!(t.position, [-2, 5]);
    let t = Tetris::from_bytes(255, 255);
    assert_eq!(t.kind, 255 % 7);
    assert_eq!(t.direc, 3);
}

#[test]
fn new_piece_is_dealt_at_the_top() {
    for _ in 0..50 {
        let t = Tetris::new();
        assert!(t.kind < 7);
        assert!(t.direc < 4);
        assert_eq!(t.position, [-2, 5]);
    }
}

#[test]
fn turn_and_unturn_undo_each_other() {
    for d in 0..4 {
        let mut t = Tetris { kind: 3, position: [1, 2], direc: d };
        t.turn();
        assert_eq!(t.direc, (d + 1) % 4);
        t.unturn();
        assert_eq!(t.direc, d);
        t.unturn();
        assert_eq!(t.direc, (d + 3) % 4);
        t.turn();
        assert_eq!(t.direc, d);
    }
}

#[test]
fn four_turns_bring_the_piece_back() {
    let mut t = Tetris { kind: 5, position: [3, 3], direc: 2 };
    for _ in 0..4 {
        t.turn();
    }
    assert_eq!(t.direc, 2);
    assert_eq!(t.position, [3, 3]);
    assert_eq!(t.kind, 5);
}

#[test]
fn turning_turns_every_square_about_the_centre() {
    for kind in 0..7 {
        for d in 0..4 {
            let t = Tetris { kind, position: [6, 4], direc: d };
            let mut u = t;
            u.turn();
            for cell in 0..4 {
                let p = shape_point(kind, cell);
                let (x0, y0) = xt_yt(&p, &t);
                let (x1, y1) = xt_yt(&p, &u);
                let rel = (x0 - 6, y0 - 4);
                assert_eq!((x1 - 6, y1 - 4), (rel.1, -rel.0));
            }
        }
    }
}

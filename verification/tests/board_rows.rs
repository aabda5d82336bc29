use retris::board::{clear_full_rows, remove_row, row_full, Board};

fn empty() -> Board {
    [[0u8; 10]; 20]
}

#[test]
fn row_full_needs_every_square() {
    let mut b = empty();
    b[7] = [1; 10];
    assert!(row_full(&b, 7));
    b[7][4] = 0;
    assert!(!row_full(&b, 7));
    assert!(!row_full(&b, 0));
}

#[test]
fn remove_row_lets_the_rows_above_fall() {
    let mut b = empty();
    for x in 0..20 {
        b[x][0] = x as u8;
    }
    remove_row(&mut b, 5);
    assert_eq!(b[0], [0u8; 10]);
    for x in 1..=5 {
        assert_eq!(b[x][0], (x - 1) as u8);
    }
    for x in 6..20 {
        assert_eq!(b[x][0], x as u8);
    }
}

#[test]
fn clearing_takes_out_full_rows_and_counts_them() {
    let mut b = empty();
    b[19] = [1; 10];
    b[18][3] = 1;
    b[17] = [1; 10];
    b[10][9] = 1;
    let filled_before = b.iter().flatten().filter(|v| **v != 0).count();
    let count = clear_full_rows(&mut b);
    assert_eq!(count, 2);
    let filled_after = b.iter().flatten().filter(|v| **v != 0).count();
    assert_eq!(filled_after, filled_before - 10 * count as usize);
    let mut expected = empty();
    expected[19][3] = 1;
    expected[12][9] = 1;
    assert_eq!(b, expected);
}

#[test]
fn clearing_a_well_without_full_rows_changes_nothing() {
    let mut b = empty();
    b[19][0] = 1;
    b[3][5] = 1;
    let before = b;
    assert_eq!(clear_full_rows(&mut b), 0);
    assert_eq!(b, before);
}

#[test]
fn clearing_a_full_well_empties_it() {
    let mut b = [[1u8; 10]; 20];
    assert_eq!(clear_full_rows(&mut b), 20);
    assert_eq!(b, empty());
}

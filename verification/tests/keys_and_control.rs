use retris::control::{Key, Reaction, TickReaction};
use retris::game::{Game, GameState};
use retris::keys::{read_step, ReadState, ReadStep};
use retris::piece::Tetris;

fn read_all(bytes: &[u8]) -> u8 {
    let mut state = ReadState::Start;
    let mut i = 0;
    loop {
        let input = if i < bytes.len() { Some(bytes[i]) } else { None };
        i += 1;
        match read_step(state, input) {
            ReadStep::Key(k) => return k,
            ReadStep::More(s) => state = s,
        }
    }
}

#[test]
fn plain_bytes_are_keys() {
    assert_eq!(read_all(b"a"), b'a');
    assert_eq!(read_all(b"qz"), b'q');
    assert_eq!(read_all(b""), 0);
}

#[test]
fn control_sequences_give_the_byte_after_their_letter() {
    assert_eq!(read_all(&[27, b'[', b'A', b'x']), b'x');
    assert_eq!(read_all(&[27, b'[', b'1', b';', b'5', b'C', b'y']), b'y');
    assert_eq!(read_all(&[27, b'2', b'~', b'B', b'k']), b'k');
    assert_eq!(read_all(&[27, b'[', b'A']), 0);
    assert_eq!(read_all(&[27, b'[', b'1']), 0);
}

#[test]
fn other_escapes() {
    assert_eq!(read_all(&[27, b'(', b'B', b'C']), b'C');
    assert_eq!(read_all(&[27, b'#', b'8']), 0);
    assert_eq!(read_all(&[27, b'O', b'P']), b'P');
    assert_eq!(read_all(&[27, b'O']), 0);
    assert_eq!(read_all(&[27]), 0);
}

fn playing_game() -> Game {
    let mut g = Game::new();
    assert_eq!(g.trans(), Reaction::RedrawAndStartTimer);
    g
}

#[test]
fn space_starts_pauses_and_resumes() {
    let mut g = Game::new();
    g.scores = 9;
    g.blockes[19][0] = 1;
    assert_eq!(g.on_key(Key::Char(' ')), Reaction::RedrawAndStartTimer);
    assert!(g.state == GameState::Playing);
    // A stopped game is replaced by a new one.
    assert_eq!(g.scores, 0);
    assert_eq!(g.blockes, [[0u8; 10]; 20]);
    g.blockes[19][0] = 1;
    assert_eq!(g.on_key(Key::Char(' ')), Reaction::Redraw);
    assert!(g.state == GameState::Pausing);
    assert_eq!(g.on_key(Key::Char(' ')), Reaction::RedrawAndStartTimer);
    assert!(g.state == GameState::Playing);
    assert_eq!(g.blockes[19][0], 1);
}

#[test]
fn q_quits_and_other_keys_do_nothing() {
    let mut g = playing_game();
    let pos = g.curter.position;
    assert_eq!(g.on_key(Key::Char('q')), Reaction::Quit);
    assert_eq!(g.on_key(Key::Char('x')), Reaction::Nothing);
    assert_eq!(g.on_key(Key::Other), Reaction::Nothing);
    assert_eq!(g.curter.position, pos);
}

#[test]
fn arrows_move_only_a_running_game() {
    let mut g = playing_game();
    g.curter = Tetris { kind: 6, position: [4, 4], direc: 0 };
    assert_eq!(g.on_key(Key::Left), Reaction::Redraw);
    assert_eq!(g.curter.position, [4, 3]);
    assert_eq!(g.on_key(Key::Right), Reaction::Redraw);
    assert_eq!(g.curter.position, [4, 4]);
    assert_eq!(g.on_key(Key::Down), Reaction::Redraw);
    assert_eq!(g.curter.position, [5, 4]);
    assert_eq!(g.on_key(Key::Up), Reaction::Redraw);
    assert_eq!(g.curter.direc, 1);
    g.on_key(Key::Char(' '));
    assert_eq!(g.on_key(Key::Left), Reaction::Nothing);
    assert_eq!(g.on_key(Key::Down), Reaction::Nothing);
    assert_eq!(g.on_key(Key::Up), Reaction::Nothing);
    assert_eq!(g.curter.position, [5, 4]);
    assert_eq!(g.curter.direc, 1);
}

#[test]
fn ticks_drop_the_piece_until_the_game_stops() {
    let mut g = playing_game();
    g.curter = Tetris { kind: 6, position: [4, 4], direc: 0 };
    assert_eq!(g.on_tick(), TickReaction::Continue);
    assert_eq!(g.curter.position, [5, 4]);
    g.on_key(Key::Char(' '));
    // A paused game does not move; the timer stops.
    assert_eq!(g.on_tick(), TickReaction::Stop);
    assert_eq!(g.curter.position, [5, 4]);
    g.on_key(Key::Char(' '));
    g.curter = Tetris { kind: 6, position: [-1, 4], direc: 0 };
    g.blockes[1][4] = 1;
    assert_eq!(g.on_tick(), TickReaction::RedrawAndStop);
    assert!(g.state == GameState::Stopped);
}

#[test]
fn pausing_and_resuming_keeps_the_game() {
    let mut g = playing_game();
    g.curter = Tetris { kind: 2, position: [7, 3], direc: 1 };
    g.blockes[19][2] = 1;
    g.scores = 77;
    let next = g.nxtter;
    assert_eq!(g.trans(), Reaction::Redraw);
    assert_eq!(g.trans(), Reaction::RedrawAndStartTimer);
    assert!(g.state == GameState::Playing);
    assert_eq!(g.curter.kind, 2);
    assert_eq!(g.curter.position, [7, 3]);
    assert_eq!(g.curter.direc, 1);
    assert_eq!(g.nxtter.kind, next.kind);
    assert_eq!(g.nxtter.direc, next.direc);
    assert_eq!(g.scores, 77);
    let mut expected = [[0u8; 10]; 20];
    expected[19][2] = 1;
    assert_eq!(g.blockes, expected);
}

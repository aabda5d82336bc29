use vstd::prelude::*;

use crate::board::{ROWS, grid, empty_row};
use crate::game::{Game, GameState, down_gain, down_post, ends_game, turn_post, vertical_post};
use crate::screen::template;

verus! {

/// A key press, as far as the game tells keys apart.
#[derive(Clone, Copy, PartialEq, Eq, Structural, Debug)]
pub enum Key {
    Char(char),
    Up,
    Down,
    Left,
    Right,
    Other,
}

/// What the program must do after a key press: leave, nothing, draw the
/// game again, or draw it and start the timer that makes the piece fall.
#[derive(Clone, Copy, PartialEq, Eq, Structural, Debug)]
pub enum Reaction {
    Quit,
    Nothing,
    Redraw,
    RedrawAndStartTimer,
}

/// What the timer must do after a tick: draw the game and go on, stop, or
/// draw the game (it has just ended) and stop.
#[derive(Clone, Copy, PartialEq, Eq, Structural, Debug)]
pub enum TickReaction {
    Continue,
    Stop,
    RedrawAndStop,
}

/// `h` is `g` after the space key: a running game pauses, a paused one
/// runs again, and a stopped one is replaced by a new game that runs.
pub open spec fn trans_post(g: Game, h: Game) -> bool {
    if g.state == GameState::Playing {
        h == Game { state: GameState::Pausing, ..g }
    } else if g.state == GameState::Pausing {
        h == Game { state: GameState::Playing, ..g }
    } else {
        &&& h.state == GameState::Playing
        &&& h.interface@ == template()
        &&& grid(h.blockes) == Seq::new(ROWS as nat, |x: int| empty_row())
        &&& h.scores == 0
        &&& h.curter.is_fresh()
        &&& h.nxtter.is_fresh()
    }
}

/// The reaction to the space key in state `s`.
pub open spec fn trans_reaction(s: GameState) -> Reaction {
    if s == GameState::Playing {
        Reaction::Redraw
    } else {
        Reaction::RedrawAndStartTimer
    }
}

/// `h` is `g` after key `key`, and `r` the reaction: `q` quits, space
/// pauses or resumes, the arrows turn the piece, move it down or sideways
/// while the game runs; every other key changes nothing.
pub open spec fn key_post(g: Game, key: Key, h: Game, r: Reaction) -> bool {
    let playing = g.state == GameState::Playing;
    match key {
        Key::Char(c) => if c == 'q' {
            r == Reaction::Quit && h == g
        } else if c == ' ' {
            r == trans_reaction(g.state) && trans_post(g, h)
        } else {
            r == Reaction::Nothing && h == g
        },
        Key::Up => if playing {
            r == Reaction::Redraw && turn_post(g, h)
        } else {
            r == Reaction::Nothing && h == g
        },
        Key::Down => if playing {
            r == Reaction::Redraw && down_post(g, h)
        } else {
            r == Reaction::Nothing && h == g
        },
        Key::Left => if playing {
            r == Reaction::Redraw && vertical_post(g, h, -1)
        } else {
            r == Reaction::Nothing && h == g
        },
        Key::Right => if playing {
            r == Reaction::Redraw && vertical_post(g, h, 1)
        } else {
            r == Reaction::Nothing && h == g
        },
        Key::Other => r == Reaction::Nothing && h == g,
    }
}

impl Game {
    /// The space key: pauses a running game; otherwise starts a new game if
    /// the last one is over, lets it run, and asks for the timer.
    pub fn trans(&mut self) -> (r: Reaction)
        requires
            old(self).wf(),
        ensures
            final(self).wf(),
            r == trans_reaction(old(self).state),
            trans_post(*old(self), *final(self)),
    {
        if self.state == GameState::Playing {
            self.state = GameState::Pausing;
            Reaction::Redraw
        } else {
            if self.state == GameState::Stopped {
                *self = Game::new();
            }
            self.state = GameState::Playing;
            Reaction::RedrawAndStartTimer
        }
    }

    /// Handles one key press.
    pub fn on_key(&mut self, key: Key) -> (r: Reaction)
        requires
            old(self).wf(),
            key == Key::Down && old(self).state == GameState::Playing
                ==> old(self).scores + down_gain(*old(self)) <= u128::MAX,
        ensures
            final(self).wf(),
            key_post(*old(self), key, *final(self), r),
    {
        match key {
            Key::Char(ch) => {
                if ch == 'q' {
                    Reaction::Quit
                } else if ch == ' ' {
                    self.trans()
                } else {
                    Reaction::Nothing
                }
            },
            Key::Up => {
                if self.state == GameState::Playing {
                    self.turn();
                    Reaction::Redraw
                } else {
                    Reaction::Nothing
                }
            },
            Key::Down => {
                if self.state == GameState::Playing {
                    self.down();
                    Reaction::Redraw
                } else {
                    Reaction::Nothing
                }
            },
            Key::Left => {
                if self.state == GameState::Playing {
                    proof {
                        crate::game::lemma_in_well_position(self.curter);
                    }
                    self.vertical(-1);
                    Reaction::Redraw
                } else {
                    Reaction::Nothing
                }
            },
            Key::Right => {
                if self.state == GameState::Playing {
                    proof {
                        crate::game::lemma_in_well_position(self.curter);
                    }
                    self.vertical(1);
                    Reaction::Redraw
                } else {
                    Reaction::Nothing
                }
            },
            Key::Other => Reaction::Nothing,
        }
    }

    /// One tick of the timer: while the game runs the piece falls a step
    /// and the timer goes on, stopping after one more picture if that step
    /// ended the game; a paused or stopped game is left as it is and the
    /// timer stops.
    pub fn on_tick(&mut self) -> (r: TickReaction)
        requires
            old(self).wf(),
            old(self).state == GameState::Playing
                ==> old(self).scores + down_gain(*old(self)) <= u128::MAX,
        ensures
            final(self).wf(),
            r == tick_reaction(*old(self)),
            old(self).state == GameState::Playing ==> down_post(*old(self), *final(self)),
            old(self).state != GameState::Playing ==> *final(self) == *old(self),
    {
        if self.state != GameState::Playing {
            return TickReaction::Stop;
        }
        let game_over = self.down();
        if game_over {
            TickReaction::RedrawAndStop
        } else {
            TickReaction::Continue
        }
    }
}

/// What the timer does on a tick of game `g`: nothing but stop when the
/// game does not run; otherwise draw and go on, or draw and stop when the
/// step ends the game.
pub open spec fn tick_reaction(g: Game) -> TickReaction {
    if g.state != GameState::Playing {
        TickReaction::Stop
    } else if ends_game(g) {
        TickReaction::RedrawAndStop
    } else {
        TickReaction::Continue
    }
}

/// Pausing a running game and resuming it gives back the same game.
pub proof fn lemma_pause_resume(g: Game, h: Game, k: Game)
    requires
        g.state == GameState::Playing,
        trans_post(g, h),
        trans_post(h, k),
    ensures
        k == g,
        trans_reaction(g.state) == Reaction::Redraw,
        trans_reaction(h.state) == Reaction::RedrawAndStartTimer,
{
}

/// While the game does not run (paused or stopped), every arrow key is
/// answered with nothing to do and leaves the game exactly as it was; while
/// it runs, every arrow key asks for a new picture.
pub proof fn lemma_arrows_act_only_while_running(g: Game, key: Key, h: Game, r: Reaction)
    requires
        key == Key::Up || key == Key::Down || key == Key::Left || key == Key::Right,
        key_post(g, key, h, r),
    ensures
        g.state != GameState::Playing ==> r == Reaction::Nothing && h == g,
        g.state == GameState::Playing ==> r == Reaction::Redraw,
{
}

/// The `q` key quits and leaves the game as it was; the space key never
/// quits.
pub proof fn lemma_q_quits_space_pauses(g: Game, h: Game, r: Reaction, h2: Game, r2: Reaction)
    requires
        key_post(g, Key::Char('q'), h, r),
        key_post(g, Key::Char(' '), h2, r2),
    ensures
        r == Reaction::Quit,
        h == g,
        r2 != Reaction::Quit,
        g.state == GameState::Playing ==> h2.state == GameState::Pausing,
{
}

} // verus!

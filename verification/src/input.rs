//! One turn of the game loop: translate a key into a board operation,
//! then evaluate the board. Quit bypasses evaluation; every other key
//! — including ones that move nothing — ends in an evaluation, so the
//! outcome is uniform across keys.

use vstd::prelude::*;
use crate::board::Direction;
use crate::board::MSGame;
use crate::eval::TurnResult;
use crate::eval::spec_state;
use crate::eval::state_post;

verus! {

/// One key read from the player.
#[derive(Copy, Clone, Debug, PartialEq, Eq, Structural)]
pub enum InputKey {
    Up,
    Down,
    Left,
    Right,
    Char(char),
    Escape,
}

/// What one processed key leaves behind: the board operation the key
/// selects, followed by an evaluation whose outcome is returned. The
/// quit key returns Quit at once and touches nothing.
pub open spec fn process_post(pre: MSGame, post: MSGame, key: InputKey, r: TurnResult) -> bool {
    match key {
        InputKey::Up => exists|mid: MSGame|
            #[trigger] MSGame::move_post(pre, mid, Direction::Up) && state_post(mid, post) && r
                == spec_state(mid.board@),
        InputKey::Down => exists|mid: MSGame|
            #[trigger] MSGame::move_post(pre, mid, Direction::Down) && state_post(mid, post) && r
                == spec_state(mid.board@),
        InputKey::Left => exists|mid: MSGame|
            #[trigger] MSGame::move_post(pre, mid, Direction::Left) && state_post(mid, post) && r
                == spec_state(mid.board@),
        InputKey::Right => exists|mid: MSGame|
            #[trigger] MSGame::move_post(pre, mid, Direction::Right) && state_post(mid, post) && r
                == spec_state(mid.board@),
        InputKey::Char(c) => if c == 'q' {
            &&& r == TurnResult::Quit
            &&& MSGame::same_frame(pre, post)
            &&& post.board@ == pre.board@
        } else if c == 'f' {
            exists|mid: MSGame|
                #[trigger] MSGame::flag_post(pre, mid) && state_post(mid, post) && r == spec_state(
                    mid.board@,
                )
        } else if c == ' ' {
            exists|mid: MSGame|
                #[trigger] MSGame::open_post(pre, mid) && state_post(mid, post) && r == spec_state(
                    mid.board@,
                )
        } else {
            state_post(pre, post) && r == spec_state(pre.board@)
        },
        InputKey::Escape => state_post(pre, post) && r == spec_state(pre.board@),
    }
}

impl MSGame {
    /// Process one key: arrows move the cursor, 'f' toggles the flag,
    /// space reveals, 'q' quits immediately; anything else changes
    /// nothing. Every key but 'q' is followed by an evaluation of the
    /// board, whose outcome is returned.
    pub fn process_key(&mut self, key: InputKey) -> (r: TurnResult)
        requires
            old(self).wf(),
        ensures
            final(self).wf(),
            process_post(*old(self), *final(self), key, r),
    {
        match key {
            InputKey::Up => self.move_cursor(Direction::Up),
            InputKey::Left => self.move_cursor(Direction::Left),
            InputKey::Down => self.move_cursor(Direction::Down),
            InputKey::Right => self.move_cursor(Direction::Right),
            InputKey::Char(c) => {
                if c == 'q' {
                    return TurnResult::Quit;
                } else if c == 'f' {
                    self.flag();
                } else if c == ' ' {
                    self.open();
                }
            },
            InputKey::Escape => {},
        }
        let ghost mid = *self;
        let r = self.state();
        proof {
            assert(state_post(mid, *self));
            match key {
                InputKey::Up => {
                    assert(MSGame::move_post(*old(self), mid, Direction::Up));
                },
                InputKey::Down => {
                    assert(MSGame::move_post(*old(self), mid, Direction::Down));
                },
                InputKey::Left => {
                    assert(MSGame::move_post(*old(self), mid, Direction::Left));
                },
                InputKey::Right => {
                    assert(MSGame::move_post(*old(self), mid, Direction::Right));
                },
                InputKey::Char(c) => {
                    if c == 'f' {
                        assert(MSGame::flag_post(*old(self), mid));
                    } else if c == ' ' {
                        assert(MSGame::open_post(*old(self), mid));
                    }
                },
                InputKey::Escape => {},
            }
        }
        r
    }
}

} // verus!

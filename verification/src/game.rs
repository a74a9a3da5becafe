//! The movement resolver and the scene state machine: commands move, rotate
//! or drop the current piece against the board, and the game state steps
//! through intro, play and game over, owning score and difficulty.

use vstd::prelude::*;

use crate::block::{is_spawn, lemma_shape_has_cell, spec_rotate, Block, BlockState};
use crate::board::{
    cell_free, cleared_grid, completed_rows, fits, fresh_grid, lemma_cleared_wf, lemma_fits_bounds,
    lemma_fresh_wf, lemma_painted_wf, painted, wf_grid, Board,
};

verus! {

/// The closed set of command tokens the engine understands.
#[derive(Clone, Copy, PartialEq, Eq, Structural, Debug)]
pub enum Command {
    MoveToLeft,
    MoveToRight,
    MoveDown,
    Rotate,
    Drop,
    Go,
    Break,
}

/// The piece with its life-cycle state replaced.
pub open spec fn with_state(b: Block, s: BlockState) -> Block {
    Block { state: s, ..b }
}

/// The piece moved to row `y`.
pub open spec fn at_y(b: Block, y: int) -> Block {
    Block { y: y as i8, ..b }
}

/// The geometric effect of a command on a piece, before any validation.
pub open spec fn tentative(b: Block, cmd: Command) -> Block {
    match cmd {
        Command::MoveToLeft => Block { x: (b.x - 1) as i8, ..b },
        Command::MoveToRight => Block { x: (b.x + 1) as i8, ..b },
        Command::MoveDown => Block { y: (b.y + 1) as i8, ..b },
        Command::Rotate => spec_rotate(b),
        _ => b,
    }
}

/// What the movement resolver leaves in the piece: commands whose tentative
/// move fits are committed; a blocked strafe or rotation is discarded whole;
/// only blocked downward movement stacks the piece; a drop stacks it on the
/// last row where it still fits.
pub open spec fn resolver_rel(g: Seq<Seq<i8>>, b0: Block, cmd: Command, b1: Block) -> bool {
    match cmd {
        Command::Drop => {
            &&& b1 == (Block { y: b1.y, state: BlockState::STACKED, ..b0 })
            &&& b0.y <= b1.y
            &&& forall|z: int| b0.y < z <= b1.y ==> fits(g, #[trigger] at_y(b0, z))
            &&& !fits(g, at_y(b0, b1.y + 1))
        },
        Command::MoveDown => if fits(g, tentative(b0, cmd)) {
            b1 == with_state(tentative(b0, cmd), BlockState::DROPPING)
        } else {
            b1 == with_state(b0, BlockState::STACKED)
        },
        Command::MoveToLeft | Command::MoveToRight | Command::Rotate => b1 == with_state(
            if fits(g, tentative(b0, cmd)) {
                tentative(b0, cmd)
            } else {
                b0
            },
            BlockState::DROPPING,
        ),
        Command::Go | Command::Break => b1 == with_state(b0, BlockState::DROPPING),
    }
}

/// Resolve one movement command: apply its geometric effect to a copy of the
/// piece, validate the copy against the board, and commit or discard it. The
/// board itself is never changed; only a blocked downward move or a drop
/// stacks the piece.
pub fn block_movement(v: Command, board: &mut Board, block: &mut Block)
    requires
        old(block).rotation < 4,
        wf_grid(old(board)@),
        old(board)@.len() <= 126,
        -127 <= old(block).x <= 126,
        old(block).y < 127,
    ensures
        *final(board) == *old(board),
        resolver_rel(old(board)@, *old(block), v, *final(block)),
        final(block).rotation < 4,
{
    let ghost b0 = *block;
    let ghost g = board@;
    let mut block_tmp = *block;
    let mut state = BlockState::DROPPING;
    match v {
        Command::MoveToLeft => {
            block_tmp.x = block_tmp.x - 1;
        },
        Command::MoveToRight => {
            block_tmp.x = block_tmp.x + 1;
        },
        Command::MoveDown => {
            block_tmp.y = block_tmp.y + 1;
        },
        Command::Rotate => {
            block_tmp.rotate();
        },
        Command::Drop => {
            let mut dropped = false;
            while !dropped
                invariant
                    wf_grid(g),
                    g.len() <= 126,
                    g == board@,
                    *board == *old(board),
                    *block == b0,
                    b0.rotation < 4,
                    b0.y < 127,
                    block_tmp == (Block { y: block_tmp.y, ..b0 }),
                    !dropped ==> b0.y <= block_tmp.y <= 126,
                    !dropped ==> forall|z: int|
                        b0.y < z <= block_tmp.y ==> fits(g, #[trigger] at_y(b0, z)),
                    dropped ==> b0.y < block_tmp.y <= 127,
                    dropped ==> forall|z: int|
                        b0.y < z < block_tmp.y ==> fits(g, #[trigger] at_y(b0, z)),
                    dropped ==> !fits(g, at_y(b0, block_tmp.y as int)),
                decreases 127 - block_tmp.y,
            {
                block_tmp.y = block_tmp.y + 1;
                match board.check_with_block(&block_tmp) {
                    Ok(0) => {
                        proof {
                            assert(block_tmp == at_y(b0, block_tmp.y as int));
                            lemma_shape_has_cell(b0.shape, b0.rotation as int);
                            let (i, j) = choose|i: int, j: int|
                                crate::block::occupied(b0.shape, b0.rotation as int, i, j);
                            assert(cell_free(g, block_tmp, i, j));
                            assert(block_tmp.y < g.len());
                        }
                    },
                    _ => {
                        dropped = true;
                        proof {
                            assert(block_tmp == at_y(b0, block_tmp.y as int));
                        }
                    },
                }
            }
            block.y = block_tmp.y - 1;
            block.state = BlockState::STACKED;
            return;
        },
        Command::Go | Command::Break => {},
    };
    proof {
        assert(block_tmp == with_state(tentative(b0, v), b0.state));
    }
    match board.check_with_block(&block_tmp) {
        Ok(0) => {
            *block = block_tmp;
        },
        _ => {
            match v {
                Command::MoveDown => {
                    state = BlockState::STACKED;
                },
                _ => {},
            }
        },
    }
    block.state = state;
}

/// A piece whose fields lie in the range the play scene keeps them in:
/// a valid rotation and color, and a position on or just around the board.
pub open spec fn piece_ok(b: Block) -> bool {
    b.rotation < 4 && 1 <= b.color <= 5 && -3 <= b.x <= 15 && -6 <= b.y <= 26
}

/// A freshly spawned piece is within the play scene's range.
pub proof fn lemma_spawn_piece_ok(b: Block)
    requires
        is_spawn(b),
    ensures
        piece_ok(b),
{
}

/// Whatever the resolver leaves in the piece stays within the play scene's
/// range.
proof fn lemma_resolver_piece_ok(g: Seq<Seq<i8>>, b0: Block, cmd: Command, b1: Block)
    requires
        resolver_rel(g, b0, cmd, b1),
        piece_ok(b0),
        g.len() <= 27,
    ensures
        piece_ok(b1),
{
    match cmd {
        Command::Drop => {
            if b1.y > b0.y {
                assert(fits(g, at_y(b0, b1.y as int)));
                lemma_fits_bounds(g, at_y(b0, b1.y as int));
            }
        },
        Command::MoveToLeft | Command::MoveToRight | Command::MoveDown | Command::Rotate => {
            let t = tentative(b0, cmd);
            if fits(g, t) {
                lemma_fits_bounds(g, t);
            }
        },
        _ => {},
    }
}

/// The scenes of the top-level state machine.
#[derive(Clone, Copy, PartialEq, Eq, Structural, Debug)]
pub enum GameScene {
    INTRO,
    GAME,
    END,
}

/// The whole game state: the scene, the board, the falling and the upcoming
/// piece, the score, and the drop interval in milliseconds.
pub struct Game {
    pub scene: GameScene,
    pub board: Board,
    pub dropping_block: Block,
    pub next_block: Block,
    pub score: u32,
    pub speed_factor: u128,
}

/// A game as a fresh start leaves it: in play on a fresh grid, with score
/// and drop interval at their initial values and two freshly spawned pieces.
pub open spec fn started(s: Game) -> bool {
    &&& s.scene is GAME
    &&& s.score == 0
    &&& s.speed_factor == 1000
    &&& s.board@ == fresh_grid()
    &&& is_spawn(s.dropping_block)
    &&& is_spawn(s.next_block)
}

/// The drop interval after one successful lock: shortened by a fixed step,
/// clamped so it never drops below the step's floor.
pub open spec fn speed_step(f: u128) -> u128 {
    if f >= 100 {
        (f - 7) as u128
    } else {
        f
    }
}

/// The score after clearing `lines` rows: 100 points each, saturating at the
/// counter's ceiling so it stays monotone.
pub open spec fn score_add(score: u32, lines: nat) -> u32 {
    if score + lines * 100 <= u32::MAX {
        (score + lines * 100) as u32
    } else {
        u32::MAX
    }
}

/// One step of the play scene. The resolver leaves some piece `b1`; if it is
/// still dropping, only row clearing runs. If it stacked, it is painted onto
/// the board, the upcoming piece is promoted and a fresh one spawned, a
/// promoted piece that does not fit ends the game, and otherwise the drop
/// interval shortens; row clearing and scoring run on the painted board.
pub open spec fn game_step_rel(s0: Game, cmd: Command, s1: Game) -> bool {
    exists|b1: Block|
        resolver_rel(s0.board@, s0.dropping_block, cmd, b1) && if b1.state is DROPPING {
            &&& s1.dropping_block == b1
            &&& s1.next_block == s0.next_block
            &&& s1.scene is GAME
            &&& s1.speed_factor == s0.speed_factor
            &&& s1.board@ == cleared_grid(s0.board@)
            &&& s1.score == score_add(s0.score, completed_rows(s0.board@))
        } else {
            let g1 = painted(s0.board@, b1, b1.color as i8);
            exists|nb: Block|
                is_spawn(nb) && {
                    &&& s1.dropping_block == s0.next_block
                    &&& s1.next_block == nb
                    &&& if !fits(g1, s0.next_block) {
                        s1.scene is END && s1.speed_factor == s0.speed_factor
                    } else {
                        s1.scene is GAME && s1.speed_factor == speed_step(s0.speed_factor)
                    }
                    &&& s1.board@ == cleared_grid(g1)
                    &&& s1.score == score_add(s0.score, completed_rows(g1))
                }
        }
}

impl Game {
    /// The state the whole engine keeps in every reachable value: a well
    /// formed board, and in play a full-height grid and two pieces in range.
    pub open spec fn inv(self) -> bool {
        &&& self.board@.len() <= 27
        &&& wf_grid(self.board@)
        &&& (self.scene is GAME ==> self.board@.len() == 27 && piece_ok(self.dropping_block)
            && piece_ok(self.next_block))
    }

    /// A new game: at the intro scene, with an empty board, two random
    /// pieces, and score and drop interval at their initial values.
    pub fn new() -> (g: Game)
        ensures
            g.inv(),
            g.scene is INTRO,
            g.score == 0,
            g.speed_factor == 1000,
            g.board@.len() == 0,
            is_spawn(g.dropping_block),
            is_spawn(g.next_block),
    {
        Game {
            scene: GameScene::INTRO,
            board: Board::new(),
            dropping_block: Block::new(),
            next_block: Block::new(),
            score: 0,
            speed_factor: 1000,
        }
    }

    /// Reset score, drop interval, grid and both pieces, and enter play.
    fn start_game(&mut self)
        ensures
            started(*final(self)),
            final(self).inv(),
    {
        self.score = 0;
        self.speed_factor = 1000;
        self.board.init();
        self.dropping_block = Block::new();
        self.next_block = Block::new();
        self.scene = GameScene::GAME;
        proof {
            lemma_fresh_wf();
            lemma_spawn_piece_ok(self.dropping_block);
            lemma_spawn_piece_ok(self.next_block);
        }
    }

    /// Set the drop interval.
    pub fn set_speed_factor(&mut self, f: u128)
        ensures
            *final(self) == (Game { speed_factor: f, ..*old(self) }),
    {
        self.speed_factor = f;
    }

    /// Read the drop interval.
    pub fn get_speed_factor(&self) -> (f: u128)
        ensures
            f == self.speed_factor,
    {
        self.speed_factor
    }

    /// Feed one command token to the state machine and report whether the
    /// game should terminate. The intro and game-over scenes wait for a
    /// start or quit token and ignore the rest; the play scene resolves
    /// movement, locks, clears rows and scores as `game_step_rel` says.
    pub fn handle_command(&mut self, cmd: Command) -> (quit: bool)
        requires
            old(self).inv(),
        ensures
            final(self).inv(),
            quit == (cmd is Break),
            cmd is Break ==> *final(self) == *old(self),
            (old(self).scene is INTRO || old(self).scene is END) && cmd is Go ==> started(
                *final(self),
            ),
            (old(self).scene is INTRO || old(self).scene is END) && !(cmd is Go) && !(cmd
                is Break) ==> *final(self) == *old(self),
            old(self).scene is GAME && !(cmd is Break) ==> game_step_rel(
                *old(self),
                cmd,
                *final(self),
            ),
            old(self).scene is GAME ==> final(self).score >= old(self).score,
    {
        match cmd {
            Command::Break => {
                return true;
            },
            _ => {},
        }
        match self.scene {
            GameScene::INTRO => {
                match cmd {
                    Command::Go => {
                        self.start_game();
                    },
                    _ => {},
                }
            },
            GameScene::END => {
                match cmd {
                    Command::Go => {
                        self.start_game();
                    },
                    _ => {},
                }
            },
            GameScene::GAME => {
                let ghost g0 = self.board@;
                let ghost b0 = self.dropping_block;
                block_movement(cmd, &mut self.board, &mut self.dropping_block);
                let ghost b1v = self.dropping_block;
                proof {
                    lemma_resolver_piece_ok(g0, b0, cmd, b1v);
                }
                match self.dropping_block.state {
                    BlockState::STACKED => {
                        let c = self.dropping_block.color as i8;
                        let _ = self.board.set_with_block(&self.dropping_block, c);
                        proof {
                            lemma_painted_wf(g0, b1v, c);
                        }
                        self.dropping_block = self.next_block;
                        self.next_block = Block::new();
                        proof {
                            lemma_spawn_piece_ok(self.next_block);
                        }
                        let r = self.board.check_with_block(&self.dropping_block);
                        let blocked = match r {
                            Ok(0u8) => false,
                            _ => true,
                        };
                        if blocked {
                            self.scene = GameScene::END;
                        } else {
                            if self.speed_factor >= 100 {
                                self.speed_factor = self.speed_factor - 7;
                            }
                        }
                    },
                    BlockState::DROPPING => {},
                }
                let ghost g_before_clear = self.board@;
                proof {
                    lemma_cleared_wf(g_before_clear);
                }
                let lines = self.board.check_completion();
                let add: u32 = lines * 100;
                if self.score <= u32::MAX - add {
                    self.score = self.score + add;
                } else {
                    self.score = u32::MAX;
                }
                proof {
                    assert(resolver_rel(g0, b0, cmd, b1v));
                    if b1v.state is DROPPING {
                        assert(self.board@ == cleared_grid(g0));
                        assert(self.score == score_add(old(self).score, completed_rows(g0)));
                    } else {
                        assert(g_before_clear == painted(g0, b1v, b1v.color as i8));
                        assert(is_spawn(self.next_block));
                    }
                    assert(game_step_rel(*old(self), cmd, *self));
                }
            },
        }
        false
    }
}

/// Decide whether a terminal of `w` columns and `h` rows can host the game's
/// drawing area.
pub fn screen_check(w: u16, h: u16) -> (r: Result<u8, u8>)
    ensures
        r == if w < 80 || h < 30 {
            Err::<u8, u8>(1)
        } else {
            Ok::<u8, u8>(0)
        },
{
    if w < 80 || h < 30 {
        return Err(1);
    }
    Ok(0)
}

} // verus!

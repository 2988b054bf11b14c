//! The arcade cabinet: a machine that draws tiles, three output values to a
//! tile, and reads a joystick.

use crate::intcode_computer::{parse_input, program, Computer, Fault, Machine, State, STEP_BUDGET};
use vstd::prelude::*;
use vstd::slice::slice_to_vec;

verus! {

/// The number of cells that the machine is given.
pub const MEMORY: usize = 3000;

/// The number of frames after which [`part_two`] gives up.
pub const FRAME_BUDGET: u64 = 0xffff_ffff_ffff_ffff;

/// What a frame says about the game.
#[derive(Debug, Clone, Copy, PartialEq, Eq)]
pub struct GameInfo {
    /// The score that was shown last.
    pub score: i64,
    /// Where the ball was drawn last.
    pub ball: (i64, i64),
    /// Where the paddle was drawn last.
    pub paddle: (i64, i64),
    /// Whether no block was drawn.
    pub game_finished: bool,
}

/// The number of blocks among the first `n` tiles of a frame: the tiles whose
/// third value is 2.
pub open spec fn blocks(frame: Seq<i64>, n: nat) -> nat
    decreases n,
{
    if n == 0 {
        0
    } else {
        blocks(frame, (n - 1) as nat) + if frame[3 * n - 1] == 2 {
            1nat
        } else {
            0nat
        }
    }
}

/// What the first `n` tiles of a frame say about the game.
///
/// A tile is three values: two coordinates and a kind. Kinds 0 and 1 say
/// nothing. Kind 2 is a block, and shows that the game is not finished. Kind 3
/// is the paddle and kind 4 the ball, at the coordinates. Any other kind is
/// the score itself.
pub open spec fn frame_info(frame: Seq<i64>, n: nat) -> GameInfo
    decreases n,
{
    if n == 0 {
        GameInfo { score: 0, ball: (0, 0), paddle: (0, 0), game_finished: true }
    } else {
        let before = frame_info(frame, (n - 1) as nat);
        let x = frame[3 * n - 3];
        let y = frame[3 * n - 2];
        let kind = frame[3 * n - 1];
        if kind == 0 || kind == 1 {
            before
        } else if kind == 2 {
            GameInfo { game_finished: false, ..before }
        } else if kind == 3 {
            GameInfo { paddle: (x, y), ..before }
        } else if kind == 4 {
            GameInfo { ball: (x, y), ..before }
        } else {
            GameInfo { score: kind, ..before }
        }
    }
}

/// Where the joystick goes: towards the ball, as seen from the paddle.
pub open spec fn joystick(info: GameInfo) -> i64 {
    if info.paddle.0 < info.ball.0 {
        1
    } else if info.paddle.0 > info.ball.0 {
        -1i64
    } else {
        0
    }
}

/// The machine of a cabinet that is played for free: 3000 cells at least, a 2
/// in the first, and yielding when it wants the joystick.
pub open spec fn cabinet(code: Seq<i64>) -> Machine {
    let grown = Machine::boot(code).grown(MEMORY as nat);
    Machine { memory: grown.memory.update(0, 2), halt_on_missing_input: true, ..grown }
}

/// The score at the end of a game that follows the ball.
///
/// The machine runs until it yields. If its output, read as a frame, shows
/// no block, the game is finished and the frame's score is the result.
/// Otherwise the output is cleared, the joystick position is supplied, and
/// the game goes on. There is no result if the machine runs into a fault, or
/// if the game is not finished after `fuel` frames.
pub open spec fn play(m: Machine, fuel: nat) -> Option<i64>
    decreases fuel,
{
    if fuel == 0 {
        None
    } else {
        let (after, result) = m.run(STEP_BUDGET as nat);
        let info = frame_info(after.output, after.output.len() / 3);
        if result is Err {
            None
        } else if info.game_finished {
            Some(info.score)
        } else {
            play(
                (Machine { output: Seq::empty(), ..after }).supply(joystick(info)),
                (fuel - 1) as nat,
            )
        }
    }
}

/// Parses the program: decimal literals separated by commas.
pub fn input_generator(input: &str) -> (r: Option<Vec<i64>>)
    ensures
        match r {
            Some(code) => program(input@) == Some(code@),
            None => program(input@) is None,
        },
{
    parse_input(input)
}

/// The number of blocks on the screen when the program has run, in a memory
/// of at least 3000 cells and without input, until it halts. `None` if the
/// run does not end in `Halted`.
pub fn part_one(input: &[i64]) -> (r: Option<usize>)
    ensures
        r == ({
            let (end, result) = Machine::boot(input@).grown(MEMORY as nat).run(STEP_BUDGET as nat);
            if result == Ok::<State, Fault>(State::Halted) {
                Some(blocks(end.output, end.output.len() / 3) as usize)
            } else {
                None
            }
        }),
{
    let mut computer = Computer::new(slice_to_vec(input)).set_available_memory(MEMORY);
    match computer.execute() {
        Ok(State::Halted) => {},
        _ => {
            return None;
        },
    }
    let frame = computer.get_all_output();
    let tiles: usize = frame.len() / 3;
    let mut count: usize = 0;
    let mut n: usize = 0;
    while n < tiles
        invariant
            n <= tiles,
            3 * tiles <= frame.len(),
            tiles == frame@.len() / 3,
            count == blocks(frame@, n as nat),
            count <= n,
        decreases tiles - n,
    {
        if frame[3 * n + 2] == 2 {
            count = count + 1;
        }
        n += 1;
    }
    Some(count)
}

impl GameInfo {
    /// Reads a frame: the output of the machine, three values to a tile.
    /// Values at the end that do not make up a tile are not looked at.
    pub fn from_frame(input: Vec<i64>) -> (info: GameInfo)
        ensures
            info == frame_info(input@, input@.len() / 3),
    {
        let mut info = GameInfo { score: 0, ball: (0, 0), paddle: (0, 0), game_finished: true };
        let tiles: usize = input.len() / 3;
        let mut n: usize = 0;
        while n < tiles
            invariant
                n <= tiles,
                3 * tiles <= input.len(),
                tiles == input@.len() / 3,
                info == frame_info(input@, n as nat),
            decreases tiles - n,
        {
            let x: i64 = input[3 * n];
            let y: i64 = input[3 * n + 1];
            let kind: i64 = input[3 * n + 2];
            if kind == 0 || kind == 1 {
            } else if kind == 2 {
                info.game_finished = false;
            } else if kind == 3 {
                info.paddle = (x, y);
            } else if kind == 4 {
                info.ball = (x, y);
            } else {
                info.score = kind;
            }
            n += 1;
        }
        info
    }
}

/// Takes all the output away from the machine.
fn take_frame(computer: &mut Computer) -> (frame: Vec<i64>)
    ensures
        frame@ == old(computer)@.output,
        final(computer)@ == (Machine { output: Seq::empty(), ..old(computer)@ }),
{
    let mut frame: Vec<i64> = Vec::new();
    let ghost start = computer@;
    assert(start.output.skip(0) =~= start.output);
    loop
        invariant
            start == old(computer)@,
            frame@.len() <= start.output.len(),
            frame@ == start.output.take(frame@.len() as int),
            computer@ == (Machine { output: start.output.skip(frame@.len() as int), ..start }),
        decreases start.output.len() - frame@.len(),
    {
        let ghost taken = frame@.len() as int;
        match computer.get_next_output() {
            Some(value) => {
                frame.push(value);
                proof {
                    assert(start.output.skip(taken).drop_first() =~= start.output.skip(taken + 1));
                    assert(frame@ =~= start.output.take(taken + 1));
                }
            },
            None => {
                proof {
                    assert(start.output.take(taken) =~= start.output);
                    assert(start.output.skip(taken) =~= Seq::<i64>::empty());
                }
                return frame;
            },
        }
    }
}

/// The score when the game is finished, with the joystick following the
/// ball. `None` if the machine runs into a fault, or if the game is not
/// finished after [`FRAME_BUDGET`] frames.
pub fn part_two(input: &[i64]) -> (r: Option<i64>)
    ensures
        r == play(cabinet(input@), FRAME_BUDGET as nat),
{
    let mut computer = Computer::new(slice_to_vec(input)).set_available_memory(
        MEMORY,
    ).halt_on_missing_input();
    let free = computer.set(0, 2);
    assert(free is Ok);
    assert(computer@ == cabinet(input@));
    let mut fuel: u64 = FRAME_BUDGET;
    while fuel > 0
        invariant
            play(computer@, fuel as nat) == play(cabinet(input@), FRAME_BUDGET as nat),
        decreases fuel,
    {
        if computer.execute().is_err() {
            return None;
        }
        let frame = take_frame(&mut computer);
        let game_info = GameInfo::from_frame(frame);
        if game_info.game_finished {
            return Some(game_info.score);
        }
        let input: i64 = if game_info.paddle.0 < game_info.ball.0 {
            1
        } else if game_info.paddle.0 > game_info.ball.0 {
            -1
        } else {
            0
        };
        computer.input(input);
        fuel = fuel - 1;
    }
    None
}

} // verus!

//! The round controller: it advances the active piece tick by tick, settles
//! it when it lands, clears rows, keeps the score and spawns the next piece.

use std::collections::VecDeque;
use vstd::prelude::*;
use crate::board::{
    ceiling_hit, compacted, full_rows, lemma_compacted_ok, lemma_full_rows_bound,
    lemma_skyline_rests, settled_ok, skyline, Board, InvariantViolation,
};
use crate::grid::{HEIGHT, WIDTH};
use crate::random::random_in_range;
use crate::scoring::{award, award_of, fall_interval, fall_interval_of, FAST_INTERVAL_MS};
use crate::segment::{cells_of, covers, occupied, Cell, Segment};
use crate::shape::{generate, layout, positions_of, Shape};
use crate::tetromino::{
    in_play, lemma_fall_in_play, lemma_motion_in_play, lemma_spawned_in_play, motion_accepted,
    moved, rests, rows_fallen, shifted, spawned, Motion, Piece, Tetromino,
};

verus! {

/// How many shapes wait in the queue of a new round.
pub const BAG_SIZE: usize = 10;

/// The most points that one landing can earn: every row of the field
/// cleared at once.
pub const MAX_AWARD: u64 = 225;

/// What a player can ask of the round.
#[derive(Debug, Clone, Copy, PartialEq, Eq, Structural)]
pub enum Command {
    MoveLeft,
    MoveRight,
    RotateCW,
    RotateCCW,
    SoftDrop,
    TogglePause,
    Quit,
}

/// What became of a command.
#[derive(Debug, Clone, Copy, PartialEq, Eq, Structural)]
pub enum Reply {
    /// The command took effect.
    Applied,
    /// The motion was blocked, or the piece may not be accelerated now:
    /// nothing changed.
    Refused,
    /// The round is over: nothing changed.
    Ignored,
    /// The player wants to leave: nothing changed, the caller ends the
    /// program.
    Quit,
}

/// What a tick did.
#[derive(Debug, Clone, Copy, PartialEq, Eq, Structural)]
pub enum TickOutcome {
    /// Nothing: the round is paused or over, or the next fall is not due.
    Idle,
    /// There was no room for the piece: the round is over.
    GameOver,
    /// The piece landed and settled, and that many rows were cleared.
    Landed(u32),
    /// The piece fell by one row.
    Fell,
}

/// The state of the round's state machine.
#[derive(Debug, Clone, Copy, PartialEq, Eq, Structural)]
pub enum Phase {
    /// The piece falls, tick by tick.
    Falling,
    /// Ticks do nothing until the round is resumed.
    Paused,
    /// The round is over, for good.
    GameOver,
}

/// The mathematical value of a round.
pub struct Round {
    /// The settled cells.
    pub board: Seq<Cell>,
    /// The active piece.
    pub piece: Piece,
    /// The shapes to come, the next one first.
    pub bag: Seq<Shape>,
    pub score: nat,
    /// The time of the last fall, in milliseconds.
    pub last_fall: nat,
    pub accelerated: bool,
    pub paused: bool,
    pub game_over: bool,
}

/// Represents main part of the game where most of the logic is implemented.
pub struct GameState {
    board: Board,
    bag: VecDeque<Shape>,
    cur_fig: Tetromino,
    game_over: bool,
    fall_update: u64,
    points: u64,
    accelerated: bool,
    paused: bool,
}

/// The invariant of a round.
pub open spec fn round_ok(r: Round) -> bool {
    &&& settled_ok(r.board)
    &&& in_play(r.piece)
    &&& r.bag.len() > 0
}

/// A round at its start: an empty board, the first piece freshly spawned,
/// no points, not paused, not over.
pub open spec fn opening(first: Shape, bag: Seq<Shape>, now: nat) -> Round {
    Round {
        board: Seq::empty(),
        piece: spawned(first),
        bag,
        score: 0,
        last_fall: now,
        accelerated: false,
        paused: false,
        game_over: false,
    }
}

/// The state that a round is in.
pub open spec fn phase_of(r: Round) -> Phase {
    if r.game_over {
        Phase::GameOver
    } else if r.paused {
        Phase::Paused
    } else {
        Phase::Falling
    }
}

/// The time between two falls, in milliseconds: short while the piece is
/// accelerated, else given by the score.
pub open spec fn interval_of(r: Round) -> nat {
    if r.accelerated {
        FAST_INTERVAL_MS as nat
    } else {
        fall_interval_of(r.score)
    }
}

/// Whether a tick at time `now` has work to do: the piece is falling, and
/// the interval has passed since the last fall.
pub open spec fn due(r: Round, now: nat) -> bool {
    phase_of(r) == Phase::Falling && now >= r.last_fall + interval_of(r)
}

/// The board with the cells of the active piece added at its end.
pub open spec fn landing(r: Round) -> Seq<Cell> {
    r.board + r.piece.body
}

/// The round after a tick at time `now`, where `fresh` is the shape that
/// joins the queue if the piece lands.
pub open spec fn ticked(r: Round, now: nat, fresh: Shape) -> Round {
    if !due(r, now) {
        r
    } else if ceiling_hit(r.board, r.piece.body) {
        Round { game_over: true, ..r }
    } else if rests(r.piece.body, r.board) {
        if settled_ok(landing(r)) {
            Round {
                board: compacted(landing(r)),
                piece: spawned(r.bag[0]),
                bag: r.bag.subrange(1, r.bag.len() as int).push(fresh),
                score: r.score + award_of(full_rows(landing(r), 0, HEIGHT as int)),
                accelerated: false,
                ..r
            }
        } else {
            r
        }
    } else {
        Round {
            piece: Piece { shape: r.piece.shape, body: shifted(r.piece.body, 0, 1) },
            last_fall: now,
            ..r
        }
    }
}

/// What a tick at time `now` reports.
pub open spec fn tick_result(r: Round, now: nat) -> Result<TickOutcome, InvariantViolation> {
    if !due(r, now) {
        Ok(TickOutcome::Idle)
    } else if ceiling_hit(r.board, r.piece.body) {
        Ok(TickOutcome::GameOver)
    } else if rests(r.piece.body, r.board) {
        if settled_ok(landing(r)) {
            Ok(TickOutcome::Landed(full_rows(landing(r), 0, HEIGHT as int) as u32))
        } else {
            Err(InvariantViolation)
        }
    } else {
        Ok(TickOutcome::Fell)
    }
}

/// Whether the piece may be accelerated: the round is not over, the piece
/// has fallen by at least one row since it was spawned, and it has not
/// landed.
pub open spec fn can_accelerate(r: Round) -> bool {
    &&& !r.game_over
    &&& rows_fallen(r.piece) >= 1
    &&& !rests(r.piece.body, r.board)
}

/// The motion that a command asks for, if it asks for one.
pub open spec fn motion_of(command: Command) -> Option<Motion> {
    match command {
        Command::MoveLeft => Some(Motion::Left),
        Command::MoveRight => Some(Motion::Right),
        Command::RotateCW => Some(Motion::RotateLeft),
        Command::RotateCCW => Some(Motion::RotateRight),
        _ => None,
    }
}

/// The round after a command.
pub open spec fn commanded(r: Round, command: Command) -> Round {
    if r.game_over {
        r
    } else {
        match command {
            Command::SoftDrop => if can_accelerate(r) {
                Round { accelerated: true, ..r }
            } else {
                r
            },
            Command::TogglePause => Round { paused: !r.paused, ..r },
            Command::Quit => r,
            _ => Round { piece: moved(r.piece, motion_of(command).unwrap(), r.board), ..r },
        }
    }
}

/// What a command is answered with.
pub open spec fn reply_to(r: Round, command: Command) -> Reply {
    if command == Command::Quit {
        Reply::Quit
    } else if r.game_over {
        Reply::Ignored
    } else {
        match command {
            Command::SoftDrop => if can_accelerate(r) {
                Reply::Applied
            } else {
                Reply::Refused
            },
            Command::TogglePause => Reply::Applied,
            _ => if motion_accepted(r.piece, motion_of(command).unwrap(), r.board) {
                Reply::Applied
            } else {
                Reply::Refused
            },
        }
    }
}

/// The rounds that a round passes through, tick by tick: each tick comes
/// with its time and with the shape that joins the queue if the piece lands.
pub open spec fn ticked_all(r: Round, ticks: Seq<(nat, Shape)>) -> Round
    decreases ticks.len(),
{
    if ticks.len() == 0 {
        r
    } else {
        ticked(ticked_all(r, ticks.drop_last()), ticks.last().0, ticks.last().1)
    }
}

/// A tick keeps the invariant of the round, the queue keeps its length, and
/// the score never falls.
pub proof fn lemma_ticked_ok(r: Round, now: nat, fresh: Shape)
    requires
        round_ok(r),
    ensures
        round_ok(ticked(r, now, fresh)),
        ticked(r, now, fresh).bag.len() == r.bag.len(),
        ticked(r, now, fresh).score >= r.score,
{
    if due(r, now) && !ceiling_hit(r.board, r.piece.body) {
        if rests(r.piece.body, r.board) {
            if settled_ok(landing(r)) {
                lemma_compacted_ok(landing(r));
                lemma_spawned_in_play(r.bag[0]);
            }
        } else {
            lemma_fall_in_play(r.piece, r.board);
        }
    }
}

/// Score monotonicity: over any sequence of ticks the score never falls,
/// and the invariant of the round holds throughout.
pub proof fn lemma_score_never_falls(r: Round, ticks: Seq<(nat, Shape)>)
    requires
        round_ok(r),
    ensures
        round_ok(ticked_all(r, ticks)),
        ticked_all(r, ticks).score >= r.score,
    decreases ticks.len(),
{
    if ticks.len() > 0 {
        lemma_score_never_falls(r, ticks.drop_last());
        lemma_ticked_ok(ticked_all(r, ticks.drop_last()), ticks.last().0, ticks.last().1);
    }
}

/// A command keeps the invariant of the round and never touches the board
/// or the score.
pub proof fn lemma_commanded_ok(r: Round, command: Command)
    requires
        round_ok(r),
    ensures
        round_ok(commanded(r, command)),
        commanded(r, command).board == r.board,
        commanded(r, command).score == r.score,
{
    if !r.game_over {
        match motion_of(command) {
            Some(dir) => {
                lemma_motion_in_play(r.piece, dir, r.board);
            },
            None => {},
        }
    }
}

/// Game over is final: once a round is over, no tick and no command changes
/// anything in it.
pub proof fn lemma_game_over_is_final(r: Round, now: nat, fresh: Shape, command: Command)
    requires
        r.game_over,
    ensures
        ticked(r, now, fresh) == r,
        tick_result(r, now) == Ok::<TickOutcome, InvariantViolation>(TickOutcome::Idle),
        commanded(r, command) == r,
{
}

/// The round ends in one way only: a tick leads into game over exactly when
/// it is due and the piece has hit the ceiling, and no command does.
pub proof fn lemma_game_over_begins(r: Round, now: nat, fresh: Shape, command: Command)
    requires
        !r.game_over,
    ensures
        ticked(r, now, fresh).game_over <==> due(r, now) && ceiling_hit(r.board, r.piece.body),
        !commanded(r, command).game_over,
        phase_of(r) == Phase::Paused ==> ticked(r, now, fresh) == r,
{
}

impl View for GameState {
    type V = Round;

    closed spec fn view(&self) -> Round {
        Round {
            board: self.board@,
            piece: self.cur_fig@,
            bag: self.bag@,
            score: self.points as nat,
            last_fall: self.fall_update as nat,
            accelerated: self.accelerated,
            paused: self.paused,
            game_over: self.game_over,
        }
    }
}

impl GameState {
    /// Whether what the board has derived from its cells is up to date.
    pub closed spec fn cache_ok(&self) -> bool {
        self.board.wf()
    }

    /// The invariant of the controller.
    pub open spec fn wf(&self) -> bool {
        &&& self.cache_ok()
        &&& round_ok(self@)
        &&& self@.score <= u64::MAX
        &&& self@.last_fall <= u64::MAX
    }

    /// Puts a round together from its first piece and its queue.
    fn assemble(piece: Tetromino, bag: VecDeque<Shape>, now: u64) -> (state: Self)
        requires
            piece@ == spawned(piece@.shape),
            bag@.len() > 0,
        ensures
            state.wf(),
            state@ == opening(piece@.shape, bag@, now as nat),
    {
        proof {
            lemma_spawned_in_play(piece@.shape);
        }
        GameState {
            board: Board::new(),
            bag,
            cur_fig: piece,
            game_over: false,
            fall_update: now,
            points: 0,
            accelerated: false,
            paused: false,
        }
    }

    /// Starts a round at time `now` with the given first shape and the given
    /// queue of shapes to come.
    pub fn start(first: Shape, upcoming: VecDeque<Shape>, now: u64) -> (state: Self)
        requires
            upcoming@.len() > 0,
        ensures
            state.wf(),
            state@ == opening(first, upcoming@, now as nat),
    {
        GameState::assemble(Tetromino::from(first), upcoming, now)
    }

    /// Create a new game with default settings: a first piece and a queue of
    /// `BAG_SIZE` shapes, all drawn at random.
    pub fn new(now: u64) -> (state: Self)
        ensures
            state.wf(),
            state@ == opening(state@.piece.shape, state@.bag, now as nat),
            state@.bag.len() == BAG_SIZE,
    {
        let mut bag: VecDeque<Shape> = VecDeque::new();
        let mut i: usize = 0;
        while i < BAG_SIZE
            invariant
                i <= BAG_SIZE,
                bag@.len() == i,
            decreases BAG_SIZE - i,
        {
            bag.push_back(Shape::from(random_in_range(0, 7)));
            i += 1;
        }
        GameState::assemble(Tetromino::new(), bag, now)
    }
    /// The time between two falls, in milliseconds.
    pub fn interval(&self) -> (millis: u64)
        ensures
            millis == interval_of(self@),
            millis > 0,
    {
        if self.accelerated {
            FAST_INTERVAL_MS
        } else {
            fall_interval(self.points)
        }
    }

    /// Whether a tick at time `now` has work to do.
    pub fn is_due(&self, now: u64) -> (due_now: bool)
        ensures
            due_now == due(self@, now as nat),
    {
        !self.game_over && !self.paused && now >= self.fall_update && now - self.fall_update
            >= self.interval()
    }

    /// Whether the active piece has landed: one more row down, and it would
    /// overlap a settled cell or leave the field through the floor.
    pub fn cur_fig_landed(&self) -> (landed: bool)
        requires
            self.wf(),
        ensures
            landed == rests(self@.piece.body, self@.board),
    {
        let ghost body = self@.piece.body;
        let ghost below = shifted(body, 0, 1);
        let ghost base = self@.board;
        let ghosts = self.board.ghost_layer();
        let cells = self.board.cells();
        proof {
            lemma_skyline_rests(base, WIDTH as int);
        }
        let mut i: usize = 0;
        while i < self.cur_fig.body.len()
            invariant
                i <= self.cur_fig.body.len(),
                body == self@.piece.body,
                body == cells_of(self.cur_fig.body@),
                below == shifted(body, 0, 1),
                base == self@.board,
                base == cells_of(cells@),
                cells_of(ghosts@) == skyline(base, WIDTH as int),
                forall|k: int|
                    0 <= k < skyline(base, WIDTH as int).len() ==> occupied(
                        base,
                        (#[trigger] skyline(base, WIDTH as int)[k]).x,
                        skyline(base, WIDTH as int)[k].y + 1,
                    ),
                forall|k: int|
                    0 <= k < i ==> !((#[trigger] below[k]).y >= HEIGHT || occupied(
                        base,
                        below[k].x,
                        below[k].y,
                    )),
            decreases self.cur_fig.body.len() - i,
        {
            let seg = self.cur_fig.body[i];
            assert(body[i as int] == seg@);
            assert(below[i as int].x == seg.x && below[i as int].y == seg.y + 1);
            if seg.y >= HEIGHT - 1 {
                return true;
            }
            if covers(ghosts, seg.x, seg.y) {
                proof {
                    let sky = skyline(base, WIDTH as int);
                    let k = choose|k: int|
                        0 <= k < sky.len() && (#[trigger] sky[k]).x == seg.x && sky[k].y == seg.y;
                    assert(occupied(base, sky[k].x, sky[k].y + 1));
                }
                return true;
            }
            if covers(cells, seg.x, seg.y + 1) {
                return true;
            }
            i += 1;
        }
        false
    }

    /// Whether there is no room for the active piece: it has a cell in the
    /// top row that lies on a settled cell.
    pub fn hit_ceiling(&self) -> (hit: bool)
        ensures
            hit == ceiling_hit(self@.board, self@.piece.body),
    {
        self.board.hit_ceiling(&self.cur_fig)
    }

    /// Accelerates the fall until the piece lands, if the piece has fallen by
    /// at least one row and has not landed. Says whether it did.
    pub fn accelerate(&mut self) -> (honored: bool)
        requires
            old(self).wf(),
        ensures
            final(self).wf(),
            final(self)@ == commanded(old(self)@, Command::SoftDrop),
            honored == can_accelerate(old(self)@),
    {
        if self.game_over {
            return false;
        }
        let spawn = generate(self.cur_fig.shape);
        assert(positions_of(spawn@).len() == 4 && positions_of(spawn@)[1] == layout(
            self@.piece.shape,
        )[1]);
        assert(self@.piece.body[1] == self.cur_fig.body@[1]@);
        let fallen = self.cur_fig.body[1].y > spawn[1].1;
        if fallen && !self.cur_fig_landed() {
            self.accelerated = true;
            true
        } else {
            false
        }
    }

    /// One tick at time `now`, in milliseconds, with the shape that joins
    /// the queue if the piece lands. Nothing happens while the round is
    /// paused or over, or while the next fall is not due. Else the round is
    /// over if there is no room for the piece; or the piece, having landed,
    /// settles, full rows are cleared and scored, and the next piece is
    /// spawned; or the piece falls by one row. Where the landed piece
    /// cannot settle without breaking the board's invariant, the tick fails
    /// and the round is left as it was.
    pub fn tick_with(&mut self, now: u64, fresh: Shape) -> (outcome: Result<
        TickOutcome,
        InvariantViolation,
    >)
        requires
            old(self).wf(),
            old(self)@.score + MAX_AWARD <= u64::MAX,
        ensures
            final(self).wf(),
            final(self)@ == ticked(old(self)@, now as nat, fresh),
            outcome == tick_result(old(self)@, now as nat),
            final(self)@.score >= old(self)@.score,
            final(self)@.bag.len() == old(self)@.bag.len(),
            old(self)@.game_over ==> final(self)@ == old(self)@,
    {
        proof {
            lemma_ticked_ok(self@, now as nat, fresh);
        }
        if !self.is_due(now) {
            return Ok(TickOutcome::Idle);
        }
        if self.hit_ceiling() {
            self.game_over = true;
            return Ok(TickOutcome::GameOver);
        }
        if self.cur_fig_landed() {
            let ghost full = landing(self@);
            let body = self.cur_fig.clone_body();
            match self.board.settle(&body) {
                Err(violation) => {
                    return Err(violation);
                },
                Ok(()) => {},
            }
            let rows = self.board.clear_and_compact();
            proof {
                lemma_full_rows_bound(full, 0, HEIGHT as int);
                assert(award_of(rows as nat) <= MAX_AWARD);
            }
            self.points = self.points + award(rows);
            self.accelerated = false;
            let next = match self.bag.pop_front() {
                Some(shape) => shape,
                None => Shape::default(),
            };
            self.cur_fig = Tetromino::from(next);
            self.bag.push_back(fresh);
            Ok(TickOutcome::Landed(rows))
        } else {
            proof {
                lemma_fall_in_play(self@.piece, self@.board);
            }
            self.cur_fig.update();
            self.fall_update = now;
            Ok(TickOutcome::Fell)
        }
    }

    /// One tick at time `now`, in milliseconds. Where the piece lands, the
    /// shape that joins the queue is drawn at random.
    pub fn tick(&mut self, now: u64) -> (outcome: Result<TickOutcome, InvariantViolation>)
        requires
            old(self).wf(),
            old(self)@.score + MAX_AWARD <= u64::MAX,
        ensures
            final(self).wf(),
            final(self)@ == ticked(old(self)@, now as nat, final(self)@.bag.last()),
            outcome == tick_result(old(self)@, now as nat),
            final(self)@.score >= old(self)@.score,
            old(self)@.game_over ==> final(self)@ == old(self)@,
    {
        let fresh = if self.is_due(now) {
            Shape::from(random_in_range(0, 7))
        } else {
            Shape::default()
        };
        self.tick_with(now, fresh)
    }

    /// Applies a command at once. Motions and acceleration take effect only
    /// where the piece is free to follow them; once the round is over no
    /// command changes anything.
    pub fn handle(&mut self, command: Command) -> (reply: Reply)
        requires
            old(self).wf(),
        ensures
            final(self).wf(),
            final(self)@ == commanded(old(self)@, command),
            reply == reply_to(old(self)@, command),
            final(self)@.board == old(self)@.board,
            final(self)@.score == old(self)@.score,
            old(self)@.game_over ==> final(self)@ == old(self)@,
    {
        proof {
            lemma_commanded_ok(self@, command);
        }
        match command {
            Command::Quit => Reply::Quit,
            _ => {
                if self.game_over {
                    Reply::Ignored
                } else {
                    match command {
                        Command::MoveLeft => self.steer(Motion::Left),
                        Command::MoveRight => self.steer(Motion::Right),
                        Command::RotateCW => self.steer(Motion::RotateLeft),
                        Command::RotateCCW => self.steer(Motion::RotateRight),
                        Command::SoftDrop => {
                            if self.accelerate() {
                                Reply::Applied
                            } else {
                                Reply::Refused
                            }
                        },
                        _ => {
                            self.paused = !self.paused;
                            Reply::Applied
                        },
                    }
                }
            },
        }
    }

    /// Attempts a motion of the active piece against the board.
    fn steer(&mut self, dir: Motion) -> (reply: Reply)
        requires
            old(self).wf(),
        ensures
            final(self)@ == (Round {
                piece: moved(old(self)@.piece, dir, old(self)@.board),
                ..old(self)@
            }),
            reply == if motion_accepted(old(self)@.piece, dir, old(self)@.board) {
                Reply::Applied
            } else {
                Reply::Refused
            },
            final(self).cache_ok(),
    {
        proof {
            lemma_motion_in_play(self@.piece, dir, self@.board);
        }
        if self.cur_fig.move_to(dir, self.board.cells()) {
            Reply::Applied
        } else {
            Reply::Refused
        }
    }

    /// The settled segments, in the order in which they settled.
    pub fn settled(&self) -> (cells: &Vec<Segment>)
        ensures
            cells_of(cells@) == self@.board,
    {
        self.board.cells()
    }

    /// The active piece.
    pub fn piece(&self) -> (piece: &Tetromino)
        ensures
            piece@ == self@.piece,
    {
        &self.cur_fig
    }

    /// The shape of the piece that comes next.
    pub fn next_shape(&self) -> (shape: Shape)
        requires
            self.wf(),
        ensures
            shape == self@.bag[0],
    {
        self.bag[0]
    }

    /// The shapes to come, the next one first.
    pub fn upcoming(&self) -> (bag: &VecDeque<Shape>)
        ensures
            bag@ == self@.bag,
    {
        &self.bag
    }

    /// The state that the round is in.
    pub fn phase(&self) -> (phase: Phase)
        ensures
            phase == phase_of(self@),
    {
        if self.game_over {
            Phase::GameOver
        } else if self.paused {
            Phase::Paused
        } else {
            Phase::Falling
        }
    }

    /// The score.
    pub fn score(&self) -> (points: u64)
        ensures
            points == self@.score,
    {
        self.points
    }

    /// Whether the round is paused.
    pub fn is_paused(&self) -> (paused: bool)
        ensures
            paused == self@.paused,
    {
        self.paused
    }

    /// Whether the round is over.
    pub fn is_game_over(&self) -> (over: bool)
        ensures
            over == self@.game_over,
    {
        self.game_over
    }
}

} // verus!

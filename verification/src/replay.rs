//! Recording and playing back the player's input.
//!
//! A replay is a list of moves, each an action with the tick at which it was
//! made. The engine records such a list, hands it out as bytes, takes it back
//! from bytes, and plays it: asked at every tick, it releases each action
//! when its tick has come.

use vstd::prelude::*;
use vstd::bytes::{
    lemma_auto_spec_u32_to_from_le_bytes, lemma_auto_spec_u64_to_from_le_bytes,
    spec_u32_from_le_bytes, spec_u32_to_le_bytes, spec_u64_from_le_bytes, spec_u64_to_le_bytes,
};
use vstd::string::StringExecFns;
use crate::common::{decimal, decimal_string, padded_decimal, zero_padded};

verus! {

/// The version of the replay format that is written and understood.
pub const REPLAY_VERSION: u32 = 1;

/// No replay waits longer than this many ticks for its first action, nor
/// between two actions: three seconds at sixty ticks a second.
pub const MAX_DELAY: u64 = 180;

/// What the player can do.
#[derive(Debug, Copy, Clone, PartialEq, Eq, Structural)]
pub enum Action {
    Up,
    Down,
    Throw,
}

impl Action {
    /// The number that the action is stored as.
    pub open spec fn code(self) -> u32 {
        match self {
            Action::Up => 0,
            Action::Down => 1,
            Action::Throw => 2,
        }
    }

    /// The action that is stored as `code`, if there is one.
    pub open spec fn of_code(code: u32) -> Option<Action> {
        if code == 0 {
            Some(Action::Up)
        } else if code == 1 {
            Some(Action::Down)
        } else if code == 2 {
            Some(Action::Throw)
        } else {
            None
        }
    }

    /// The words that the action is shown with.
    pub open spec fn caption(self) -> Seq<char> {
        match self {
            Action::Up => "Player UP"@,
            Action::Down => "Player DOWN"@,
            Action::Throw => "THROW"@,
        }
    }

    /// Returns the number that the action is stored as.
    pub fn to_code(&self) -> (c: u32)
        ensures
            c == self.code(),
    {
        match self {
            Action::Up => 0,
            Action::Down => 1,
            Action::Throw => 2,
        }
    }

    /// Returns the action that is stored as `code`, if there is one.
    pub fn from_code(code: u32) -> (a: Option<Action>)
        ensures
            a == Action::of_code(code),
    {
        if code == 0 {
            Some(Action::Up)
        } else if code == 1 {
            Some(Action::Down)
        } else if code == 2 {
            Some(Action::Throw)
        } else {
            None
        }
    }
}

/// What the engine is doing.
#[derive(Debug, Copy, Clone, PartialEq, Eq, Structural)]
pub enum State {
    Idle,
    Recording,
    Replaying,
}

/// An action and the tick at which it was made.
#[derive(Debug, Copy, Clone, PartialEq, Eq, Structural)]
pub struct Move {
    pub tick: u64,
    pub act: Action,
}

impl Move {
    /// The words that the move is shown with: its tick, an arrow, its action.
    pub open spec fn caption(self) -> Seq<char> {
        decimal(self.tick as nat) + " => "@ + self.act.caption()
    }

    /// Returns the words that the move is shown with.
    pub fn describe(&self) -> (s: String)
        ensures
            s@ == self.caption(),
    {
        let mut s: String = decimal_string(self.tick);
        s.append(" => ");
        match self.act {
            Action::Up => s.append("Player UP"),
            Action::Down => s.append("Player DOWN"),
            Action::Throw => s.append("THROW"),
        }
        s
    }
}

/// A recorded game: the version of its format and its moves.
pub struct Replay {
    pub version: u32,
    pub moves: Vec<Move>,
}

impl Default for Replay {
    fn default() -> (r: Replay)
        ensures
            r.version == REPLAY_VERSION,
            r.moves@ == Seq::<Move>::empty(),
    {
        Replay { version: REPLAY_VERSION, moves: Vec::new() }
    }
}

/// Why bytes were not taken for a replay.
#[derive(Debug, Copy, Clone, PartialEq, Eq, Structural)]
pub enum ReplayError {
    /// The bytes end too early, or hold an action that does not exist.
    Malformed,
    /// The replay has a version that is not understood.
    Version { found: u32 },
    /// A move has an earlier tick than the move before it.
    Unordered,
}

/// Whether no move has an earlier tick than a move before it.
pub open spec fn sorted(moves: Seq<Move>) -> bool {
    forall|i: int, j: int| 0 <= i <= j < moves.len() ==> moves[i].tick <= moves[j].tick
}

/// Whether move `k` is no earlier than the move before it.
pub open spec fn in_step(moves: Seq<Move>, k: int) -> bool {
    moves[k - 1].tick <= moves[k].tick
}

/// The wait between move `i` and the next one.
pub open spec fn gap(moves: Seq<Move>, i: int) -> int {
    moves[i + 1].tick - moves[i].tick
}

/// The smaller of two numbers.
pub open spec fn least(a: int, b: int) -> int {
    if a < b {
        a
    } else {
        b
    }
}

/// The tick of move `i` after the gaps were clipped: the first move waits no
/// longer than the largest delay, and every later move follows the one
/// before it by the gap that it had, or by the largest delay if that is less.
pub open spec fn clipped_tick(moves: Seq<Move>, i: int) -> int
    decreases i,
{
    if i <= 0 {
        least(moves[0].tick as int, MAX_DELAY as int)
    } else {
        clipped_tick(moves, i - 1) + least(moves[i].tick - moves[i - 1].tick, MAX_DELAY as int)
    }
}

/// The moves with their gaps clipped: the same actions in the same order.
pub open spec fn normalized(moves: Seq<Move>) -> Seq<Move> {
    Seq::new(moves.len(), |i: int| Move { tick: clipped_tick(moves, i) as u64, act: moves[i].act })
}

/// How far playback is moved forward so that the first action waits no
/// longer than the largest delay. With no move to go by, `before` stays.
pub open spec fn first_shift(moves: Seq<Move>, before: u64) -> u64 {
    if moves.len() == 0 {
        before
    } else if moves[0].tick > MAX_DELAY {
        (moves[0].tick - MAX_DELAY) as u64
    } else {
        0
    }
}

/// The moves as the pairs of numbers that are stored.
pub open spec fn raw_of(moves: Seq<Move>) -> Seq<(u64, u32)> {
    Seq::new(moves.len(), |i: int| (moves[i].tick, moves[i].act.code()))
}

/// Whether every pair holds the number of an action.
pub open spec fn codes_ok(raw: Seq<(u64, u32)>) -> bool {
    forall|i: int| 0 <= i < raw.len() ==> Action::of_code((#[trigger] raw[i]).1) is Some
}

/// The moves that stored pairs stand for.
pub open spec fn moves_of(raw: Seq<(u64, u32)>) -> Seq<Move> {
    Seq::new(raw.len(), |i: int| Move { tick: raw[i].0, act: Action::of_code(raw[i].1)->0 })
}

/// The twelve bytes of a stored move: the tick in eight bytes, then the
/// number of the action in four, both with the lowest byte first.
pub open spec fn move_layout(m: (u64, u32)) -> Seq<u8> {
    spec_u64_to_le_bytes(m.0) + spec_u32_to_le_bytes(m.1)
}

/// The bytes of a stored replay: the version in four bytes, the number of
/// moves in eight, both with the lowest byte first, and then the moves, each
/// in its twelve bytes.
pub open spec fn replay_layout(version: u32, moves: Seq<(u64, u32)>) -> Seq<u8> {
    spec_u32_to_le_bytes(version) + spec_u64_to_le_bytes(moves.len() as u64) + Seq::new(
        12 * moves.len(),
        |k: int| move_layout(moves[k / 12])[k % 12],
    )
}

/// What bytes are read as: nothing if they end before the version, the
/// number of moves and as many moves as that number says; else the version
/// and the moves. Bytes that follow the last move are not looked at.
pub open spec fn replay_parse(bytes: Seq<u8>) -> Option<(u32, Seq<(u64, u32)>)> {
    if bytes.len() < 12 {
        None
    } else {
        let version = spec_u32_from_le_bytes(bytes.subrange(0, 4));
        let count = spec_u64_from_le_bytes(bytes.subrange(4, 12));
        if bytes.len() < 12 + 12 * count {
            None
        } else {
            Some(
                (
                    version,
                    Seq::new(
                        count as nat,
                        |i: int|
                            (
                                spec_u64_from_le_bytes(bytes.subrange(12 + 12 * i, 20 + 12 * i)),
                                spec_u32_from_le_bytes(bytes.subrange(20 + 12 * i, 24 + 12 * i)),
                            ),
                    ),
                ),
            )
        }
    }
}

/// The bytes that a replay is stored as.
pub open spec fn replay_bytes(version: u32, moves: Seq<Move>) -> Seq<u8> {
    replay_layout(version, raw_of(moves))
}

/// What bytes are taken for: the moves of a replay, or the reason why not.
/// Bytes that cannot be read, or that hold an action that does not exist,
/// are malformed; a replay of another version is refused as such; so is one
/// whose ticks go backwards.
pub open spec fn decoded(bytes: Seq<u8>) -> Result<Seq<Move>, ReplayError> {
    match replay_parse(bytes) {
        None => Err(ReplayError::Malformed),
        Some((version, raw)) => if !codes_ok(raw) {
            Err(ReplayError::Malformed)
        } else if version != REPLAY_VERSION {
            Err(ReplayError::Version { found: version })
        } else if !sorted(moves_of(raw)) {
            Err(ReplayError::Unordered)
        } else {
            Ok(moves_of(raw))
        },
    }
}

/// The name of the file that the replay of level `lvl` is kept in: the
/// level's number in four digits at least, between a prefix and a suffix.
pub open spec fn filename(lvl: nat) -> Seq<char> {
    "level-"@ + zero_padded(lvl, 4) + ".rpl"@
}

/// The engine as a plain value.
pub struct EngineView {
    pub version: u32,
    pub moves: Seq<Move>,
    pub state: State,
    /// Number of moves played.
    pub idx: int,
    /// By how many ticks playback runs ahead of the recorded ticks.
    pub shift: u64,
}

impl EngineView {
    /// The invariant of the engine: the ticks of its moves never go
    /// backwards, its version is the one that is understood, and while it
    /// plays it has played no more moves than there are.
    pub open spec fn wf(self) -> bool {
        &&& sorted(self.moves)
        &&& self.version == REPLAY_VERSION
        &&& self.state == State::Replaying ==> 0 <= self.idx <= self.moves.len()
    }

    /// An engine that has nothing and does nothing.
    pub open spec fn fresh() -> EngineView {
        EngineView {
            version: REPLAY_VERSION,
            moves: Seq::empty(),
            state: State::Idle,
            idx: 0,
            shift: 0,
        }
    }

    /// The engine after recording began: it has no moves.
    pub open spec fn recording(self) -> EngineView {
        EngineView {
            state: State::Recording,
            moves: Seq::empty(),
            version: REPLAY_VERSION,
            ..self
        }
    }

    /// The engine with one more move recorded.
    pub open spec fn recorded(self, tick: u64, act: Action) -> EngineView {
        EngineView { moves: self.moves.push(Move { tick, act }), ..self }
    }

    /// The engine after it took `moves` over: it stands before the first, and
    /// playback is moved forward so that the first does not wait too long.
    pub open spec fn loaded(self, moves: Seq<Move>) -> EngineView {
        EngineView {
            version: REPLAY_VERSION,
            moves,
            idx: 0,
            shift: first_shift(moves, self.shift),
            ..self
        }
    }

    /// The engine after playback was asked for: it plays from the first move
    /// if it has any, else nothing changes.
    pub open spec fn started(self) -> EngineView {
        if self.moves.len() == 0 {
            self
        } else {
            EngineView { state: State::Replaying, idx: 0, ..self }
        }
    }

    /// Whether the engine plays and has moves left.
    pub open spec fn playing(self) -> bool {
        self.state == State::Replaying && self.idx < self.moves.len()
    }

    /// How much has been played, in percent.
    pub open spec fn percent(self) -> int {
        if self.moves.len() == 0 || self.state != State::Replaying {
            0
        } else {
            self.idx * 100 / (self.moves.len() as int)
        }
    }

    /// Whether the next move is released at tick `tick`: the engine plays,
    /// and the tick has reached the recorded one less the shift.
    pub open spec fn due(self, tick: u64) -> bool {
        self.playing() && tick >= self.moves[self.idx].tick - self.shift
    }

    /// The action that is released at tick `tick`, if any.
    pub open spec fn next_action(self, tick: u64) -> Option<Action> {
        if self.due(tick) {
            Some(self.moves[self.idx].act)
        } else {
            None
        }
    }

    /// The engine after it was asked at tick `tick`.
    pub open spec fn stepped(self, tick: u64) -> EngineView {
        if self.due(tick) {
            EngineView { idx: self.idx + 1, ..self }
        } else {
            self
        }
    }

    /// The engine after its moves were made ready to be stored.
    pub open spec fn saved(self) -> EngineView {
        EngineView { moves: normalized(self.moves), ..self }
    }

    /// The engine after it recorded `moves` and made them ready to be
    /// stored.
    pub open spec fn saved_with(self, moves: Seq<Move>) -> EngineView {
        EngineView { moves, ..self }.saved()
    }
}

/// The error that bincode reports. Nothing is known of its contents.
#[verifier::external_type_specification]
#[verifier::external_body]
pub struct ExBincodeErrorKind(bincode::ErrorKind);

/// Calls bincode's `serialize` on a version and stored moves. It succeeds:
/// it writes to memory without a size limit, and numbers and sequences of
/// known length are all that it is given. The bytes are the version in four
/// bytes, the number of moves in eight, and each move as its tick in eight
/// bytes and the number of its action in four, every number with its lowest
/// byte first: bincode's fixed width little-endian layout of a pair of a
/// number and a sequence of pairs.
#[verifier::external_body]
fn encode(version: u32, moves: &Vec<(u64, u32)>) -> (r: Result<Vec<u8>, bincode::Error>)
    ensures
        r is Ok,
        r matches Ok(b) ==> b@ == replay_layout(version, moves@),
{
    bincode::serialize(&(version, moves))
}

/// Calls bincode's `deserialize` for a version and stored moves. It succeeds
/// exactly if the bytes hold a version, a number of moves, and that many
/// moves, in the layout that `encode` writes, and then gives that version and
/// those moves; bytes that follow the last move are ignored.
#[verifier::external_body]
fn decode(bytes: &[u8]) -> (r: Result<(u32, Vec<(u64, u32)>), bincode::Error>)
    ensures
        match r {
            Ok(p) => replay_parse(bytes@) == Some((p.0, p.1@)),
            Err(_) => replay_parse(bytes@) is None,
        },
{
    bincode::deserialize(bytes)
}

/// Clips the gaps of recorded moves in place: every tick is moved back by
/// what the waits before it exceeded the largest delay.
fn clip_gaps(moves: &mut Vec<Move>)
    requires
        sorted(old(moves)@),
    ensures
        final(moves)@ == normalized(old(moves)@),
{
    let ghost before = moves@;
    let n: usize = moves.len();
    let mut shift: u64 = 0;
    let mut last_delay: u64 = 0;
    let mut i: usize = 0;
    while i < n
        invariant
            i <= n,
            n == before.len(),
            moves@.len() == n,
            sorted(before),
            forall|k: int| 0 <= k < i ==> moves@[k] == normalized(before)[k],
            forall|k: int| i <= k < n ==> moves@[k] == before[k],
            i == 0 ==> shift == 0 && last_delay == 0,
            i > 0 ==> last_delay == clipped_tick(before, i - 1) && shift == before[i - 1].tick
                - last_delay,
        decreases n - i,
    {
        let v: Move = moves[i];
        assert(i > 0 ==> before[i - 1].tick <= before[i as int].tick);
        let delay: u64 = v.tick - shift - last_delay;
        if delay > MAX_DELAY {
            shift = shift + (delay - MAX_DELAY);
        }
        let tick: u64 = v.tick - shift;
        moves.set(i, Move { tick, act: v.act });
        last_delay = tick;
        i = i + 1;
    }
    assert(moves@ =~= normalized(before));
}

/// Engine that records the player's input and plays a recording back.
pub struct ReplayEngine {
    replay: Replay,
    state: State,
    idx: usize,
    shift: u64,
}

impl View for ReplayEngine {
    type V = EngineView;

    closed spec fn view(&self) -> EngineView {
        EngineView {
            version: self.replay.version,
            moves: self.replay.moves@,
            state: self.state,
            idx: self.idx as int,
            shift: self.shift,
        }
    }
}

impl ReplayEngine {
    /// Creates an engine that has nothing and does nothing.
    pub fn new() -> (e: ReplayEngine)
        ensures
            e@ == EngineView::fresh(),
            e@.wf(),
    {
        ReplayEngine { replay: Replay::default(), state: State::Idle, shift: 0, idx: 0 }
    }

    /// Returns the name of the file that the replay of level `lvl` is kept
    /// in.
    pub fn replay_filename(lvl: usize) -> (name: String)
        ensures
            name@ == filename(lvl as nat),
    {
        let mut name: String = String::from_str("level-");
        let number: String = padded_decimal(lvl as u64, 4);
        name.append(number.as_str());
        name.append(".rpl");
        assert(name@ =~= filename(lvl as nat));
        name
    }

    /// Begins to record: the moves are dropped.
    pub fn rec_start(&mut self)
        ensures
            final(self)@ == old(self)@.recording(),
            final(self)@.wf(),
    {
        self.state = State::Recording;
        self.replay.moves.clear();
        self.replay.version = REPLAY_VERSION;
    }

    /// Takes a replay over from the bytes that it was stored as. Bytes that
    /// are no replay of the version understood, with ticks in order, change
    /// nothing.
    #[verifier::loop_isolation(false)]
    pub fn load(&mut self, bytes: &[u8]) -> (r: Result<(), ReplayError>)
        requires
            old(self)@.wf(),
        ensures
            match decoded(bytes@) {
                Ok(moves) => r is Ok && final(self)@ == old(self)@.loaded(moves),
                Err(e) => r == Err::<(), ReplayError>(e) && final(self)@ == old(self)@,
            },
            final(self)@.wf(),
    {
        let (version, raw) = match decode(bytes) {
            Ok(p) => p,
            Err(_) => {
                return Err(ReplayError::Malformed);
            },
        };
        let mut moves: Vec<Move> = Vec::new();
        let mut i: usize = 0;
        while i < raw.len()
            invariant
                i <= raw@.len(),
                moves@.len() == i,
                forall|k: int| 0 <= k < i ==> Action::of_code((#[trigger] raw@[k]).1) is Some,
                forall|k: int| 0 <= k < i ==> moves@[k] == moves_of(raw@)[k],
            decreases raw@.len() - i,
        {
            let (tick, code) = raw[i];
            match Action::from_code(code) {
                Some(act) => {
                    moves.push(Move { tick, act });
                },
                None => {
                    assert(!codes_ok(raw@));
                    return Err(ReplayError::Malformed);
                },
            }
            i = i + 1;
        }
        assert(moves@ =~= moves_of(raw@));
        assert(codes_ok(raw@));
        self.adopt(Replay { version, moves })
    }

    /// Takes a replay over, unless its version is not the one understood or
    /// its ticks go backwards. The engine then stands before the first move,
    /// and playback is moved forward so that the first move waits no longer
    /// than the largest delay.
    #[verifier::loop_isolation(false)]
    pub fn adopt(&mut self, replay: Replay) -> (r: Result<(), ReplayError>)
        requires
            old(self)@.wf(),
        ensures
            r == if replay.version != REPLAY_VERSION {
                Err::<(), ReplayError>(ReplayError::Version { found: replay.version })
            } else if !sorted(replay.moves@) {
                Err(ReplayError::Unordered)
            } else {
                Ok(())
            },
            final(self)@ == if r is Ok {
                old(self)@.loaded(replay.moves@)
            } else {
                old(self)@
            },
            final(self)@.wf(),
    {
        if replay.version != REPLAY_VERSION {
            return Err(ReplayError::Version { found: replay.version });
        }
        let mut i: usize = 1;
        while i < replay.moves.len()
            invariant
                1 <= i,
                forall|k: int|
                    1 <= k < i && k < replay.moves@.len() ==> #[trigger] in_step(replay.moves@, k),
            decreases replay.moves@.len() - i,
        {
            if replay.moves[i - 1].tick > replay.moves[i].tick {
                assert(!sorted(replay.moves@)) by {
                    assert(!(replay.moves@[i - 1].tick <= replay.moves@[i as int].tick));
                }
                return Err(ReplayError::Unordered);
            }
            assert(in_step(replay.moves@, i as int));
            i = i + 1;
        }
        proof {
            lemma_sorted_by_steps(replay.moves@);
        }
        self.replay = replay;
        self.idx = 0;
        if self.replay.moves.len() != 0 {
            self.shift = if self.replay.moves[0].tick > MAX_DELAY {
                self.replay.moves[0].tick - MAX_DELAY
            } else {
                0
            };
        }
        Ok(())
    }

    /// Makes the recording ready to be stored and hands it out as bytes. An
    /// engine without moves hands out nothing and stays as it is. Else the
    /// gaps are clipped: no move waits longer than the largest delay for the
    /// one before it, nor the first for the start.
    pub fn save(&mut self) -> (r: Option<Vec<u8>>)
        requires
            old(self)@.wf(),
        ensures
            old(self)@.moves.len() == 0 ==> r is None && final(self)@ == old(self)@,
            old(self)@.moves.len() > 0 ==> r is Some && final(self)@ == old(self)@.saved(),
            r matches Some(b) ==> b@ == replay_bytes(REPLAY_VERSION, normalized(old(self)@.moves)),
            final(self)@.wf(),
    {
        if self.replay.moves.len() == 0 {
            return None;
        }
        clip_gaps(&mut self.replay.moves);
        proof {
            lemma_normalized(old(self)@.moves);
        }
        let mut raw: Vec<(u64, u32)> = Vec::new();
        let mut i: usize = 0;
        while i < self.replay.moves.len()
            invariant
                i <= self.replay.moves@.len(),
                raw@.len() == i,
                forall|k: int| 0 <= k < i ==> raw@[k] == raw_of(self.replay.moves@)[k],
            decreases self.replay.moves@.len() - i,
        {
            let m: Move = self.replay.moves[i];
            raw.push((m.tick, m.act.to_code()));
            i = i + 1;
        }
        assert(raw@ =~= raw_of(self.replay.moves@));
        match encode(self.replay.version, &raw) {
            Ok(bytes) => Some(bytes),
            Err(_) => None,
        }
    }

    /// Whether the engine has moves.
    pub fn is_loaded(&self) -> (r: bool)
        ensures
            r == (self@.moves.len() != 0),
    {
        self.replay.moves.len() != 0
    }

    /// Begins to play, from the first move. An engine without moves stays
    /// idle.
    pub fn replay_start(&mut self)
        requires
            old(self)@.state == State::Idle,
            old(self)@.wf(),
        ensures
            final(self)@ == old(self)@.started(),
            final(self)@.wf(),
    {
        if self.replay.moves.len() == 0 {
            return ;
        }
        self.state = State::Replaying;
        self.idx = 0;
    }

    /// Whether the engine plays and has moves left.
    pub fn is_playing(&self) -> (r: bool)
        ensures
            r == self@.playing(),
    {
        self.state == State::Replaying && self.idx < self.replay.moves.len()
    }

    /// How much has been played, in percent; 0 unless the engine plays.
    pub fn replay_percent(&self) -> (p: i32)
        requires
            self@.wf(),
        ensures
            p == self@.percent(),
            0 <= p <= 100,
    {
        let l: usize = self.replay.moves.len();
        if l == 0 || self.state != State::Replaying {
            0
        } else {
            let done: u128 = self.idx as u128 * 100;
            assert(done / (l as u128) <= 100) by (nonlinear_arith)
                requires
                    done <= 100 * (l as u128),
                    l > 0,
            ;
            (done / (l as u128)) as i32
        }
    }

    /// Releases the next action if its tick has come: the recorded tick less
    /// the shift. At most one action is released per call.
    pub fn next_replay_action(&mut self, tick: u64) -> (a: Option<Action>)
        requires
            old(self)@.wf(),
        ensures
            a == old(self)@.next_action(tick),
            final(self)@ == old(self)@.stepped(tick),
            final(self)@.wf(),
    {
        if !self.is_playing() {
            return None;
        }
        let count: usize = self.replay.moves.len();
        assert(self.idx < count);
        let recorded: u64 = self.replay.moves[self.idx].tick;
        if recorded > self.shift && tick < recorded - self.shift {
            return None;
        }
        self.idx = self.idx + 1;
        Some(self.replay.moves[self.idx - 1].act)
    }

    /// Records `act` as made at tick `ticks`.
    pub fn add_action(&mut self, ticks: u64, act: Action)
        requires
            old(self)@.state == State::Recording,
            old(self)@.wf(),
            old(self)@.moves.len() > 0 ==> old(self)@.moves.last().tick <= ticks,
        ensures
            final(self)@ == old(self)@.recorded(ticks, act),
            final(self)@.wf(),
    {
        let m = Move { tick: ticks, act };
        self.replay.moves.push(m);
    }

    /// Number of moves that are not played yet.
    pub fn moves_left(&self) -> (n: usize)
        requires
            self@.playing(),
        ensures
            n == self@.moves.len() - self@.idx,
    {
        self.replay.moves.len() - self.idx
    }

    /// Number of moves.
    pub fn action_count(&mut self) -> (n: usize)
        ensures
            n == old(self)@.moves.len(),
            final(self)@ == old(self)@,
    {
        self.replay.moves.len()
    }
}

/// Moves whose ticks never fall from one to the next are in order.
pub proof fn lemma_sorted_by_steps(moves: Seq<Move>)
    requires
        forall|k: int| 1 <= k < moves.len() ==> #[trigger] in_step(moves, k),
    ensures
        sorted(moves),
{
    assert forall|i: int, j: int| 0 <= i <= j < moves.len() implies moves[i].tick
        <= moves[j].tick by {
        lemma_step_chain(moves, i, j);
    }
}

proof fn lemma_step_chain(moves: Seq<Move>, i: int, j: int)
    requires
        forall|k: int| 1 <= k < moves.len() ==> #[trigger] in_step(moves, k),
        0 <= i <= j < moves.len(),
    ensures
        moves[i].tick <= moves[j].tick,
    decreases j - i,
{
    if i < j {
        lemma_step_chain(moves, i, j - 1);
        assert(in_step(moves, j));
    }
}

/// A clipped tick is no later than the recorded one, and no earlier than the
/// clipped tick of any move before it.
pub proof fn lemma_clipped_tick(moves: Seq<Move>, i: int)
    requires
        sorted(moves),
        0 <= i < moves.len(),
    ensures
        0 <= clipped_tick(moves, i) <= moves[i].tick,
        i > 0 ==> 0 <= clipped_tick(moves, i) - clipped_tick(moves, i - 1) <= MAX_DELAY,
        i == 0 ==> clipped_tick(moves, i) <= MAX_DELAY,
        moves[i].tick - clipped_tick(moves, i) >= 0,
        i > 0 ==> moves[i].tick - clipped_tick(moves, i) >= moves[i - 1].tick - clipped_tick(
            moves,
            i - 1,
        ),
    decreases i,
{
    if i > 0 {
        lemma_clipped_tick(moves, i - 1);
    }
}

/// Clipping the gaps keeps the number of moves, their actions and their
/// order; no tick becomes later; the ticks stay in order; the first is at
/// most the largest delay, and so is every gap.
pub proof fn lemma_normalized(moves: Seq<Move>)
    requires
        sorted(moves),
    ensures
        normalized(moves).len() == moves.len(),
        sorted(normalized(moves)),
        forall|i: int|
            0 <= i < moves.len() ==> (#[trigger] normalized(moves)[i]).act == moves[i].act
                && normalized(moves)[i].tick <= moves[i].tick,
        moves.len() > 0 ==> normalized(moves)[0].tick <= MAX_DELAY,
        forall|i: int|
            0 <= i && i + 1 < moves.len() ==> 0 <= #[trigger] gap(normalized(moves), i)
                <= MAX_DELAY,
{
    let n = normalized(moves);
    assert forall|i: int| 0 <= i < moves.len() implies (#[trigger] n[i]).act == moves[i].act
        && n[i].tick <= moves[i].tick by {
        lemma_clipped_tick(moves, i);
    }
    assert forall|k: int| 1 <= k < n.len() implies #[trigger] in_step(n, k) by {
        lemma_clipped_tick(moves, k);
        lemma_clipped_tick(moves, k - 1);
    }
    lemma_sorted_by_steps(n);
    assert forall|i: int| 0 <= i && i + 1 < moves.len() implies 0 <= #[trigger] gap(n, i)
        <= MAX_DELAY by {
        lemma_clipped_tick(moves, i + 1);
        lemma_clipped_tick(moves, i);
    }
    if moves.len() > 0 {
        lemma_clipped_tick(moves, 0);
    }
}


/// Bytes in the stored layout are read as the version and the moves that
/// they were written from.
pub proof fn lemma_parse_layout(version: u32, raw: Seq<(u64, u32)>)
    requires
        raw.len() <= u64::MAX,
    ensures
        replay_parse(replay_layout(version, raw)) == Some((version, raw)),
{
    lemma_auto_spec_u32_to_from_le_bytes();
    lemma_auto_spec_u64_to_from_le_bytes();
    let n = raw.len();
    let head = spec_u32_to_le_bytes(version);
    let count = spec_u64_to_le_bytes(n as u64);
    let body = Seq::new(12 * n, |k: int| move_layout(raw[k / 12])[k % 12]);
    let bytes = replay_layout(version, raw);
    assert(bytes == head + count + body);
    assert(bytes.len() == 12 + 12 * n);
    assert(bytes.subrange(0, 4) =~= head);
    assert(bytes.subrange(4, 12) =~= count);
    let parsed = replay_parse(bytes)->0;
    assert(parsed.0 == version);
    assert(parsed.1.len() == n);
    assert forall|i: int| 0 <= i < n implies parsed.1[i] == raw[i] by {
        let tick = spec_u64_to_le_bytes(raw[i].0);
        let code = spec_u32_to_le_bytes(raw[i].1);
        assert(move_layout(raw[i]) == tick + code);
        assert forall|j: int| 0 <= j < 12 implies bytes[12 + 12 * i + j] == move_layout(
            raw[i],
        )[j] by {
            let k = 12 * i + j;
            assert(k / 12 == i && k % 12 == j);
            assert(bytes[12 + k] == body[k]);
        }
        assert(bytes.subrange(12 + 12 * i, 20 + 12 * i) =~= tick) by {
            assert forall|j: int| 0 <= j < 8 implies bytes.subrange(12 + 12 * i, 20 + 12 * i)[j]
                == tick[j] by {
                assert(bytes[12 + 12 * i + j] == move_layout(raw[i])[j]);
            }
        }
        assert(bytes.subrange(20 + 12 * i, 24 + 12 * i) =~= code) by {
            assert forall|j: int| 0 <= j < 4 implies bytes.subrange(20 + 12 * i, 24 + 12 * i)[j]
                == code[j] by {
                assert(bytes[12 + 12 * i + (8 + j)] == move_layout(raw[i])[8 + j]);
            }
        }
    }
    assert(parsed.1 =~= raw);
}

/// The bytes that moves in order are stored as are taken for those moves
/// again.
pub proof fn lemma_decode_encoded(moves: Seq<Move>)
    requires
        sorted(moves),
        moves.len() <= u64::MAX,
    ensures
        decoded(replay_bytes(REPLAY_VERSION, moves)) == Ok::<Seq<Move>, ReplayError>(moves),
{
    lemma_parse_layout(REPLAY_VERSION, raw_of(moves));
    assert(moves_of(raw_of(moves)) =~= moves);
}

/// What an engine releases when it is asked once at each of `ticks`, and the
/// engine that is left.
pub open spec fn driven(e: EngineView, ticks: Seq<u64>) -> (EngineView, Seq<Option<Action>>)
    decreases ticks.len(),
{
    if ticks.len() == 0 {
        (e, Seq::empty())
    } else {
        let (before, out) = driven(e, ticks.drop_last());
        (before.stepped(ticks.last()), out.push(before.next_action(ticks.last())))
    }
}

/// The ticks of moves.
pub open spec fn ticks_of(moves: Seq<Move>) -> Seq<u64> {
    Seq::new(moves.len(), |i: int| moves[i].tick)
}

/// A recording comes back as it was made.
///
/// Let moves be recorded with ticks in order, and made ready to be stored.
/// Then the bytes that they are stored as are taken for the stored moves
/// again. An engine that takes them over and plays, asked once at the tick
/// of each recorded move, releases at each the action of that move, in the
/// order of the recording, and has then played all.
pub proof fn lemma_round_trip(moves: Seq<Move>)
    requires
        sorted(moves),
        0 < moves.len() <= u64::MAX,
    ensures
        ({
            let stored = EngineView::fresh().recording().saved_with(moves).moves;
            let player = EngineView::fresh().loaded(stored).started();
            &&& decoded(replay_bytes(REPLAY_VERSION, stored)) == Ok::<Seq<Move>, ReplayError>(
                stored,
            )
            &&& driven(player, ticks_of(moves)).1 == Seq::new(
                moves.len(),
                |i: int| Some(moves[i].act),
            )
            &&& !driven(player, ticks_of(moves)).0.playing()
        }),
{
    let stored = normalized(moves);
    lemma_normalized(moves);
    lemma_decode_encoded(stored);
    let player = EngineView::fresh().loaded(stored).started();
    assert(player.shift == 0);
    lemma_driven(player, moves, moves.len() as int);
    assert(ticks_of(moves).take(moves.len() as int) =~= ticks_of(moves));
    assert(driven(player, ticks_of(moves)).1 =~= Seq::new(
        moves.len(),
        |i: int| Some(moves[i].act),
    ));
}

proof fn lemma_driven(player: EngineView, moves: Seq<Move>, k: int)
    requires
        sorted(moves),
        0 <= k <= moves.len(),
        player.moves == normalized(moves),
        player.state == State::Replaying,
        player.idx == 0,
        player.shift == 0,
    ensures
        driven(player, ticks_of(moves).take(k)).0 == (EngineView { idx: k, ..player }),
        driven(player, ticks_of(moves).take(k)).1 == Seq::new(
            k as nat,
            |i: int| Some(moves[i].act),
        ),
    decreases k,
{
    let ticks = ticks_of(moves).take(k);
    if k == 0 {
        assert(driven(player, ticks).1 =~= Seq::new(0nat, |i: int| Some(moves[i].act)));
    } else {
        lemma_driven(player, moves, k - 1);
        lemma_normalized(moves);
        assert(ticks.drop_last() =~= ticks_of(moves).take(k - 1));
        assert(ticks.last() == moves[k - 1].tick);
        let before = EngineView { idx: k - 1, ..player };
        assert(driven(player, ticks.drop_last()).0 == before);
        assert(before.playing());
        assert(normalized(moves)[k - 1].tick <= moves[k - 1].tick);
        assert(before.due(moves[k - 1].tick));
        assert(before.stepped(moves[k - 1].tick) == (EngineView { idx: k, ..player }));
        assert(before.next_action(moves[k - 1].tick) == Some(moves[k - 1].act));
        assert(driven(player, ticks).1 =~= Seq::new(k as nat, |i: int| Some(moves[i].act)));
    }
}

} // verus!

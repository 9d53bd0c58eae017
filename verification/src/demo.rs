//! The scene in which a replay is shown: the board, the engine that plays
//! the recording, and the clock that playback goes by.

use vstd::prelude::*;
use crate::consts::DEMO_LEVEL;
use crate::field::{GameField, GameState};
use crate::loader::{LevelView, Loader};
use crate::replay::{decoded, Action, EngineView, ReplayEngine, State};
use crate::rules::FieldView;
use crate::scenes::{Keys, Transition};
use crate::scores::{Scores, ScoresView};

verus! {

/// The scene in which a replay is shown.
pub struct DemoScene {
    pub field: GameField,
    pub replay: ReplayEngine,
    /// Ticks since playback began.
    pub tick: u64,
    /// The rules of the game are shown, and playback waits.
    pub rules_shown: bool,
}

/// The scene as a plain value.
pub struct DemoView {
    pub field: FieldView,
    pub replay: EngineView,
    pub tick: u64,
    pub rules_shown: bool,
}

impl View for DemoScene {
    type V = DemoView;

    open spec fn view(&self) -> DemoView {
        DemoView {
            field: self.field@,
            replay: self.replay@,
            tick: self.tick,
            rules_shown: self.rules_shown,
        }
    }
}

/// The board after the player's action `act`.
pub open spec fn acted(field: FieldView, act: Action) -> FieldView {
    match act {
        Action::Up => field.moved_up(),
        Action::Down => field.moved_down(),
        Action::Throw => field.thrown(),
    }
}

/// The bytes at hand as a plain value.
pub open spec fn bytes_view(bytes: Option<&[u8]>) -> Option<Seq<u8>> {
    match bytes {
        Some(b) => Some(b@),
        None => None,
    }
}

impl DemoView {
    /// The scene as it begins: level `lvl` set up on a board that shows a
    /// replay; the engine playing what the bytes hold, or idle where they
    /// hold no replay; the clock at zero; the rules shown for the level of
    /// the main menu's demo.
    pub open spec fn begun(
        levels: Seq<LevelView>,
        scores: ScoresView,
        lvl: int,
        bytes: Option<Seq<u8>>,
    ) -> DemoView {
        DemoView {
            field: FieldView::begun(levels, scores, true, lvl),
            replay: match bytes {
                Some(b) => match decoded(b) {
                    Ok(moves) => EngineView::fresh().loaded(moves).started(),
                    Err(_) => EngineView::fresh(),
                },
                None => EngineView::fresh(),
            },
            tick: 0,
            rules_shown: lvl == DEMO_LEVEL,
        }
    }

    /// The invariant of the scene: the board and the engine are in order,
    /// and the engine does not record.
    pub open spec fn wf(self) -> bool {
        &&& self.field.wf()
        &&& self.replay.wf()
        &&& self.replay.state != State::Recording
    }

    /// Number of moves that are still to be played.
    pub open spec fn moves_left(self) -> int {
        if self.replay.playing() {
            self.replay.moves.len() - self.replay.idx
        } else {
            0
        }
    }

    /// What an update asks of those who call it: the clock can go on, and
    /// the count of throws has room for every move that is still to be
    /// played.
    pub open spec fn ready(self) -> bool {
        &&& self.tick < u64::MAX
        &&& self.field.score + self.moves_left() <= u32::MAX
    }

    /// The scene after every move was played whose tick has come.
    pub open spec fn drained(self) -> DemoView
        decreases self.moves_left(),
    {
        match self.replay.next_action(self.tick) {
            Some(act) => DemoView {
                field: acted(self.field, act),
                replay: self.replay.stepped(self.tick),
                ..self
            }.drained(),
            None => self,
        }
    }

    /// The scene with the board counted as won once the replay is over.
    pub open spec fn closed(self) -> DemoView {
        if !self.replay.playing() {
            DemoView {
                field: FieldView { state: GameState::Winner, ..self.field },
                ..self
            }
        } else {
            self
        }
    }

    /// Whether the keys end the scene: escape, space or enter at any time,
    /// and the enter key of the number pad once the board is won.
    pub open spec fn dismissed(self, keys: Keys) -> bool {
        keys.escape || keys.space || keys.enter || (keys.numpad_enter && self.field.state
            == GameState::Winner)
    }

    /// What one update makes of the scene.
    ///
    /// While the rules are shown, space or escape takes them away, and
    /// nothing else happens. Else the clock advances, every move is played
    /// whose tick has come, and the board counts as won once the replay is
    /// over. Then the keys may end the scene; if they do not, the board has
    /// its tick.
    pub open spec fn stepped(self, keys: Keys) -> (DemoView, Transition) {
        if self.rules_shown {
            (
                DemoView { rules_shown: !(keys.space || keys.escape), ..self },
                Transition::Stay,
            )
        } else {
            let played = DemoView { tick: (self.tick + 1) as u64, ..self }.drained().closed();
            if played.dismissed(keys) {
                (played, Transition::Pop)
            } else {
                (DemoView { field: played.field.ticked(), ..played }, Transition::Stay)
            }
        }
    }
}

impl DemoScene {
    /// Sets up the replay of level `lvl`, from the bytes that it is stored
    /// as, if there are any. Bytes that are no replay leave the scene with
    /// nothing to play. The rules are shown first if the level is the one
    /// that the main menu shows.
    pub fn new(loader: Loader, scores: &Scores, lvl: usize, bytes: Option<&[u8]>) -> (d: DemoScene)
        requires
            loader.wf(),
            lvl < loader@.len(),
        ensures
            d@ == DemoView::begun(loader@, scores@, lvl as int, bytes_view(bytes)),
            d@.wf(),
            d@.field.levels == loader@,
    {
        let mut d = DemoScene {
            field: GameField::new(loader, scores, true),
            replay: ReplayEngine::new(),
            tick: 0,
            rules_shown: lvl == DEMO_LEVEL,
        };
        d.field.load(scores, lvl);
        match bytes {
            Some(b) => {
                let _ = d.replay.load(b);
            },
            None => {},
        }
        d.replay.replay_start();
        d
    }

    /// Whether the scene can be updated.
    pub fn is_ready_now(&self) -> (r: bool)
        ensures
            r == self@.ready(),
    {
        if self.tick == u64::MAX {
            return false;
        }
        let left: usize = if self.replay.is_playing() {
            self.replay.moves_left()
        } else {
            0
        };
        (left as u128) + (self.field.score as u128) <= u32::MAX as u128
    }

    /// Plays every move whose tick has come.
    fn drain(&mut self)
        requires
            old(self)@.wf(),
            old(self)@.field.score + old(self)@.moves_left() <= u32::MAX,
        ensures
            final(self)@ == old(self)@.drained(),
            final(self)@.wf(),
    {
        loop
            invariant
                self@.wf(),
                self@.field.score + self@.moves_left() <= u32::MAX,
                self@.drained() == old(self)@.drained(),
            ensures
                self@ == old(self)@.drained(),
                self@.wf(),
            decreases self@.moves_left(),
        {
            match self.replay.next_replay_action(self.tick) {
                Some(act) => {
                    match act {
                        Action::Up => self.field.player_up(),
                        Action::Down => self.field.player_down(),
                        Action::Throw => self.field.throw_brick(),
                    }
                },
                None => {
                    break ;
                },
            }
        }
    }

    /// Updates the scene by one tick.
    pub fn update(&mut self, keys: &Keys) -> (t: Transition)
        requires
            old(self)@.wf(),
            old(self)@.ready(),
        ensures
            final(self)@ == old(self)@.stepped(*keys).0,
            t == old(self)@.stepped(*keys).1,
            final(self)@.wf(),
    {
        if self.rules_shown {
            if keys.space || keys.escape {
                self.rules_shown = false;
            }
            return Transition::Stay;
        }
        self.tick = self.tick + 1;
        self.drain();
        if !self.replay.is_playing() {
            self.field.state = GameState::Winner;
        }
        if keys.escape {
            return Transition::Pop;
        }
        if keys.space || keys.enter || (keys.numpad_enter && self.field.state
            == GameState::Winner) {
            return Transition::Pop;
        }
        self.field.tick();
        Transition::Stay
    }
}

} // verus!

//! The scene in which a level is played: the board, the recorder of the
//! player's input, and the clock that the recording goes by.

use vstd::prelude::*;
use crate::field::{GameField, GameState};
use crate::loader::{LevelView, Loader};
use crate::replay::{
    decoded, lemma_clipped_tick, lemma_normalized, replay_bytes, Action, EngineView, Move,
    ReplayEngine, State, REPLAY_VERSION,
};
use crate::rules::{lemma_tick_frame, FieldView};
use crate::scenes::{Keys, SceneKind, Transition};
use crate::scores::{pick_day, Scores, ScoresView};

verus! {

/// Leaving a game after this many throws counts as a failure.
pub const MIN_THROWS: u32 = 3;

/// The scene in which a level is played.
pub struct PlayScene {
    pub field: GameField,
    pub replay: ReplayEngine,
    /// Ticks since the level was begun.
    pub tick: u64,
}

/// The scene as a plain value.
pub struct PlayView {
    pub field: FieldView,
    pub replay: EngineView,
    pub tick: u64,
}

/// What an update of the scene ends with.
pub struct PlayStep {
    /// What the scene asks of the stack of scenes.
    pub transition: Transition,
    /// The level that was played when the update began.
    pub level: usize,
    /// The recording, if the player asked for it to be stored and it could
    /// be written.
    pub saved: Option<Vec<u8>>,
    /// The scores are to be stored.
    pub persist: bool,
}

/// What an update makes of the scene and the scores.
pub struct PlayEnd {
    pub scene: PlayView,
    pub scores: ScoresView,
    pub transition: Transition,
    /// The player asked for the recording to be stored, and there is one.
    pub saving: bool,
    /// The moves that are stored, if any are.
    pub stored: Seq<Move>,
    pub persist: bool,
}

/// What the player's input makes of the scene and the scores, and what the
/// update ends with if the input ends it: a request to the stack of scenes,
/// and whether the scores are to be stored.
pub struct Heard {
    pub scene: PlayView,
    pub scores: ScoresView,
    pub early: Option<(Transition, bool)>,
}

impl View for PlayScene {
    type V = PlayView;

    open spec fn view(&self) -> PlayView {
        PlayView { field: self.field@, replay: self.replay@, tick: self.tick }
    }
}

impl PlayView {
    /// The scene as it begins: the current level set up, the engine
    /// recording, the clock at zero.
    pub open spec fn begun(levels: Seq<LevelView>, scores: ScoresView) -> PlayView {
        PlayView {
            field: FieldView::begun(levels, scores, false, scores.curr_level as int),
            replay: EngineView::fresh().recording(),
            tick: 0,
        }
    }

    /// The invariant of the scene: the board is in order and shows no
    /// replay; the engine records, and no move was recorded later than now.
    pub open spec fn wf(self) -> bool {
        &&& self.field.wf()
        &&& !self.field.demoing
        &&& self.replay.wf()
        &&& self.replay.state == State::Recording
        &&& self.replay.moves.len() > 0 ==> self.replay.moves.last().tick <= self.tick
    }

    /// Whether the keys ask for help, and a replay of the level is at hand:
    /// the board listens, and of the keys that it listens to the one for
    /// help comes first.
    pub open spec fn asks_help(self, keys: Keys, help: Option<Seq<u8>>) -> bool {
        self.field.interactive() && !keys.space && !keys.up && !keys.down && keys.f1
            && help_at_hand(help)
    }

    /// What an update asks of those who call it, by what the update will
    /// do. Where the player leaves: that what the game came to can be
    /// entered in the scores. Else: that the clock can go on; where a throw
    /// is made, that it can be counted; where help is given, that the level
    /// exists and the scores have an entry for it; and where the board does
    /// not listen, that what is due after its tick can be settled.
    pub open spec fn ready(self, keys: Keys, help: Option<Seq<u8>>, scores: ScoresView) -> bool {
        let f = self.field;
        if keys.escape {
            &&& f.state == GameState::Completed || f.state == GameState::Winner
                ==> scores.can_record(f.level as int)
            &&& f.state == GameState::Looser || (f.score >= MIN_THROWS && f.state
                == GameState::Unfinished) ==> scores.can_fail(f.level as int)
        } else {
            &&& self.tick < u64::MAX
            &&& f.interactive() && keys.space && f.can_throw() ==> f.score < u32::MAX
            &&& self.asks_help(keys, help) ==> f.level < scores.levels.len() && f.level
                < f.levels.len()
            &&& !f.interactive() ==> f.ready(keys.space || keys.enter, scores)
        }
    }

    /// Whether the update enters a win in the scores, so that the day is
    /// needed: the player leaves a game that is won, or confirms one.
    pub open spec fn enters_win(self, keys: Keys) -> bool {
        let f = self.field;
        if keys.escape {
            f.state == GameState::Completed || f.state == GameState::Winner
        } else {
            !f.interactive() && f.ticked().wins(keys.space || keys.enter)
        }
    }

    /// The scores after the player left the game on day `today`: a game that
    /// is won is entered as a win; one that is lost, or given up after some
    /// throws, as a failure.
    pub open spec fn left(self, scores: ScoresView, today: i32) -> ScoresView {
        let f = self.field;
        if f.state == GameState::Completed || f.state == GameState::Winner {
            scores.won(f.level as int, f.score, today)
        } else if f.state == GameState::Looser || (f.score >= MIN_THROWS && f.state
            == GameState::Unfinished) {
            scores.failed(f.level as int)
        } else {
            scores
        }
    }

    /// Whether leaving the game changes the scores.
    pub open spec fn leaving_counts(self) -> bool {
        self.field.state != GameState::Unfinished || self.field.score >= MIN_THROWS
    }

    /// The scene with `act` recorded for the tick that has begun.
    pub open spec fn noted(self, act: Action) -> PlayView {
        PlayView { replay: self.replay.recorded(self.tick, act), ..self }
    }

    /// The scene after the board had its update: where the level is lost,
    /// the recording begins anew and the clock is set back.
    pub open spec fn after_field(self, field: FieldView) -> PlayView {
        if field.state == GameState::Looser {
            PlayView { field, replay: self.replay.recording(), tick: 0 }
        } else {
            PlayView { field, ..self }
        }
    }

    /// The rest of an update, after the player's input was taken: the
    /// recording is made ready if the player asked for it to be stored, and
    /// the board has its update.
    pub open spec fn finished(self, keys: Keys, scores: ScoresView, today: i32) -> PlayEnd {
        let saving = keys.f5 && self.replay.moves.len() > 0;
        let kept = if saving {
            PlayView { replay: self.replay.saved(), ..self }
        } else {
            self
        };
        let confirm = keys.space || keys.enter;
        let end = kept.field.updated(confirm, scores, today);
        PlayEnd {
            scene: kept.after_field(end.field),
            scores: end.scores,
            transition: end.transition,
            saving,
            stored: kept.replay.moves,
            persist: kept.field.ticked().records(confirm),
        }
    }

    /// What the player's input makes of the scene and the scores. While the
    /// board does not listen, nothing. A throw is recorded and made, and
    /// ends the update. A step up or down is recorded and made. A call for
    /// help, if a replay of the level is at hand, marks the level in the
    /// scores and ends the update with the replay put on top of the scene.
    pub open spec fn heard(self, keys: Keys, help: Option<Seq<u8>>, scores: ScoresView) -> Heard {
        if !self.field.interactive() {
            Heard { scene: self, scores, early: None }
        } else if keys.space {
            Heard {
                scene: PlayView { field: self.field.thrown(), ..self.noted(Action::Throw) },
                scores,
                early: Some((Transition::Stay, false)),
            }
        } else if keys.up {
            Heard {
                scene: PlayView { field: self.field.moved_up(), ..self.noted(Action::Up) },
                scores,
                early: None,
            }
        } else if keys.down {
            Heard {
                scene: PlayView { field: self.field.moved_down(), ..self.noted(Action::Down) },
                scores,
                early: None,
            }
        } else if keys.f1 && help_at_hand(help) {
            Heard {
                scene: self,
                scores: scores.helped(self.field.level as int),
                early: Some(
                    (
                        Transition::Push(SceneKind::Demo { level: self.field.level }),
                        scores.levels[self.field.level as int].wins == 0,
                    ),
                ),
            }
        } else {
            Heard { scene: self, scores, early: None }
        }
    }

    /// What one update makes of the scene and the scores, given the keys,
    /// the bytes of a stored replay of the level if there are any, and the
    /// day.
    ///
    /// Escape ends the scene, and what the game came to is entered in the
    /// scores. Else the clock advances and the player's input is taken;
    /// unless that ends the update, the update is finished.
    pub open spec fn stepped(
        self,
        keys: Keys,
        help: Option<Seq<u8>>,
        scores: ScoresView,
        today: i32,
    ) -> PlayEnd {
        if keys.escape {
            PlayEnd {
                scene: self,
                scores: self.left(scores, today),
                transition: Transition::Pop,
                saving: false,
                stored: Seq::empty(),
                persist: self.leaving_counts(),
            }
        } else {
            let now = PlayView { tick: (self.tick + 1) as u64, ..self };
            let heard = now.heard(keys, help, scores);
            match heard.early {
                Some((transition, persist)) => PlayEnd {
                    scene: heard.scene,
                    scores: heard.scores,
                    transition,
                    saving: false,
                    stored: Seq::empty(),
                    persist,
                },
                None => heard.scene.finished(keys, heard.scores, today),
            }
        }
    }
}

/// Whether the bytes hold a replay with moves.
pub open spec fn help_at_hand(help: Option<Seq<u8>>) -> bool {
    match help {
        Some(bytes) => match decoded(bytes) {
            Ok(moves) => moves.len() > 0,
            Err(_) => false,
        },
        None => false,
    }
}

/// Whether the bytes hold a replay with moves.
pub fn has_replay(bytes: &[u8]) -> (r: bool)
    ensures
        r == help_at_hand(Some(bytes@)),
{
    let mut replay = ReplayEngine::new();
    match replay.load(bytes) {
        Ok(()) => replay.is_loaded(),
        Err(_) => false,
    }
}

impl PlayScene {
    /// Begins to play the level that `scores` has as the current one.
    pub fn new(loader: Loader, scores: &Scores) -> (p: PlayScene)
        requires
            loader.wf(),
            scores@.curr_level < loader@.len(),
        ensures
            p@ == PlayView::begun(loader@, scores@),
            p@.wf(),
            p@.field.levels == loader@,
    {
        let lvl: usize = scores.curr_level();
        let mut p = PlayScene {
            field: GameField::new(loader, scores, false),
            replay: ReplayEngine::new(),
            tick: 0,
        };
        p.field.load(scores, lvl);
        p.replay.rec_start();
        p
    }

    /// Whether the scene can be updated with these keys and scores, and
    /// with these bytes as the stored replay of the level.
    pub fn is_ready(&self, keys: &Keys, help: Option<&[u8]>, scores: &Scores) -> (r: bool)
        requires
            self@.wf(),
        ensures
            r == self@.ready(*keys, help_view(help), scores@),
    {
        let state: GameState = self.field.state;
        let level: usize = self.field.level;
        if keys.escape {
            if state == GameState::Completed || state == GameState::Winner {
                return scores.can_record(level);
            }
            if state == GameState::Looser || (self.field.score >= MIN_THROWS && state
                == GameState::Unfinished) {
                return scores.can_fail(level);
            }
            return true;
        }
        if self.tick == u64::MAX {
            return false;
        }
        if !self.field.is_interactive() {
            return self.field.is_ready(keys.space || keys.enter, scores);
        }
        if keys.space {
            return !self.field.can_throw() || self.field.score < u32::MAX;
        }
        if keys.up || keys.down || !keys.f1 {
            return true;
        }
        let at_hand: bool = match help {
            Some(bytes) => has_replay(bytes),
            None => false,
        };
        !at_hand || (scores.has_level(level) && level < self.field.loader.level_count())
    }

    /// The rest of an update, after the player's input was taken. The day
    /// is the one given, or the clock's where none is given and a win is
    /// entered. Returns the day that was used with what the update ends
    /// with.
    fn finish(&mut self, keys: &Keys, scores: &mut Scores, day: Option<i32>) -> (r: (
        PlayStep,
        i32,
    ))
        requires
            old(self)@.wf(),
            old(self)@.field.ready(keys.space || keys.enter, old(scores)@),
        ensures
            day matches Some(d) ==> r.1 == d,
            day is None && old(self)@.field.ticked().wins(keys.space || keys.enter) ==> r.1 > 0,
            ({
                let end = old(self)@.finished(*keys, old(scores)@, r.1);
                &&& final(self)@ == end.scene
                &&& final(scores)@ == end.scores
                &&& r.0.transition == end.transition
                &&& r.0.persist == end.persist
                &&& r.0.level == old(self)@.field.level
                &&& (r.0.saved is Some <==> end.saving)
                &&& r.0.saved matches Some(b) ==> b@ == replay_bytes(REPLAY_VERSION, end.stored)
            }),
            final(self)@.wf(),
    {
        let level: usize = self.field.level;
        let mut saved: Option<Vec<u8>> = None;
        if keys.f5 {
            saved = self.replay.save();
            proof {
                lemma_normalized(old(self)@.replay.moves);
                if old(self)@.replay.moves.len() > 0 {
                    lemma_clipped_tick(
                        old(self)@.replay.moves,
                        old(self)@.replay.moves.len() - 1,
                    );
                }
            }
        }
        proof {
            lemma_tick_frame(self.field@);
        }
        let confirm: bool = keys.space || keys.enter;
        self.field.tick();
        let persist: bool = self.field.records(confirm);
        let today: i32 = pick_day(day, self.field.wins(confirm));
        let transition = self.field.settle(confirm, scores, today);
        if self.field.state == GameState::Looser {
            self.replay.rec_start();
            self.tick = 0;
        }
        (PlayStep { transition, level, saved, persist }, today)
    }

    /// Enters in the scores what the game came to when the player leaves.
    fn leave(&self, scores: &mut Scores, today: i32) -> (persist: bool)
        requires
            self.field.state == GameState::Completed || self.field.state == GameState::Winner
                ==> old(scores)@.can_record(self.field.level as int),
            self.field.state == GameState::Looser || (self.field.score >= MIN_THROWS
                && self.field.state == GameState::Unfinished) ==> old(scores)@.can_fail(
                self.field.level as int,
            ),
        ensures
            final(scores)@ == self@.left(old(scores)@, today),
            persist == self@.leaving_counts(),
    {
        let state: GameState = self.field.state;
        if state == GameState::Completed || state == GameState::Winner {
            scores.record_win(self.field.level, self.field.score, today);
            true
        } else if state == GameState::Looser || (self.field.score >= MIN_THROWS && state
            == GameState::Unfinished) {
            scores.set_fail(self.field.level);
            true
        } else {
            false
        }
    }

    /// Takes the player's input. Returns what the update ends with if the
    /// input ends it.
    fn hear(&mut self, keys: &Keys, help: Option<&[u8]>, scores: &mut Scores) -> (early: Option<
        (Transition, bool),
    >)
        requires
            old(self)@.wf(),
            old(self)@.field.interactive() && keys.space && old(self)@.field.can_throw() ==> old(self)@.field.score < u32::MAX,
            old(self)@.asks_help(*keys, help_view(help)) ==> old(self)@.field.level < old(scores)@.levels.len(),
        ensures
            ({
                let heard = old(self)@.heard(*keys, help_view(help), old(scores)@);
                &&& final(self)@ == heard.scene
                &&& final(scores)@ == heard.scores
                &&& early == heard.early
            }),
            final(self)@.wf(),
            final(self)@.field.level == old(self)@.field.level,
            final(self)@.field.levels == old(self)@.field.levels,
            final(self)@.field.state == old(self)@.field.state,
            final(self)@.field.demoing == old(self)@.field.demoing,
            early is None ==> final(scores)@ == old(scores)@ && final(self)@.field.going_back
                == old(self)@.field.going_back,
            !old(self)@.field.interactive() ==> final(self)@ == old(self)@ && early is None,
    {
        if !self.field.is_interactive() {
            return None;
        }
        if keys.space {
            self.replay.add_action(self.tick, Action::Throw);
            self.field.throw_brick();
            return Some((Transition::Stay, false));
        } else if keys.up {
            self.replay.add_action(self.tick, Action::Up);
            self.field.player_up();
        } else if keys.down {
            self.replay.add_action(self.tick, Action::Down);
            self.field.player_down();
        } else if keys.f1 {
            let at_hand: bool = match help {
                Some(bytes) => has_replay(bytes),
                None => false,
            };
            if at_hand {
                let persist: bool = scores.set_help_used(self.field.level);
                return Some(
                    (Transition::Push(SceneKind::Demo { level: self.field.level }), persist),
                );
            }
        }
        None
    }

    /// Updates the scene by one tick. The day is the one given, or the
    /// clock's where none is given and a win is entered. Returns the day
    /// that was used with what the update ends with.
    pub(crate) fn step(
        &mut self,
        keys: &Keys,
        help: Option<&[u8]>,
        scores: &mut Scores,
        day: Option<i32>,
    ) -> (r: (PlayStep, i32))
        requires
            old(self)@.wf(),
            old(self)@.ready(*keys, help_view(help), old(scores)@),
        ensures
            day matches Some(d) ==> r.1 == d,
            day is None && old(self)@.enters_win(*keys) ==> r.1 > 0,
            ({
                let end = old(self)@.stepped(*keys, help_view(help), old(scores)@, r.1);
                &&& final(self)@ == end.scene
                &&& final(scores)@ == end.scores
                &&& r.0.transition == end.transition
                &&& r.0.persist == end.persist
                &&& r.0.level == old(self)@.field.level
                &&& (r.0.saved is Some <==> end.saving)
                &&& r.0.saved matches Some(b) ==> b@ == replay_bytes(REPLAY_VERSION, end.stored)
            }),
            final(self)@.wf(),
    {
        if keys.escape {
            let state: GameState = self.field.state;
            let today: i32 = pick_day(
                day,
                state == GameState::Completed || state == GameState::Winner,
            );
            let persist: bool = self.leave(scores, today);
            return (
                PlayStep {
                    transition: Transition::Pop,
                    level: self.field.level,
                    saved: None,
                    persist,
                },
                today,
            );
        }
        self.tick = self.tick + 1;
        let level: usize = self.field.level;
        let ghost now = self@;
        match self.hear(keys, help, scores) {
            Some((transition, persist)) => {
                let today: i32 = pick_day(day, false);
                (PlayStep { transition, level, saved: None, persist }, today)
            },
            None => {
                proof {
                    lemma_tick_frame(self@.field);
                    lemma_tick_frame(now.field);
                }
                self.finish(keys, scores, day)
            },
        }
    }

    /// Updates the scene by one tick, on day `today`.
    pub fn update_on(
        &mut self,
        keys: &Keys,
        help: Option<&[u8]>,
        scores: &mut Scores,
        today: i32,
    ) -> (step: PlayStep)
        requires
            old(self)@.wf(),
            old(self)@.ready(*keys, help_view(help), old(scores)@),
        ensures
            ({
                let end = old(self)@.stepped(*keys, help_view(help), old(scores)@, today);
                &&& final(self)@ == end.scene
                &&& final(scores)@ == end.scores
                &&& step.transition == end.transition
                &&& step.persist == end.persist
                &&& step.level == old(self)@.field.level
                &&& (step.saved is Some <==> end.saving)
                &&& step.saved matches Some(b) ==> b@ == replay_bytes(REPLAY_VERSION, end.stored)
            }),
            final(self)@.wf(),
    {
        self.step(keys, help, scores, Some(today)).0
    }

    /// Updates the scene by one tick. `help` holds the bytes of the stored
    /// replay of the level, if there is one. The clock is read only where a
    /// win is entered, and gives the day of it.
    pub fn update(&mut self, keys: &Keys, help: Option<&[u8]>, scores: &mut Scores) -> (step:
        PlayStep)
        requires
            old(self)@.wf(),
            old(self)@.ready(*keys, help_view(help), old(scores)@),
        ensures
            exists|day: i32|
                {
                    let end = #[trigger] old(self)@.stepped(
                        *keys,
                        help_view(help),
                        old(scores)@,
                        day,
                    );
                    &&& old(self)@.enters_win(*keys) ==> day > 0
                    &&& final(self)@ == end.scene
                    &&& final(scores)@ == end.scores
                    &&& step.transition == end.transition
                    &&& step.persist == end.persist
                    &&& step.level == old(self)@.field.level
                    &&& (step.saved is Some <==> end.saving)
                    &&& step.saved matches Some(b) ==> b@ == replay_bytes(
                        REPLAY_VERSION,
                        end.stored,
                    )
                },
            final(self)@.wf(),
    {
        let (step, day) = self.step(keys, help, scores, None);
        assert({
            let end = old(self)@.stepped(*keys, help_view(help), old(scores)@, day);
            &&& old(self)@.enters_win(*keys) ==> day > 0
            &&& self@ == end.scene
            &&& scores@ == end.scores
            &&& step.transition == end.transition
            &&& step.persist == end.persist
            &&& step.level == old(self)@.field.level
            &&& (step.saved is Some <==> end.saving)
            &&& step.saved matches Some(b) ==> b@ == replay_bytes(REPLAY_VERSION, end.stored)
        });
        step
    }
}

/// The bytes at hand as a plain value.
pub open spec fn help_view(help: Option<&[u8]>) -> Option<Seq<u8>> {
    match help {
        Some(bytes) => Some(bytes@),
        None => None,
    }
}

} // verus!

//! What a scene asks of the stack of scenes, and which scenes there are.

use vstd::prelude::*;
use crate::consts::DEMO_LEVEL;
use crate::demo::{DemoScene, DemoView};
use crate::loader::{all_valid, LevelView, Loader};
use crate::mainmenu::{asked, level_chosen, selected, TitleScene, MENU_ITEMS};
use crate::play::{help_view, PlayScene, PlayView};
use crate::replay::{replay_bytes, Move, REPLAY_VERSION};
use crate::scores::{Scores, ScoresView};

verus! {

/// A scene that can be put on top of the stack.
#[derive(Debug, Copy, Clone, PartialEq, Eq, Structural)]
pub enum SceneKind {
    /// The current level, played.
    Play,
    /// The replay of a level.
    Demo { level: usize },
}

/// What a scene asks for at the end of an update.
#[derive(Debug, Copy, Clone, PartialEq, Eq, Structural)]
pub enum Transition {
    /// The scene goes on.
    Stay,
    /// Another scene is put on top of this one.
    Push(SceneKind),
    /// The scene ends, and the one below goes on.
    Pop,
}

/// The keys that matter, as they stand in one tick. All but `shift` tell
/// whether the key went down in this tick; `shift` tells whether a shift key
/// is held.
#[derive(Debug, Copy, Clone, PartialEq, Eq, Structural)]
pub struct Keys {
    pub up: bool,
    pub down: bool,
    pub left: bool,
    pub right: bool,
    pub space: bool,
    pub enter: bool,
    pub numpad_enter: bool,
    pub escape: bool,
    pub f1: bool,
    pub f5: bool,
    pub shift: bool,
}

impl Keys {
    /// No key.
    pub open spec fn idle() -> Keys {
        Keys {
            up: false,
            down: false,
            left: false,
            right: false,
            space: false,
            enter: false,
            numpad_enter: false,
            escape: false,
            f1: false,
            f5: false,
            shift: false,
        }
    }

    /// Returns the state in which no key is pressed.
    pub fn none() -> (k: Keys)
        ensures
            k == Keys::idle(),
    {
        Keys {
            up: false,
            down: false,
            left: false,
            right: false,
            space: false,
            enter: false,
            numpad_enter: false,
            escape: false,
            f1: false,
            f5: false,
            shift: false,
        }
    }
}


/// A scene on the stack.
pub enum Scene {
    Title(TitleScene),
    Play(PlayScene),
    Demo(DemoScene),
}

/// A scene as a plain value.
pub enum SceneView {
    Title { menu_id: usize },
    Play(PlayView),
    Demo(DemoView),
}

impl View for Scene {
    type V = SceneView;

    open spec fn view(&self) -> SceneView {
        match self {
            Scene::Title(t) => SceneView::Title { menu_id: t.menu_id },
            Scene::Play(p) => SceneView::Play(p@),
            Scene::Demo(d) => SceneView::Demo(d@),
        }
    }
}

impl SceneView {
    /// The invariant of a scene on the stack: the scene is in order, and its
    /// board has the levels of the game.
    pub open spec fn wf(self, levels: Seq<LevelView>) -> bool {
        match self {
            SceneView::Title { menu_id } => menu_id < MENU_ITEMS,
            SceneView::Play(p) => p.wf() && p.field.levels == levels,
            SceneView::Demo(d) => d.wf() && d.field.levels == levels,
        }
    }

    /// The scene that a request puts on the stack. A replay of the demo
    /// level plays the bytes kept for it; a replay of another level plays
    /// the bytes at hand.
    pub open spec fn opened(
        kind: SceneKind,
        levels: Seq<LevelView>,
        scores: ScoresView,
        help: Option<Seq<u8>>,
        demo: Seq<u8>,
    ) -> SceneView {
        match kind {
            SceneKind::Play => SceneView::Play(PlayView::begun(levels, scores)),
            SceneKind::Demo { level } => SceneView::Demo(
                DemoView::begun(
                    levels,
                    scores,
                    level as int,
                    if level == DEMO_LEVEL {
                        Some(demo)
                    } else {
                        help
                    },
                ),
            ),
        }
    }
}

/// The stack of scenes, the levels and the scores.
pub struct SceneManager {
    /// The scenes; the last one is the active one.
    pub scenes: Vec<Scene>,
    pub loader: Loader,
    pub scores: Scores,
}

/// The manager as a plain value.
pub struct ManagerView {
    pub scenes: Seq<SceneView>,
    pub levels: Seq<LevelView>,
    pub scores: ScoresView,
}

impl View for SceneManager {
    type V = ManagerView;

    open spec fn view(&self) -> ManagerView {
        ManagerView {
            scenes: Seq::new(self.scenes@.len(), |i: int| self.scenes@[i]@),
            levels: self.loader@,
            scores: self.scores@,
        }
    }
}

/// What an update of the manager asks of the program.
pub struct Frame {
    /// No scene is left: the program ends.
    pub quit: bool,
    /// A recording to be stored, with the level that it belongs to.
    pub saved: Option<(usize, Vec<u8>)>,
    /// The scores are to be stored.
    pub persist: bool,
}

/// What an update makes of the manager.
pub struct ManagerEnd {
    pub manager: ManagerView,
    pub quit: bool,
    /// The player asked for the recording to be stored, and there is one.
    pub saving: bool,
    /// The level and the moves that are stored, if any are.
    pub stored: (usize, Seq<Move>),
    pub persist: bool,
}

impl ManagerView {
    /// The invariant of the manager: the levels are well formed, and every
    /// scene on the stack is in order.
    pub open spec fn wf(self) -> bool {
        &&& all_valid(self.levels)
        &&& forall|i: int| 0 <= i < self.scenes.len() ==> (#[trigger] self.scenes[i]).wf(self.levels)
    }

    /// What an update asks of those who call it, by the active scene and
    /// by what it will do. The menu: where it begins a game or the demo,
    /// that the level exists. A game or a replay: what the scene asks.
    pub open spec fn ready(self, keys: Keys, help: Option<Seq<u8>>) -> bool {
        if self.scenes.len() == 0 {
            true
        } else {
            match self.scenes.last() {
                SceneView::Title { menu_id } => match asked(menu_id, keys) {
                    Transition::Push(SceneKind::Play) => self.scores.curr_level
                        < self.levels.len(),
                    Transition::Push(SceneKind::Demo { level }) => level < self.levels.len(),
                    _ => true,
                },
                SceneView::Play(p) => p.ready(keys, help, self.scores),
                SceneView::Demo(d) => d.ready(),
            }
        }
    }

    /// Whether the update enters a win in the scores, so that the day is
    /// needed.
    pub open spec fn enters_win(self, keys: Keys) -> bool {
        self.scenes.len() > 0 && match self.scenes.last() {
            SceneView::Play(p) => p.enters_win(keys),
            _ => false,
        }
    }

    /// The manager after the active scene made its request: the scene asked
    /// for is put on top, or the active scene is taken off.
    pub open spec fn applied(self, t: Transition, help: Option<Seq<u8>>, demo: Seq<u8>) -> ManagerView {
        match t {
            Transition::Stay => self,
            Transition::Push(kind) => ManagerView {
                scenes: self.scenes.push(
                    SceneView::opened(kind, self.levels, self.scores, help, demo),
                ),
                ..self
            },
            Transition::Pop => ManagerView { scenes: self.scenes.drop_last(), ..self },
        }
    }

    /// What one update makes of the manager, on day `today`. With no scene
    /// left the program is to end. Else the active scene has its update, and
    /// its request is applied.
    pub open spec fn stepped(
        self,
        keys: Keys,
        help: Option<Seq<u8>>,
        demo: Seq<u8>,
        today: i32,
    ) -> ManagerEnd {
        if self.scenes.len() == 0 {
            ManagerEnd {
                manager: self,
                quit: true,
                saving: false,
                stored: (0, Seq::empty()),
                persist: false,
            }
        } else {
            let below = self.scenes.drop_last();
            match self.scenes.last() {
                SceneView::Title { menu_id } => {
                    let scores = ScoresView {
                        curr_level: level_chosen(menu_id, keys, self.scores),
                        ..self.scores
                    };
                    ManagerEnd {
                        manager: ManagerView {
                            scenes: below.push(
                                SceneView::Title { menu_id: selected(menu_id, keys) },
                            ),
                            scores,
                            ..self
                        }.applied(asked(menu_id, keys), help, demo),
                        quit: false,
                        saving: false,
                        stored: (0, Seq::empty()),
                        persist: false,
                    }
                },
                SceneView::Play(p) => {
                    let end = p.stepped(keys, help, self.scores, today);
                    ManagerEnd {
                        manager: ManagerView {
                            scenes: below.push(SceneView::Play(end.scene)),
                            scores: end.scores,
                            ..self
                        }.applied(end.transition, help, demo),
                        quit: false,
                        saving: end.saving,
                        stored: (p.field.level, end.stored),
                        persist: end.persist,
                    }
                },
                SceneView::Demo(d) => {
                    let end = d.stepped(keys);
                    ManagerEnd {
                        manager: ManagerView {
                            scenes: below.push(SceneView::Demo(end.0)),
                            ..self
                        }.applied(end.1, help, demo),
                        quit: false,
                        saving: false,
                        stored: (0, Seq::empty()),
                        persist: false,
                    }
                },
            }
        }
    }
}

impl SceneManager {
    /// Creates the manager with the main menu as its only scene.
    pub fn new(loader: Loader, scores: Scores) -> (m: SceneManager)
        requires
            loader.wf(),
        ensures
            m@ == (ManagerView {
                scenes: seq![SceneView::Title { menu_id: 0 }],
                levels: loader@,
                scores: scores@,
            }),
            m@.wf(),
    {
        let mut scenes: Vec<Scene> = Vec::new();
        scenes.push(Scene::Title(TitleScene::new()));
        let m = SceneManager { scenes, loader, scores };
        assert(m@.scenes =~= seq![SceneView::Title { menu_id: 0 }]);
        m
    }

    /// The active scene, if there is one.
    pub fn active(&self) -> (s: Option<&Scene>)
        ensures
            match s {
                Some(scene) => self@.scenes.len() > 0 && scene@ == self@.scenes.last(),
                None => self@.scenes.len() == 0,
            },
    {
        let n: usize = self.scenes.len();
        if n == 0 {
            None
        } else {
            Some(&self.scenes[n - 1])
        }
    }

    /// Whether the manager can be updated with these keys, and with these
    /// bytes as the stored replay of the level that is played.
    pub fn is_ready(&self, keys: &Keys, help: Option<&[u8]>) -> (r: bool)
        requires
            self@.wf(),
        ensures
            r == self@.ready(*keys, help_view(help)),
    {
        let n: usize = self.scenes.len();
        if n == 0 {
            return true;
        }
        let count: usize = self.loader.level_count();
        assert(self@.scenes[n - 1] == self.scenes@[n - 1]@);
        assert(self@.scenes[n - 1].wf(self@.levels));
        match &self.scenes[n - 1] {
            Scene::Title(title) => match title.asks(keys) {
                Transition::Push(SceneKind::Play) => self.scores.curr_level() < count,
                Transition::Push(SceneKind::Demo { level }) => level < count,
                _ => true,
            },
            Scene::Play(play) => play.is_ready(keys, help, &self.scores),
            Scene::Demo(show) => show.is_ready_now(),
        }
    }

    /// Applies the request that the active scene made.
    fn apply(&mut self, t: Transition, help: Option<&[u8]>, demo: &[u8])
        requires
            old(self)@.wf(),
            old(self)@.scenes.len() > 0,
            t == Transition::Push(SceneKind::Play) ==> old(self)@.scores.curr_level < old(self)@.levels.len(),
            t matches Transition::Push(SceneKind::Demo { level }) ==> level < old(self)@.levels.len(),
        ensures
            final(self)@ == old(self)@.applied(t, help_view(help), demo@),
            final(self)@.wf(),
    {
        match t {
            Transition::Stay => {},
            Transition::Push(kind) => {
                let scene: Scene = match kind {
                    SceneKind::Play => Scene::Play(
                        PlayScene::new(self.loader.duplicate(), &self.scores),
                    ),
                    SceneKind::Demo { level } => {
                        let bytes: Option<&[u8]> = if level == DEMO_LEVEL {
                            Some(demo)
                        } else {
                            help
                        };
                        Scene::Demo(
                            DemoScene::new(self.loader.duplicate(), &self.scores, level, bytes),
                        )
                    },
                };
                self.scenes.push(scene);
                assert(self@.scenes =~= old(self)@.scenes.push(scene@));
            },
            Transition::Pop => {
                self.scenes.pop();
                assert(self@.scenes =~= old(self)@.scenes.drop_last());
            },
        }
    }

    /// Puts a scene on top of the stack.
    fn put(&mut self, scene: Scene)
        requires
            old(self)@.wf(),
            scene@.wf(old(self)@.levels),
        ensures
            final(self)@ == (ManagerView {
                scenes: old(self)@.scenes.push(scene@),
                ..old(self)@
            }),
            final(self)@.wf(),
    {
        self.scenes.push(scene);
        assert(self@.scenes =~= old(self)@.scenes.push(scene@));
        assert forall|i: int| 0 <= i < self@.scenes.len() implies (#[trigger] self@.scenes[i]).wf(
            self@.levels,
        ) by {
            if i < old(self)@.scenes.len() {
                assert(self@.scenes[i] == old(self)@.scenes[i]);
            }
        }
    }

    /// Updates the main menu, which was taken off the stack, and puts it
    /// back.
    fn step_title(&mut self, title: TitleScene, keys: &Keys, help: Option<&[u8]>, demo: &[u8])
        requires
            old(self)@.wf(),
            title.wf(),
            asked(title.menu_id, *keys) == Transition::Push(SceneKind::Play) ==> old(self)@.scores.curr_level < old(self)@.levels.len(),
            asked(title.menu_id, *keys) matches Transition::Push(SceneKind::Demo { level })
                ==> level < old(self)@.levels.len(),
        ensures
            final(self)@ == (ManagerView {
                scenes: old(self)@.scenes.push(
                    SceneView::Title { menu_id: selected(title.menu_id, *keys) },
                ),
                scores: ScoresView {
                    curr_level: level_chosen(title.menu_id, *keys, old(self)@.scores),
                    ..old(self)@.scores
                },
                ..old(self)@
            }).applied(asked(title.menu_id, *keys), help_view(help), demo@),
            final(self)@.wf(),
    {
        let mut title = title;
        let t: Transition = title.update(keys, &mut self.scores);
        self.put(Scene::Title(title));
        self.apply(t, help, demo);
    }

    /// Updates a game, which was taken off the stack, and puts it back. The
    /// day is the one given, or the clock's where none is given and a win is
    /// entered. Returns the day that was used with what the update asks of
    /// the program.
    fn step_play(
        &mut self,
        play: PlayScene,
        keys: &Keys,
        help: Option<&[u8]>,
        demo: &[u8],
        day: Option<i32>,
    ) -> (r: (Frame, i32))
        requires
            old(self)@.wf(),
            play@.wf(),
            play@.field.levels == old(self)@.levels,
            play@.ready(*keys, help_view(help), old(self)@.scores),
        ensures
            day matches Some(d) ==> r.1 == d,
            day is None && play@.enters_win(*keys) ==> r.1 > 0,
            ({
                let end = play@.stepped(*keys, help_view(help), old(self)@.scores, r.1);
                &&& final(self)@ == (ManagerView {
                    scenes: old(self)@.scenes.push(SceneView::Play(end.scene)),
                    scores: end.scores,
                    ..old(self)@
                }).applied(end.transition, help_view(help), demo@)
                &&& !r.0.quit
                &&& r.0.persist == end.persist
                &&& (r.0.saved is Some <==> end.saving)
                &&& r.0.saved matches Some(file) ==> file.0 == play@.field.level && file.1@
                    == replay_bytes(REPLAY_VERSION, end.stored)
            }),
            final(self)@.wf(),
    {
        let ghost before = play@;
        let mut play = play;
        let (step, used) = play.step(keys, help, &mut self.scores, day);
        assert(play@.field.levels == self@.levels) by {
            lemma_play_keeps_levels(old(self)@.scores, before, *keys, help_view(help), used);
        }
        self.put(Scene::Play(play));
        self.apply(step.transition, help, demo);
        let level: usize = step.level;
        let saved: Option<(usize, Vec<u8>)> = match step.saved {
            Some(bytes) => Some((level, bytes)),
            None => None,
        };
        (Frame { quit: false, saved, persist: step.persist }, used)
    }

    /// Updates a replay, which was taken off the stack, and puts it back.
    fn step_demo(&mut self, show: DemoScene, keys: &Keys, help: Option<&[u8]>, demo: &[u8])
        requires
            old(self)@.wf(),
            show@.wf(),
            show@.field.levels == old(self)@.levels,
            show@.ready(),
        ensures
            final(self)@ == (ManagerView {
                scenes: old(self)@.scenes.push(SceneView::Demo(show@.stepped(*keys).0)),
                ..old(self)@
            }).applied(show@.stepped(*keys).1, help_view(help), demo@),
            final(self)@.wf(),
    {
        let ghost before = show@;
        let mut show = show;
        let t: Transition = show.update(keys);
        assert(show@.field.levels == self@.levels) by {
            lemma_demo_keeps_levels(before, *keys);
        }
        self.put(Scene::Demo(show));
        self.apply(t, help, demo);
    }

    /// Updates the active scene by one tick and applies its request. The
    /// day is the one given, or the clock's where none is given and a win is
    /// entered. Returns the day that was used with what the update asks of
    /// the program.
    fn run(&mut self, keys: &Keys, help: Option<&[u8]>, demo: &[u8], day: Option<i32>) -> (r: (
        Frame,
        i32,
    ))
        requires
            old(self)@.wf(),
            old(self)@.ready(*keys, help_view(help)),
        ensures
            day matches Some(d) ==> r.1 == d,
            day is None && old(self)@.enters_win(*keys) ==> r.1 > 0,
            ({
                let end = old(self)@.stepped(*keys, help_view(help), demo@, r.1);
                &&& final(self)@ == end.manager
                &&& r.0.quit == end.quit
                &&& r.0.persist == end.persist
                &&& (r.0.saved is Some <==> end.saving)
                &&& r.0.saved matches Some(file) ==> file.0 == end.stored.0 && file.1@
                    == replay_bytes(REPLAY_VERSION, end.stored.1)
            }),
            final(self)@.wf(),
    {
        let fixed: i32 = match day {
            Some(d) => d,
            None => 0,
        };
        let scene: Scene = match self.scenes.pop() {
            None => {
                assert(self@.scenes =~= old(self)@.scenes);
                return (Frame { quit: true, saved: None, persist: false }, fixed);
            },
            Some(scene) => scene,
        };
        let ghost below = old(self)@.scenes.drop_last();
        assert(self@.scenes =~= below);
        assert(scene@ == old(self)@.scenes.last());
        assert(old(self)@.scenes[old(self)@.scenes.len() - 1].wf(old(self)@.levels));
        assert forall|i: int| 0 <= i < self@.scenes.len() implies (#[trigger] self@.scenes[i]).wf(
            self@.levels,
        ) by {
            assert(self@.scenes[i] == old(self)@.scenes[i]);
        }
        match scene {
            Scene::Title(title) => {
                self.step_title(title, keys, help, demo);
                (Frame { quit: false, saved: None, persist: false }, fixed)
            },
            Scene::Play(play) => self.step_play(play, keys, help, demo, day),
            Scene::Demo(show) => {
                self.step_demo(show, keys, help, demo);
                (Frame { quit: false, saved: None, persist: false }, fixed)
            },
        }
    }

    /// Updates the active scene by one tick, on day `today`, and applies its
    /// request. `help` holds the stored replay of the level that is played,
    /// if there is one; `demo` holds the replay of the demo level.
    pub fn update_on(&mut self, keys: &Keys, help: Option<&[u8]>, demo: &[u8], today: i32) -> (frame:
        Frame)
        requires
            old(self)@.wf(),
            old(self)@.ready(*keys, help_view(help)),
        ensures
            ({
                let end = old(self)@.stepped(*keys, help_view(help), demo@, today);
                &&& final(self)@ == end.manager
                &&& frame.quit == end.quit
                &&& frame.persist == end.persist
                &&& (frame.saved is Some <==> end.saving)
                &&& frame.saved matches Some(file) ==> file.0 == end.stored.0
                    && file.1@ == replay_bytes(REPLAY_VERSION, end.stored.1)
            }),
            final(self)@.wf(),
    {
        self.run(keys, help, demo, Some(today)).0
    }

    /// Updates the active scene by one tick and applies its request. The
    /// clock is read only where a win is entered, and gives the day of it.
    pub fn update(&mut self, keys: &Keys, help: Option<&[u8]>, demo: &[u8]) -> (frame: Frame)
        requires
            old(self)@.wf(),
            old(self)@.ready(*keys, help_view(help)),
        ensures
            exists|day: i32|
                {
                    let end = #[trigger] old(self)@.stepped(*keys, help_view(help), demo@, day);
                    &&& old(self)@.enters_win(*keys) ==> day > 0
                    &&& final(self)@ == end.manager
                    &&& frame.quit == end.quit
                    &&& frame.persist == end.persist
                    &&& (frame.saved is Some <==> end.saving)
                    &&& frame.saved matches Some(file) ==> file.0 == end.stored.0
                        && file.1@ == replay_bytes(REPLAY_VERSION, end.stored.1)
                },
            final(self)@.wf(),
    {
        let (frame, day) = self.run(keys, help, demo, None);
        assert({
            let end = old(self)@.stepped(*keys, help_view(help), demo@, day);
            &&& old(self)@.enters_win(*keys) ==> day > 0
            &&& self@ == end.manager
            &&& frame.quit == end.quit
            &&& frame.persist == end.persist
            &&& (frame.saved is Some <==> end.saving)
            &&& frame.saved matches Some(file) ==> file.0 == end.stored.0 && file.1@
                == replay_bytes(REPLAY_VERSION, end.stored.1)
        });
        frame
    }
}

/// An update of a game leaves the levels of its board alone.
proof fn lemma_play_keeps_levels(
    scores: ScoresView,
    p: PlayView,
    keys: Keys,
    help: Option<Seq<u8>>,
    today: i32,
)
    ensures
        p.stepped(keys, help, scores, today).scene.field.levels == p.field.levels,
{
    let now = PlayView { tick: (p.tick + 1) as u64, ..p };
    let heard = now.heard(keys, help, scores);
    crate::rules::lemma_tick_frame(heard.scene.field);
}

/// An update of a replay leaves the levels of its board alone.
proof fn lemma_demo_keeps_levels(d: DemoView, keys: Keys)
    ensures
        d.stepped(keys).0.field.levels == d.field.levels,
{
    let start = DemoView { tick: (d.tick + 1) as u64, ..d };
    lemma_drained_keeps_levels(start);
    crate::rules::lemma_tick_frame(start.drained().closed().field);
}

/// Playing the moves that are due leaves the levels of the board alone.
proof fn lemma_drained_keeps_levels(d: DemoView)
    ensures
        d.drained().field.levels == d.field.levels,
    decreases d.moves_left(),
{
    match d.replay.next_action(d.tick) {
        Some(act) => {
            lemma_drained_keeps_levels(
                DemoView {
                    field: crate::demo::acted(d.field, act),
                    replay: d.replay.stepped(d.tick),
                    ..d
                },
            );
        },
        None => {},
    }
}

} // verus!

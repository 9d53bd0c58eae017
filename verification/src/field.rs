//! The board of one level: the collision mask, the bricks on it, the player's
//! brick, and the rules that resolve a throw.

use vstd::prelude::*;
use vstd::string::StringExecFns;
use crate::brick::{b2s, lemma_away_from_zero, on_cell, Brick, Point};
use crate::consts::{
    BRICK_DEF_SPEED, BRICK_FALL_SPEED, BRICK_SIZE, CELLS, FLOOR_ROW, HEIGHT, HOME_COL, INFO_WIDTH,
    GRID_LIMIT, MAX_SIZE, UNITS_PER_PIXEL, WIDTH,
};
use crate::loader::{lemma_valid_level, Level, Loader};
use crate::rules::{
    brick_ok, cascade, cell_at, cell_index, distinct_cells, first_open_from, in_corner,
    all_ok, in_reading_order, is_border, landing, last_at, last_wall_upto, lemma_annihilation,
    lemma_first_open, lemma_landing, lemma_last_wall, lemma_row_max_x, lemma_swept,
    lemma_tick_frame, level_mask, mask_ok, puzzle_bricks, row_bricks, row_max_x, row_occupied,
    scan_width, stacked, swept, FieldView,
};
use crate::scenes::Transition;
use crate::scores::{pick_day, Score, Scores};

verus! {

/// What the board currently allows.
#[derive(Debug, Copy, Clone, PartialEq, Eq, Structural)]
pub enum GameState {
    /// Keep playing.
    Unfinished,
    /// Level cleared.
    Winner,
    /// No moves available.
    Looser,
    /// Last level cleared.
    Completed,
}

impl GameState {
    /// The words that a state is shown with.
    pub open spec fn caption(self) -> Seq<char> {
        match self {
            GameState::Unfinished => "playing..."@,
            GameState::Winner => "level solved"@,
            GameState::Looser => "level failed"@,
            GameState::Completed => "game completed"@,
        }
    }

    /// Returns the words that this state is shown with.
    pub fn describe(&self) -> (s: String)
        ensures
            s@ == self.caption(),
    {
        match self {
            GameState::Unfinished => String::from_str("playing..."),
            GameState::Winner => String::from_str("level solved"),
            GameState::Looser => String::from_str("level failed"),
            GameState::Completed => String::from_str("game completed"),
        }
    }
}

/// Kind of a brick: six kinds that match their own kind, a joker that matches
/// any, and `Empty` for an empty cell.
#[derive(Debug, Copy, Clone, PartialEq, Eq, Structural)]
pub enum BrickKind {
    /// No brick: an empty cell.
    Empty,
    K1,
    K2,
    K3,
    K4,
    K5,
    K6,
    Joker,
}

impl BrickKind {
    /// The quoted letter that a kind is shown with.
    pub open spec fn caption(self) -> Seq<char> {
        match self {
            BrickKind::K1 => "'S'"@,
            BrickKind::K2 => "'X'"@,
            BrickKind::K3 => "'O'"@,
            BrickKind::K4 => "'T'"@,
            BrickKind::K5 => "'Z'"@,
            BrickKind::K6 => "'W'"@,
            BrickKind::Joker => "'?'"@,
            BrickKind::Empty => "???"@,
        }
    }

    /// Returns the quoted letter that this kind is shown with.
    pub fn describe(&self) -> (s: String)
        ensures
            s@ == self.caption(),
    {
        match self {
            BrickKind::K1 => String::from_str("'S'"),
            BrickKind::K2 => String::from_str("'X'"),
            BrickKind::K3 => String::from_str("'O'"),
            BrickKind::K4 => String::from_str("'T'"),
            BrickKind::K5 => String::from_str("'Z'"),
            BrickKind::K6 => String::from_str("'W'"),
            BrickKind::Joker => String::from_str("'?'"),
            BrickKind::Empty => String::from_str("???"),
        }
    }

    /// Row of the sprite sheet that holds this kind's picture.
    pub open spec fn sprite_row(self) -> int {
        match self {
            BrickKind::Empty => 0,
            BrickKind::K1 => 1,
            BrickKind::K2 => 2,
            BrickKind::K3 => 3,
            BrickKind::K4 => 4,
            BrickKind::K5 => 5,
            BrickKind::K6 => 6,
            BrickKind::Joker => 7,
        }
    }

    /// Whether a thrown brick of kind `self` annihilates a brick of kind `hit`.
    pub open spec fn absorbs(self, hit: BrickKind) -> bool {
        hit == self || self == BrickKind::Joker
    }

    /// Returns whether a thrown brick of this kind annihilates one of kind `hit`.
    pub fn matches_kind(&self, hit: BrickKind) -> (r: bool)
        ensures
            r == self.absorbs(hit),
    {
        hit == *self || *self == BrickKind::Joker
    }
}


/// Converts a cell to its index in the mask, which is kept row by row.
pub fn pos2puz(x: usize, y: usize) -> (i: usize)
    requires
        x < WIDTH,
        y < HEIGHT,
    ensures
        i == cell_index(x as int, y as int),
        i < CELLS,
{
    x + y * WIDTH
}

/// The board of one level.
pub struct GameField {
    /// Collision mask, row by row: 0 for an open cell, 1 for a wall.
    pub puzzle: Vec<u32>,
    /// The bricks on the board.
    pub bricks: Vec<Brick>,
    /// Number of the level.
    pub level: usize,
    pub state: GameState,
    /// The player's brick.
    pub player: Brick,
    /// Row that the player's brick was thrown from.
    pub player_row: usize,
    /// The player's brick is flying back after a throw.
    pub going_back: bool,
    /// Number of throws so far.
    pub score: u32,
    /// What is known of the level's scores.
    pub lvl_score: Score,
    /// The board shows a replay.
    pub demoing: bool,
    /// Where the arrow stands that points at the first brick a throw would
    /// meet.
    pub arrow_pos: Point,
    /// The arrow points down.
    pub arrow_down: bool,
    /// Kind of the first brick that a throw would meet.
    pub first_brick: BrickKind,
    /// All levels of the game.
    pub loader: Loader,
}

impl View for GameField {
    type V = FieldView;

    open spec fn view(&self) -> FieldView {
        FieldView {
            mask: self.puzzle@,
            bricks: self.bricks@,
            level: self.level,
            state: self.state,
            player: self.player,
            player_row: self.player_row,
            going_back: self.going_back,
            score: self.score,
            lvl_score: self.lvl_score,
            demoing: self.demoing,
            arrow_pos: self.arrow_pos,
            arrow_down: self.arrow_down,
            first_brick: self.first_brick,
            levels: self.loader@,
        }
    }
}

impl GameField {
    /// Creates a board for the level that `scores` has as the current one.
    /// The board is empty, without even its frame, until a level is loaded.
    pub fn new(loader: Loader, scores: &Scores, demo: bool) -> (f: GameField)
        ensures
            f@ == FieldView::fresh(loader@, scores@, demo),
    {
        let lvl_curr: usize = scores.curr_level();
        let lvl_info: Score = scores.level_info(lvl_curr);
        let mut puzzle: Vec<u32> = Vec::new();
        let mut i: usize = 0;
        while i < CELLS
            invariant
                i <= CELLS,
                puzzle@.len() == i,
                forall|j: int| 0 <= j < i ==> puzzle@[j] == 0,
            decreases CELLS - i,
        {
            puzzle.push(0);
            i = i + 1;
        }
        let f = GameField {
            bricks: Vec::new(),
            puzzle,
            level: lvl_curr,
            state: GameState::Unfinished,
            player: Brick::new(HOME_COL, FLOOR_ROW, BrickKind::Joker),
            player_row: FLOOR_ROW,
            going_back: false,
            lvl_score: lvl_info,
            score: 0,
            demoing: demo,
            arrow_down: false,
            arrow_pos: Point { x: 0, y: 0 },
            first_brick: BrickKind::Empty,
            loader,
        };
        assert(f@.mask =~= Seq::new(CELLS as nat, |i: int| 0u32));
        assert(f@.bricks =~= Seq::empty());
        f
    }

    /// Whether the player's input is listened to: not while the player's
    /// brick flies back, nor when the game is over.
    pub fn is_interactive(&self) -> (r: bool)
        ensures
            r == self@.interactive(),
    {
        !self.going_back && self.state == GameState::Unfinished
    }

    /// Finds the last brick whose cell is (`x`, `y`).
    pub fn brick_at(&self, x: usize, y: usize) -> (r: Option<usize>)
        ensures
            match r {
                Some(i) => last_at(self.bricks@, x as int, y as int) == Some(i as int) && i
                    < self.bricks@.len(),
                None => last_at(self.bricks@, x as int, y as int) is None,
            },
    {
        let mut found: Option<usize> = None;
        let mut i: usize = 0;
        assert(self.bricks@.take(0) =~= Seq::empty());
        while i < self.bricks.len()
            invariant
                i <= self.bricks@.len(),
                match found {
                    Some(k) => last_at(self.bricks@.take(i as int), x as int, y as int) == Some(
                        k as int,
                    ) && k < i,
                    None => last_at(self.bricks@.take(i as int), x as int, y as int) is None,
                },
            decreases self.bricks@.len() - i,
        {
            assert(self.bricks@.take(i + 1).drop_last() =~= self.bricks@.take(i as int));
            assert(self.bricks@.take(i + 1).last() == self.bricks@[i as int]);
            if self.bricks[i].x == x && self.bricks[i].y == y {
                found = Some(i);
            }
            i = i + 1;
        }
        assert(self.bricks@.take(i as int) =~= self.bricks@);
        found
    }

    /// Whether some brick has its cell in row `row`.
    fn row_has_brick(&self, row: usize) -> (r: bool)
        ensures
            r == row_occupied(self.bricks@, row as int),
    {
        let mut i: usize = 0;
        while i < self.bricks.len()
            invariant
                i <= self.bricks@.len(),
                forall|j: int| 0 <= j < i ==> (#[trigger] self.bricks@[j]).y != row,
            decreases self.bricks@.len() - i,
        {
            if self.bricks[i].y == row {
                return true;
            }
            i = i + 1;
        }
        false
    }

    /// The largest column of a brick in row `row`; 0 if the row has none.
    fn max_x_in_row(&self, row: usize) -> (m: usize)
        ensures
            m == row_max_x(self.bricks@, row as int),
    {
        let mut m: usize = 0;
        let mut i: usize = 0;
        assert(self.bricks@.take(0) =~= Seq::empty());
        while i < self.bricks.len()
            invariant
                i <= self.bricks@.len(),
                m == row_max_x(self.bricks@.take(i as int), row as int),
            decreases self.bricks@.len() - i,
        {
            assert(self.bricks@.take(i + 1).drop_last() =~= self.bricks@.take(i as int));
            assert(self.bricks@.take(i + 1).last() == self.bricks@[i as int]);
            if self.bricks[i].y == row && self.bricks[i].x > m {
                m = self.bricks[i].x;
            }
            i = i + 1;
        }
        assert(self.bricks@.take(i as int) =~= self.bricks@);
        m
    }

    /// Where a brick lands that drops down column `col` from row `row`.
    fn landing_in(&self, col: usize, row: usize) -> (r: (usize, BrickKind))
        ensures
            (r.0 as int, r.1) == landing(self.bricks@, col as int, row as int),
    {
        let mut by: usize = HEIGHT - 1;
        let mut first: BrickKind = BrickKind::Empty;
        let mut i: usize = 0;
        assert(self.bricks@.take(0) =~= Seq::empty());
        while i < self.bricks.len()
            invariant
                i <= self.bricks@.len(),
                (by as int, first) == landing(self.bricks@.take(i as int), col as int, row as int),
            decreases self.bricks@.len() - i,
        {
            assert(self.bricks@.take(i + 1).drop_last() =~= self.bricks@.take(i as int));
            assert(self.bricks@.take(i + 1).last() == self.bricks@[i as int]);
            let b: Brick = self.bricks[i];
            if b.x == col && b.y >= row && b.y < by {
                by = b.y;
                first = b.kind;
            }
            i = i + 1;
        }
        assert(self.bricks@.take(i as int) =~= self.bricks@);
        (by, first)
    }

    /// The first open cell of row `row` among the columns that a throw looks
    /// at; 0 if there is none.
    fn first_open(&self, row: usize) -> (n: usize)
        requires
            self.puzzle@.len() == CELLS,
            row < HEIGHT,
        ensures
            n == first_open_from(self.puzzle@, row as int, 0),
    {
        let mut i: usize = 0;
        while i < MAX_SIZE + 4 && self.puzzle[pos2puz(i, row)] != 0
            invariant
                self.puzzle@.len() == CELLS,
                row < HEIGHT,
                i <= MAX_SIZE + 4,
                first_open_from(self.puzzle@, row as int, 0) == first_open_from(
                    self.puzzle@,
                    row as int,
                    i as int,
                ),
            decreases MAX_SIZE + 4 - i,
        {
            i = i + 1;
        }
        if i < MAX_SIZE + 4 {
            i
        } else {
            0
        }
    }

    /// The last wall cell of row `row` among the columns that a throw looks
    /// at; 0 if there is none.
    fn last_wall(&self, row: usize) -> (n: usize)
        requires
            self.puzzle@.len() == CELLS,
            row < HEIGHT,
        ensures
            n == last_wall_upto(self.puzzle@, row as int, scan_width()),
            n < MAX_SIZE + 4,
    {
        let mut i: usize = MAX_SIZE + 4;
        proof {
            lemma_last_wall(self.puzzle@, row as int, scan_width());
        }
        while i > 0 && self.puzzle[pos2puz(i - 1, row)] == 0
            invariant
                self.puzzle@.len() == CELLS,
                row < HEIGHT,
                i <= MAX_SIZE + 4,
                last_wall_upto(self.puzzle@, row as int, scan_width()) == last_wall_upto(
                    self.puzzle@,
                    row as int,
                    i as int,
                ),
            decreases i,
        {
            i = i - 1;
        }
        if i > 0 {
            i - 1
        } else {
            0
        }
    }

    /// Looks ahead along row `row`: whether a thrown brick would drop onto its
    /// target, the cell in front of the target, and the kind of the first
    /// brick in the path.
    pub fn target(&self, row: usize) -> (r: (bool, usize, usize, BrickKind))
        requires
            self@.wf(),
            1 <= row <= FLOOR_ROW,
        ensures
            r.0 == self@.target(row as int).down,
            r.1 == self@.target(row as int).x,
            r.2 == self@.target(row as int).y,
            r.3 == self@.target(row as int).kind,
            1 <= r.1 <= MAX_SIZE + 1,
            row - 1 <= r.2 <= FLOOR_ROW,
    {
        let low: bool = row >= HEIGHT - 1 - MAX_SIZE;
        let down: bool = if !low {
            true
        } else {
            !self.row_has_brick(row)
        };
        if down {
            let bx: usize = if low {
                1
            } else {
                proof {
                    lemma_first_open(self.puzzle@, row as int, 0);
                }
                self.first_open(row)
            };
            let (by, first) = self.landing_in(bx, row);
            proof {
                lemma_landing(self.bricks@, bx as int, row as int);
            }
            (true, bx, by - 1, first)
        } else {
            let m: usize = self.max_x_in_row(row);
            proof {
                lemma_row_max_x(self.bricks@, row as int);
            }
            let bx: usize = m + 1;
            let first: BrickKind = match self.brick_at(m, row) {
                Some(i) => self.bricks[i].kind,
                None => BrickKind::Empty,
            };
            (false, bx, row, first)
        }
    }

    /// Sets the aiming arrow for the row of the player's brick.
    fn recalc_arrow(&mut self)
        requires
            old(self)@.wf(),
            1 <= old(self).player.y <= FLOOR_ROW,
        ensures
            final(self)@ == old(self)@.aimed(),
            final(self)@.wf(),
    {
        let (is_down, x, y, brick) = self.target(self.player.y);
        if is_down {
            self.arrow_pos = b2s(x, y);
        } else {
            self.arrow_pos = b2s(x + 1, y);
        }
        self.first_brick = brick;
        self.arrow_down = is_down;
    }

    /// Whether the player may throw: its brick rests, the game is going on,
    /// and the first brick in the path has the player's kind, or any kind if
    /// the player holds a joker.
    pub fn can_throw(&self) -> (r: bool)
        requires
            self@.wf(),
        ensures
            r == self@.can_throw(),
    {
        if self.player.is_moving() || self.state != GameState::Unfinished {
            return false;
        }
        let (_down, _x, _y, first) = self.target(self.player.y);
        first != BrickKind::Empty && (self.player.kind == BrickKind::Joker || self.player.kind
            == first)
    }

    /// Works out the state of the board. An empty board is won, and the game
    /// completed if the level is the last one. With bricks left, the game
    /// goes on while the player holds a joker or a throw from some row would
    /// meet a brick of the player's kind first; else it is lost.
    pub fn calc_state(&self) -> (s: GameState)
        requires
            self@.wf(),
        ensures
            s == self@.calc_state(),
    {
        if self.bricks.len() == 0 {
            let count: usize = self.loader.level_count();
            if count == 0 || self.level >= count - 1 {
                return GameState::Completed;
            }
            return GameState::Winner;
        }
        if self.player.kind == BrickKind::Joker {
            return GameState::Unfinished;
        }
        let mut y: usize = 1;
        while y < HEIGHT - 1
            invariant
                self@.wf(),
                self.bricks@.len() != 0,
                1 <= y <= HEIGHT - 1,
                forall|k: int| 1 <= k < y ==> (#[trigger] self@.target(k)).kind != self.player.kind,
            decreases HEIGHT - 1 - y,
        {
            let (_d, _x, _y, kind) = self.target(y);
            if kind == self.player.kind {
                assert(self@.has_move());
                return GameState::Unfinished;
            }
            y = y + 1;
        }
        GameState::Looser
    }
}


/// Tells every brick above row `row` in column `col` to fall by one cell.
fn cascade_fall(bricks: &mut Vec<Brick>, col: usize, row: usize)
    requires
        forall|i: int|
            0 <= i < old(bricks)@.len() ==> (#[trigger] old(bricks)@[i]).wf() && old(bricks)@[i].rest_row() < GRID_LIMIT,
    ensures
        final(bricks)@ == cascade(old(bricks)@, col as int, row as int),
{
    let ghost before = bricks@;
    let n: usize = bricks.len();
    let mut j: usize = 0;
    while j < n
        invariant
            j <= n,
            n == before.len(),
            bricks@.len() == n,
            forall|i: int|
                0 <= i < n ==> (#[trigger] before[i]).wf() && before[i].rest_row() < GRID_LIMIT,
            forall|i: int| 0 <= i < j ==> bricks@[i] == cascade(before, col as int, row as int)[i],
            forall|i: int| j <= i < n ==> bricks@[i] == before[i],
        decreases n - j,
    {
        let mut b: Brick = bricks[j];
        assert(before[j as int].wf());
        if b.x == col && b.y < row {
            b.fall(BRICK_FALL_SPEED);
            bricks.set(j, b);
        }
        j = j + 1;
    }
    assert(bricks@ =~= cascade(before, col as int, row as int));
}

/// Advances every brick by one tick.
fn advance_all(bricks: &mut Vec<Brick>)
    requires
        forall|i: int| 0 <= i < old(bricks)@.len() ==> (#[trigger] old(bricks)@[i]).wf(),
    ensures
        final(bricks)@ == swept(old(bricks)@),
{
    let ghost before = bricks@;
    let n: usize = bricks.len();
    let mut j: usize = 0;
    while j < n
        invariant
            j <= n,
            n == before.len(),
            bricks@.len() == n,
            forall|i: int| 0 <= i < n ==> (#[trigger] before[i]).wf(),
            forall|i: int| 0 <= i < j ==> bricks@[i] == before[i].updated(),
            forall|i: int| j <= i < n ==> bricks@[i] == before[i],
        decreases n - j,
    {
        let mut b: Brick = bricks[j];
        assert(before[j as int].wf());
        b.update();
        bricks.set(j, b);
        j = j + 1;
    }
    assert(bricks@ =~= swept(before));
}

impl GameField {
    /// Throws the player's brick, if a throw is allowed: the throw counts,
    /// the row becomes the home row, and the brick sets out to the left, for
    /// the cell at the right of the rightmost brick of the row, or of the
    /// wall if the row has no brick.
    pub fn throw_brick(&mut self)
        requires
            old(self)@.wf(),
            old(self)@.can_throw() ==> old(self).score < u32::MAX,
        ensures
            final(self)@ == old(self)@.thrown(),
            !old(self)@.can_throw() ==> final(self)@ == old(self)@,
            old(self)@.can_throw() ==> final(self).score == old(self).score + 1 && final(self).player_row == old(self).player.y && final(self).player.moving() && final(self)@.bricks == old(self)@.bricks,
            final(self)@.wf(),
    {
        if !self.can_throw() {
            return ;
        }
        self.score = self.score + 1;
        self.player_row = self.player.y;
        let mut x: usize = self.max_x_in_row(self.player.y);
        proof {
            lemma_row_max_x(self.bricks@, self.player.y as int);
        }
        if x == 0 {
            x = self.last_wall(self.player.y);
        }
        x = x + 1;
        let limit: Point = b2s(x, self.player.y);
        self.player.start_moving(Point { x: -BRICK_DEF_SPEED, y: 0 }, limit);
    }

    /// Moves the player's resting brick one row down, unless it stands on the
    /// floor, and sets the arrow.
    pub fn player_down(&mut self)
        requires
            old(self)@.wf(),
        ensures
            final(self)@ == old(self)@.moved_down(),
            final(self)@.wf(),
    {
        if self.player.is_moving() {
            return ;
        }
        if self.player.y < HEIGHT - 2 {
            self.player.y = self.player.y + 1;
            self.player.scr_pos = b2s(self.player.x, self.player.y);
        }
        self.recalc_arrow();
    }

    /// Moves the player's resting brick one row up, unless it stands below the
    /// top border, and sets the arrow.
    pub fn player_up(&mut self)
        requires
            old(self)@.wf(),
        ensures
            final(self)@ == old(self)@.moved_up(),
            final(self)@.wf(),
    {
        if self.player.is_moving() {
            return ;
        }
        if self.player.y > 1 {
            self.player.y = self.player.y - 1;
            self.player.scr_pos = b2s(self.player.x, self.player.y);
        }
        self.recalc_arrow();
    }

    /// Sends the player's resting brick back to its home: to the home column
    /// at full speed, and to the home row at the vertical speed that takes as
    /// many ticks.
    fn go_back(&mut self)
        requires
            old(self).player.wf(),
            !old(self).player.moving(),
            1 <= old(self).player.x < HOME_COL,
            1 <= old(self).player.y <= FLOOR_ROW,
            1 <= old(self).player_row <= FLOOR_ROW,
        ensures
            final(self)@ == old(self)@.sent_home(),
            final(self).player.wf(),
            final(self).player.moving(),
            on_cell(final(self).player.limit, HOME_COL as int, final(self).player_row as int),
    {
        self.going_back = true;
        let xlimit: i64 = HOME_COL as i64 * BRICK_SIZE;
        let ylimit: i64 = self.player_row as i64 * BRICK_SIZE;
        let xn: i64 = (xlimit - self.player.scr_pos.x) / BRICK_DEF_SPEED;
        let total: i64 = ylimit - self.player.scr_pos.y;
        let dy: i64 = if total >= 0 {
            (total + xn - 1) / xn
        } else {
            -((-total + xn - 1) / xn)
        };
        proof {
            lemma_away_from_zero(total as int, xn as int);
        }
        self.player.start_moving(
            Point { x: BRICK_DEF_SPEED, y: dy },
            Point { x: xlimit, y: ylimit },
        );
    }

    /// Removes brick `i` from the board and tells every brick above its cell
    /// in its column to fall by one cell.
    fn annihilate(&mut self, i: usize)
        requires
            i < old(self).bricks@.len(),
            old(self)@.bricks_ok(),
        ensures
            final(self)@ == old(self)@.annihilated(i as int),
            final(self)@.bricks_ok(),
    {
        proof {
            lemma_annihilation(self@, i as int);
        }
        let gone: Brick = self.bricks.remove(i);
        assert forall|k: int| 0 <= k < self.bricks@.len() implies (#[trigger] self.bricks@[k]).wf()
            && self.bricks@[k].rest_row() < GRID_LIMIT by {
            let j = if k < i {
                k
            } else {
                k + 1
            };
            assert(self.bricks@[k] == old(self).bricks@[j]);
            assert(brick_ok(old(self).bricks@[j]));
        }
        cascade_fall(&mut self.bricks, gone.x, gone.y);
    }

    /// Sends the player's brick on after it looked at what is in its way:
    /// left while there is no wall at its left; else down, unless it stands
    /// on the floor, from where it goes home.
    fn advance(&mut self, wall: bool)
        requires
            old(self)@.halted(),
            wall == old(self)@.wall(old(self).player.x - 1, old(self).player.y as int),
        ensures
            final(self)@ == old(self)@.advanced(wall),
            final(self)@.wf(),
    {
        if !wall {
            assert(cell_at(self.puzzle@, self.player.x - 1, self.player.y as int) == 0);
            assert(self.player.x - 1 >= 1);
            let limit: Point = b2s(self.player.x - 1, self.player.y);
            self.player.start_moving(Point { x: -BRICK_DEF_SPEED, y: 0 }, limit);
        } else if self.player.y == FLOOR_ROW {
            self.player.stop();
            self.go_back();
        } else {
            self.player.fall(BRICK_DEF_SPEED);
        }
    }

    /// Resolves the throw after the player's brick came to a stop at the end
    /// of a fall.
    fn land(&mut self)
        requires
            old(self)@.halted(),
        ensures
            final(self)@ == old(self)@.landed(),
            final(self)@.wf(),
    {
        if self.player.y == FLOOR_ROW {
            self.player.stop();
            self.go_back();
            return ;
        }
        match self.brick_at(self.player.x, self.player.y + 1) {
            None => {
                self.player.fall(BRICK_DEF_SPEED);
            },
            Some(i) => {
                let hit: BrickKind = self.bricks[i].kind;
                let absorbed: bool = self.player.kind.matches_kind(hit);
                self.player.kind = hit;
                if absorbed {
                    self.annihilate(i);
                    self.player.stop();
                    self.go_back();
                } else {
                    self.player.fall(BRICK_DEF_SPEED);
                }
            },
        }
    }

    /// Resolves the throw after the player's brick came to a stop at the end
    /// of a slide.
    fn slide(&mut self)
        requires
            old(self)@.halted(),
        ensures
            final(self)@ == old(self)@.slid(),
            final(self)@.wf(),
    {
        let x: usize = self.player.x;
        let y: usize = self.player.y;
        let wall: bool = self.puzzle[pos2puz(x - 1, y)] != 0;
        let found: Option<usize> = if wall {
            self.brick_at(x, y + 1)
        } else {
            self.brick_at(x - 1, y)
        };
        match found {
            None => {
                self.advance(wall);
            },
            Some(i) => {
                let hit: BrickKind = self.bricks[i].kind;
                let absorbed: bool = self.player.kind.matches_kind(hit);
                self.player.kind = hit;
                if absorbed {
                    self.annihilate(i);
                }
                self.advance(wall);
            },
        }
    }

    /// Advances the player's brick by one tick, and acts when it has just
    /// stopped: at home the arrow and the state are set anew; on its way out
    /// the throw is resolved for the cell it stopped in.
    pub fn update_player(&mut self)
        requires
            old(self)@.wf(),
        ensures
            final(self)@ == old(self)@.player_stepped(),
            final(self)@.wf(),
    {
        let moved: bool = self.player.is_moving();
        let moved_down: bool = self.player.is_moving_down();
        self.player.update();
        let stopped: bool = moved && !self.player.is_moving();
        if !moved || !stopped {
            return ;
        }
        if self.going_back {
            self.going_back = false;
            self.recalc_arrow();
            self.state = self.calc_state();
            return ;
        }
        if moved_down {
            self.land();
        } else {
            self.slide();
        }
    }

    /// Advances the board by one tick: every brick of the board, then the
    /// player's brick.
    pub fn tick(&mut self)
        requires
            old(self)@.wf(),
        ensures
            final(self)@ == old(self)@.ticked(),
            final(self)@.wf(),
    {
        proof {
            lemma_swept(self.bricks@);
            assert forall|i: int| 0 <= i < self.bricks@.len() implies (#[trigger] self.bricks@[i]).wf() by {
                assert(brick_ok(self.bricks@[i]));
            }
        }
        advance_all(&mut self.bricks);
        self.update_player();
    }
}


/// Whether cell (`x`, `y`) belongs to the corner of a level.
fn corner_cell(corner: &Vec<u8>, x: usize, y: usize) -> (r: bool)
    ensures
        r == in_corner(corner@, x as int, y as int),
{
    if corner.len() == 0 {
        1 <= y && y <= MAX_SIZE && 1 <= x && x <= MAX_SIZE - y
    } else {
        1 <= y && y <= corner.len() && 1 <= x && x <= corner[y - 1] as usize
    }
}

/// Builds the mask of a level: the frame and the corner are walls.
fn build_mask(corner: &Vec<u8>) -> (mask: Vec<u32>)
    ensures
        mask@ == level_mask(corner@),
        corner@.len() <= MAX_SIZE - 1 && (forall|i: int|
            0 <= i < corner@.len() ==> corner@[i] <= MAX_SIZE) ==> mask_ok(mask@),
{
    let mut mask: Vec<u32> = Vec::new();
    let mut y: usize = 0;
    while y < HEIGHT
        invariant
            y <= HEIGHT,
            mask@.len() == y * WIDTH,
            forall|i: int| 0 <= i < mask@.len() ==> mask@[i] == level_mask(corner@)[i],
        decreases HEIGHT - y,
    {
        let mut x: usize = 0;
        while x < WIDTH
            invariant
                y < HEIGHT,
                x <= WIDTH,
                mask@.len() == y * WIDTH + x,
                forall|i: int| 0 <= i < mask@.len() ==> mask@[i] == level_mask(corner@)[i],
            decreases WIDTH - x,
        {
            let border: bool = y == 0 || y == HEIGHT - 1 || x == 0 || x >= WIDTH - INFO_WIDTH;
            let wall: bool = border || corner_cell(corner, x, y);
            let ghost i = mask@.len() as int;
            assert(i % (WIDTH as int) == x && i / (WIDTH as int) == y);
            mask.push(if wall {
                1
            } else {
                0
            });
            x = x + 1;
        }
        y = y + 1;
    }
    assert(mask@ =~= level_mask(corner@));
    proof {
        if corner@.len() <= MAX_SIZE - 1 && (forall|i: int|
            0 <= i < corner@.len() ==> corner@[i] <= MAX_SIZE) {
            assert forall|x: int, y: int| 0 <= x < WIDTH && 0 <= y < HEIGHT implies {
                let v = #[trigger] cell_at(mask@, x, y);
                &&& v == 0 || v == 1
                &&& is_border(x, y) ==> v == 1
                &&& !is_border(x, y) && (x > MAX_SIZE || y >= MAX_SIZE) ==> v == 0
            } by {
                let i = cell_index(x, y);
                assert(i % (WIDTH as int) == x && i / (WIDTH as int) == y);
            }
        }
    }
    mask
}

/// Builds the bricks of a level: one for each cell of the puzzle that is not
/// empty, row after row, with the last row on the floor.
fn build_bricks(level: &Level) -> (bricks: Vec<Brick>)
    requires
        level@.valid(),
    ensures
        bricks@ == puzzle_bricks(level@.puzzle, level@.puzzle.len() as int),
        all_ok(bricks@),
        forall|i: int|
            0 <= i < bricks@.len() ==> !(#[trigger] bricks@[i]).moving() && HEIGHT - 1 - MAX_SIZE
                <= bricks@[i].y <= FLOOR_ROW,
        in_reading_order(bricks@),
        distinct_cells(bricks@),
{
    proof {
        lemma_valid_level(level@);
        reveal(stacked);
    }
    let mut bricks: Vec<Brick> = Vec::new();
    let cnt: usize = level.puzzle.len();
    let mut yidx: usize = 0;
    while yidx < cnt
        invariant
            cnt == level.puzzle@.len(),
            cnt == level@.puzzle.len(),
            2 <= cnt <= MAX_SIZE,
            forall|i: int| 0 <= i < cnt ==> (#[trigger] level@.puzzle[i]).len() <= MAX_SIZE,
            yidx <= cnt,
            bricks@ == puzzle_bricks(level@.puzzle, yidx as int),
            bricks@.len() <= MAX_SIZE * yidx,
            forall|i: int|
                0 <= i < bricks@.len() ==> brick_ok(#[trigger] bricks@[i]) && !bricks@[i].moving()
                    && HEIGHT - 1 - MAX_SIZE <= bricks@[i].y < HEIGHT - cnt + yidx - 1,
            in_reading_order(bricks@),
        decreases cnt - yidx,
    {
        let y: usize = HEIGHT - cnt + yidx - 1;
        let width: usize = level.puzzle[yidx].len();
        let ghost row = level@.puzzle[yidx as int];
        let ghost done = bricks@;
        assert(row == level.puzzle@[yidx as int]@);
        let mut xidx: usize = 0;
        while xidx < width
            invariant
                yidx < cnt,
                cnt == level.puzzle@.len(),
                2 <= cnt <= MAX_SIZE,
                y == HEIGHT - cnt + yidx - 1,
                row == level.puzzle@[yidx as int]@,
                width == row.len(),
                width <= MAX_SIZE,
                xidx <= width,
                bricks@ == done + row_bricks(row, y as int, xidx as int),
                done.len() <= MAX_SIZE * yidx,
                row_bricks(row, y as int, xidx as int).len() <= xidx,
                forall|i: int|
                    0 <= i < bricks@.len() ==> brick_ok(#[trigger] bricks@[i])
                        && !bricks@[i].moving() && HEIGHT - 1 - MAX_SIZE <= bricks@[i].y <= y
                        && (bricks@[i].y == y ==> bricks@[i].x <= xidx),
                in_reading_order(bricks@),
            decreases width - xidx,
        {
            let kind: BrickKind = level.puzzle[yidx][xidx];
            if kind != BrickKind::Empty {
                let b: Brick = Brick::new(xidx + 1, y, kind);
                bricks.push(b);
                assert(bricks@ =~= done + row_bricks(row, y as int, xidx + 1));
            }
            xidx = xidx + 1;
        }
        yidx = yidx + 1;
    }
    bricks
}

impl GameField {
    /// Sets up level `lvl_no`, whatever the board was doing: the mask gets
    /// its frame and the level's corner, or a diagonal one where the level
    /// has none; the level's bricks are put on the floor; the player's brick
    /// rests at home with the level's first kind; the arrow is set. The
    /// scores shown are those that `scores` has for the board's level.
    pub fn load(&mut self, scores: &Scores, lvl_no: usize)
        requires
            old(self).loader.wf(),
            lvl_no < old(self).loader@.len(),
        ensures
            final(self)@ == old(self)@.loaded(
                lvl_no as int,
                scores@.level_info(old(self).level as int),
            ),
            final(self)@.wf(),
            final(self).state == GameState::Unfinished,
            !final(self).going_back,
            final(self).player == Brick::at(
                HOME_COL,
                FLOOR_ROW,
                old(self).loader@[lvl_no as int].first,
            ),
            mask_ok(final(self)@.mask),
            distinct_cells(final(self)@.bricks),
            forall|i: int|
                0 <= i < final(self)@.bricks.len() ==> !(#[trigger] final(self)@.bricks[i]).moving()
                    && HEIGHT - 1 - MAX_SIZE <= final(self)@.bricks[i].y <= FLOOR_ROW,
    {
        let lvl: Level = self.loader.level(lvl_no);
        proof {
            lemma_valid_level(lvl@);
        }
        self.state = GameState::Unfinished;
        self.going_back = false;
        self.puzzle = build_mask(&lvl.corner);
        self.player = Brick::new(HOME_COL, FLOOR_ROW, lvl.first);
        self.bricks = build_bricks(&lvl);
        self.lvl_score = scores.level_info(self.level);
        self.recalc_arrow();
    }

    /// Returns a copy of the board.
    pub fn duplicate(&self) -> (f: GameField)
        ensures
            f@ == self@,
    {
        let mut puzzle: Vec<u32> = Vec::new();
        let mut i: usize = 0;
        while i < self.puzzle.len()
            invariant
                i <= self.puzzle@.len(),
                puzzle@ == self.puzzle@.take(i as int),
            decreases self.puzzle@.len() - i,
        {
            puzzle.push(self.puzzle[i]);
            assert(self.puzzle@.take(i + 1) =~= self.puzzle@.take(i as int).push(
                self.puzzle@[i as int],
            ));
            i = i + 1;
        }
        assert(self.puzzle@.take(i as int) =~= self.puzzle@);
        let mut bricks: Vec<Brick> = Vec::new();
        let mut k: usize = 0;
        while k < self.bricks.len()
            invariant
                k <= self.bricks@.len(),
                bricks@ == self.bricks@.take(k as int),
            decreases self.bricks@.len() - k,
        {
            bricks.push(self.bricks[k]);
            assert(self.bricks@.take(k + 1) =~= self.bricks@.take(k as int).push(
                self.bricks@[k as int],
            ));
            k = k + 1;
        }
        assert(self.bricks@.take(k as int) =~= self.bricks@);
        GameField {
            puzzle,
            bricks,
            level: self.level,
            state: self.state,
            player: self.player,
            player_row: self.player_row,
            going_back: self.going_back,
            score: self.score,
            lvl_score: self.lvl_score,
            demoing: self.demoing,
            arrow_pos: self.arrow_pos,
            arrow_down: self.arrow_down,
            first_brick: self.first_brick,
            loader: self.loader.duplicate(),
        }
    }

    /// Whether what is due can be settled with these scores. Nothing is
    /// asked where nothing is entered.
    pub fn can_settle(&self, confirm: bool, scores: &Scores) -> (r: bool)
        ensures
            r == self@.can_settle(confirm, scores@),
    {
        if self.wins(confirm) {
            let count: usize = self.loader.level_count();
            scores.can_record(self.level) && (self.state != GameState::Winner || (self.level
                < count && self.level + 1 < count))
        } else if self.fails(confirm) {
            scores.can_fail(self.level) && self.level < self.loader.level_count()
        } else {
            true
        }
    }

    /// Whether the board can be updated with these scores: whether what is
    /// due after the tick can be settled. Without a confirmation nothing is
    /// entered, and nothing is asked; with one, the tick is made on a copy
    /// of the board to see what is due.
    pub fn is_ready(&self, confirm: bool, scores: &Scores) -> (r: bool)
        requires
            self@.wf(),
        ensures
            r == self@.ready(confirm, scores@),
    {
        if !confirm {
            return true;
        }
        let mut probe: GameField = self.duplicate();
        probe.tick();
        probe.can_settle(confirm, scores)
    }

    /// Whether a win will be entered in the scores when what is due is
    /// settled.
    pub fn wins(&self, confirm: bool) -> (r: bool)
        ensures
            r == self@.wins(confirm),
    {
        confirm && !self.going_back && !self.demoing && (self.state == GameState::Completed
            || self.state == GameState::Winner)
    }

    /// Whether a failure will be entered in the scores when what is due is
    /// settled.
    pub fn fails(&self, confirm: bool) -> (r: bool)
        ensures
            r == self@.fails(confirm),
    {
        confirm && !self.going_back && self.state == GameState::Looser
    }

    /// Whether something will be entered in the scores when what is due is
    /// settled.
    pub fn records(&self, confirm: bool) -> (r: bool)
        ensures
            r == self@.records(confirm),
    {
        confirm && !self.going_back && self.state != GameState::Unfinished && (self.state
            == GameState::Looser || !self.demoing)
    }

    /// Settles what is due after a tick, on day `today`: nothing while the
    /// player's brick flies back, the game goes on, or the player does not
    /// confirm. A completed game ends the scene, and its win is entered
    /// unless the board shows a replay. A lost level is entered as a failure
    /// and set up anew. A won level, unless the board shows a replay, is
    /// entered as a win, and the next level is set up.
    pub fn settle(&mut self, confirm: bool, scores: &mut Scores, today: i32) -> (t: Transition)
        requires
            old(self)@.wf(),
            old(self)@.can_settle(confirm, old(scores)@),
        ensures
            final(self)@ == old(self)@.settled(confirm, old(scores)@, today).field,
            final(scores)@ == old(self)@.settled(confirm, old(scores)@, today).scores,
            t == old(self)@.settled(confirm, old(scores)@, today).transition,
            final(self)@.wf(),
    {
        if self.going_back {
            return Transition::Stay;
        }
        if self.state == GameState::Unfinished {
            return Transition::Stay;
        }
        if confirm {
            match self.state {
                GameState::Completed => {
                    if !self.demoing {
                        scores.record_win(self.level, self.score, today);
                    }
                    return Transition::Pop;
                },
                GameState::Looser => {
                    scores.set_fail(self.level);
                    self.load(scores, self.level);
                    let ghost loaded = self@;
                    self.score = 0;
                    assert(self@.bricks_ok()) by {
                        assert(loaded.bricks_ok());
                        assert(self@.bricks == loaded.bricks);
                    }
                },
                GameState::Winner => {
                    if !self.demoing {
                        scores.record_win(self.level, self.score, today);
                        self.level = self.level + 1;
                        self.score = 0;
                        self.load(scores, self.level);
                    }
                },
                GameState::Unfinished => {},
            }
        }
        Transition::Stay
    }

    /// Advances the board by one tick and settles what is due, on day
    /// `today`.
    pub fn update_on(&mut self, confirm: bool, scores: &mut Scores, today: i32) -> (t: Transition)
        requires
            old(self)@.wf(),
            old(self)@.ready(confirm, old(scores)@),
        ensures
            final(self)@ == old(self)@.updated(confirm, old(scores)@, today).field,
            final(scores)@ == old(self)@.updated(confirm, old(scores)@, today).scores,
            t == old(self)@.updated(confirm, old(scores)@, today).transition,
            final(self)@.wf(),
    {
        proof {
            lemma_tick_frame(self@);
        }
        self.tick();
        self.settle(confirm, scores, today)
    }

    /// Advances the board by one tick and settles what is due. `confirm`
    /// says whether the player pressed a key that confirms. The clock is
    /// read only where a win is entered, and gives the day of it.
    pub fn update(&mut self, confirm: bool, scores: &mut Scores) -> (t: Transition)
        requires
            old(self)@.wf(),
            old(self)@.ready(confirm, old(scores)@),
        ensures
            exists|day: i32|
                {
                    let end = #[trigger] old(self)@.updated(confirm, old(scores)@, day);
                    &&& old(self)@.ticked().wins(confirm) ==> day > 0
                    &&& final(self)@ == end.field
                    &&& final(scores)@ == end.scores
                    &&& t == end.transition
                },
            final(self)@.wf(),
    {
        self.tick();
        let day: i32 = pick_day(None, self.wins(confirm));
        let t = self.settle(confirm, scores, day);
        assert({
            let end = old(self)@.updated(confirm, old(scores)@, day);
            &&& old(self)@.ticked().wins(confirm) ==> day > 0
            &&& self@ == end.field
            &&& scores@ == end.scores
            &&& t == end.transition
        });
        t
    }
}

/// Number of levels that have a record.
pub const RECORD_LEN: usize = 57;

/// The fewest throws that each level is known to be solved with, by level
/// number.
pub const RECORDS: [u32; 57] = [
    4, 4, 5, 4, 7, 4, 5, 6, 6, 9, 10, 11, 6, 6, 8, 8, 8, 8, 6, 7, 7, 8, 9, 8, 7, 9, 8, 7, 10, 12,
    12, 10, 12, 11, 11, 10, 10, 11, 11, 10, 12, 12, 12, 14, 11, 10, 11, 15, 15, 17, 12, 15, 12, 12,
    14, 16, 12,
];

/// How a hiscore compares with the record of its level.
#[derive(Debug, Copy, Clone, PartialEq, Eq, Structural)]
pub enum Rating {
    /// Fewer throws than the record.
    Better,
    /// As many throws as the record, or a level without a record.
    Even,
    /// More throws than the record.
    Worse,
}

/// The record that a hiscore is held against: that of the level, or the
/// hiscore itself where the level has no record.
pub open spec fn record_for(level: usize, hiscore: u32) -> u32 {
    if level >= RECORD_LEN || level == 0 {
        hiscore
    } else {
        RECORDS[level as int]
    }
}

/// How a hiscore compares with the record of its level.
pub open spec fn rating_of(level: usize, hiscore: u32) -> Rating {
    let record = record_for(level, hiscore);
    if hiscore < record {
        Rating::Better
    } else if hiscore > record {
        Rating::Worse
    } else {
        Rating::Even
    }
}

/// Compares a hiscore with the record of its level.
pub fn rate(level: usize, hiscore: u32) -> (r: Rating)
    ensures
        r == rating_of(level, hiscore),
{
    let record: u32 = if level >= RECORD_LEN || level == 0 {
        hiscore
    } else {
        RECORDS[level]
    };
    if hiscore < record {
        Rating::Better
    } else if hiscore > record {
        Rating::Worse
    } else {
        Rating::Even
    }
}

/// How far down the sprite sheet the picture of a kind stands, in pixels: a
/// brick's height for each row.
pub fn brick2shift(k: BrickKind) -> (r: u32)
    ensures
        r == k.sprite_row() * (BRICK_SIZE / UNITS_PER_PIXEL),
{
    match k {
        BrickKind::K1 => 48,
        BrickKind::K2 => 48 * 2,
        BrickKind::K3 => 48 * 3,
        BrickKind::K4 => 48 * 4,
        BrickKind::K5 => 48 * 5,
        BrickKind::K6 => 48 * 6,
        BrickKind::Joker => 48 * 7,
        BrickKind::Empty => 0,
    }
}

impl GameField {
    /// Whether the aiming arrow points at a brick that the player's brick
    /// would annihilate, going by the aim that was taken last.
    pub fn aim_matches(&self) -> (r: bool)
        ensures
            r == (self.first_brick != BrickKind::Empty && (self.first_brick == self.player.kind
                || self.player.kind == BrickKind::Joker)),
    {
        self.first_brick != BrickKind::Empty && (self.first_brick == self.player.kind
            || self.player.kind == BrickKind::Joker)
    }
}

} // verus!

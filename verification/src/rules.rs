//! The rules of the board as mathematics: what the board is, what a throw
//! aims at, and what every step makes of the board.

use vstd::prelude::*;
use crate::brick::{
    after_ticks, aligned, away_from_zero, lemma_straight_flight, on_cell, Brick, Point,
};
use crate::consts::{
    BRICK_DEF_SPEED, BRICK_FALL_SPEED, BRICK_SIZE, CELLS, FLOOR_ROW, HEIGHT, HOME_COL, INFO_WIDTH,
    MAX_SIZE, WIDTH,
};
use crate::field::{BrickKind, GameState};
use crate::loader::{all_valid, LevelView};
use crate::scenes::Transition;
use crate::scores::{Score, ScoresView};

verus! {

/// Index of cell (`x`, `y`) in the mask.
pub open spec fn cell_index(x: int, y: int) -> int {
    x + y * WIDTH
}

/// What the mask holds in cell (`x`, `y`): 0 for an open cell, 1 for a wall.
pub open spec fn cell_at(mask: Seq<u32>, x: int, y: int) -> u32 {
    mask[cell_index(x, y)]
}

/// Whether cell (`x`, `y`) belongs to the frame: the top and bottom rows, the
/// left column, and the panel at the right.
pub open spec fn is_border(x: int, y: int) -> bool {
    y == 0 || y == HEIGHT - 1 || x == 0 || x >= WIDTH - INFO_WIDTH
}

/// Whether cell (`x`, `y`) belongs to the corner. Without a pattern the
/// corner is a diagonal staircase; with one, row `y` has as many wall cells as
/// line `y - 1` of the pattern says.
pub open spec fn in_corner(corner: Seq<u8>, x: int, y: int) -> bool {
    if corner.len() == 0 {
        1 <= y <= MAX_SIZE && 1 <= x <= MAX_SIZE - y
    } else {
        1 <= y <= corner.len() && 1 <= x <= corner[y - 1]
    }
}

/// The mask of a level with the given corner pattern.
pub open spec fn level_mask(corner: Seq<u8>) -> Seq<u32> {
    Seq::new(
        CELLS as nat,
        |i: int|
            if is_border(i % (WIDTH as int), i / (WIDTH as int)) || in_corner(
                corner,
                i % (WIDTH as int),
                i / (WIDTH as int),
            ) {
                1u32
            } else {
                0u32
            },
    )
}

/// What every mask satisfies: the frame is wall; inside the frame only the
/// corner region, seven columns by six rows at the top left, may hold walls;
/// and the walls of a row have no gap: left of a wall inside the frame
/// stands a wall.
pub open spec fn mask_ok(mask: Seq<u32>) -> bool {
    &&& mask.len() == CELLS
    &&& forall|x: int, y: int|
        0 <= x < WIDTH && 0 <= y < HEIGHT ==> {
            let v = #[trigger] cell_at(mask, x, y);
            &&& v == 0 || v == 1
            &&& is_border(x, y) ==> v == 1
            &&& !is_border(x, y) && (x > MAX_SIZE || y >= MAX_SIZE) ==> v == 0
            &&& !is_border(x, y) && v == 1 ==> cell_at(mask, x - 1, y) == 1
        }
}

/// Whether some brick has its cell in row `row`.
pub open spec fn row_occupied(bricks: Seq<Brick>, row: int) -> bool {
    exists|i: int| 0 <= i < bricks.len() && (#[trigger] bricks[i]).y == row
}

/// The largest column of a brick in row `row`; 0 if the row has none.
pub open spec fn row_max_x(bricks: Seq<Brick>, row: int) -> int
    decreases bricks.len(),
{
    if bricks.len() == 0 {
        0
    } else {
        let m = row_max_x(bricks.drop_last(), row);
        let b = bricks.last();
        if b.y == row && b.x > m {
            b.x as int
        } else {
            m
        }
    }
}

/// The index of the last brick whose cell is (`x`, `y`).
pub open spec fn last_at(bricks: Seq<Brick>, x: int, y: int) -> Option<int>
    decreases bricks.len(),
{
    if bricks.len() == 0 {
        None
    } else if bricks.last().x == x && bricks.last().y == y {
        Some(bricks.len() - 1)
    } else {
        last_at(bricks.drop_last(), x, y)
    }
}

/// The kind of the brick in cell (`x`, `y`); `Empty` if there is none.
pub open spec fn kind_at(bricks: Seq<Brick>, x: int, y: int) -> BrickKind {
    match last_at(bricks, x, y) {
        Some(i) => bricks[i].kind,
        None => BrickKind::Empty,
    }
}

/// Where a brick lands that drops down column `col` from row `row`: the row
/// and kind of the highest brick of that column at or below `row` and above
/// the bottom border (of several in one cell, the first); the bottom border
/// and `Empty` if there is none.
pub open spec fn landing(bricks: Seq<Brick>, col: int, row: int) -> (int, BrickKind)
    decreases bricks.len(),
{
    if bricks.len() == 0 {
        (HEIGHT - 1, BrickKind::Empty)
    } else {
        let (by, kind) = landing(bricks.drop_last(), col, row);
        let b = bricks.last();
        if b.x == col && b.y >= row && b.y < by {
            (b.y as int, b.kind)
        } else {
            (by, kind)
        }
    }
}

/// Number of columns at the left of a row that a throw looks at.
pub open spec fn scan_width() -> int {
    MAX_SIZE + 4
}

/// The first open cell of row `row` at or after column `from`, among the
/// columns that a throw looks at; 0 if there is none.
pub open spec fn first_open_from(mask: Seq<u32>, row: int, from: int) -> int
    decreases scan_width() - from,
{
    if from >= scan_width() {
        0
    } else if cell_at(mask, from, row) == 0 {
        from
    } else {
        first_open_from(mask, row, from + 1)
    }
}

/// The last wall cell of row `row` before column `upto`; 0 if there is none.
pub open spec fn last_wall_upto(mask: Seq<u32>, row: int, upto: int) -> int
    decreases upto,
{
    if upto <= 0 {
        0
    } else if cell_at(mask, upto - 1, row) != 0 {
        upto - 1
    } else {
        last_wall_upto(mask, row, upto - 1)
    }
}

/// Whether no two bricks have the same cell.
pub open spec fn distinct_cells(bricks: Seq<Brick>) -> bool {
    forall|i: int, j: int|
        0 <= i < j < bricks.len() ==> !(bricks[i].x == bricks[j].x && bricks[i].y == bricks[j].y)
}

/// Whether the bricks stand in reading order: row after row, and from left
/// to right within a row.
pub open spec fn in_reading_order(bricks: Seq<Brick>) -> bool {
    forall|i: int, j: int|
        0 <= i < j < bricks.len() ==> bricks[i].y < bricks[j].y || (bricks[i].y == bricks[j].y
            && bricks[i].x < bricks[j].x)
}

/// What holds of every brick of the board: it is well formed, has a kind,
/// stands in one of the puzzle's columns and in a row that a puzzle can
/// reach, and moves, if at all, straight down its column at the speed of a
/// falling brick, between its cell and its limit.
pub open spec fn brick_ok(b: Brick) -> bool {
    &&& b.wf()
    &&& b.kind != BrickKind::Empty
    &&& 1 <= b.x <= MAX_SIZE
    &&& HEIGHT - 1 - MAX_SIZE <= b.y <= b.rest_row()
    &&& b.scr_pos.x == b.x * BRICK_SIZE
    &&& b.moving() ==> {
        &&& b.vel.x == 0
        &&& b.vel.y == BRICK_FALL_SPEED
        &&& b.limit.x == b.x * BRICK_SIZE
        &&& b.y * BRICK_SIZE <= b.scr_pos.y < b.limit.y
    }
}

/// The way that a brick has still to fall.
pub open spec fn rest_way(b: Brick) -> int {
    if b.moving() {
        b.limit.y - b.scr_pos.y
    } else {
        0
    }
}

/// Whether the bricks of every column stand one above the other: no two of
/// a column have the same row; and of two, the upper one will rest above the
/// lower one, and has no shorter way to fall.
#[verifier::opaque]
pub open spec fn stacked(bricks: Seq<Brick>) -> bool {
    forall|i: int, j: int|
        0 <= i < bricks.len() && 0 <= j < bricks.len() && i != j && (#[trigger] bricks[i]).x == (
        #[trigger] bricks[j]).x ==> {
            &&& bricks[i].y != bricks[j].y
            &&& bricks[i].y < bricks[j].y ==> bricks[i].rest_row() < bricks[j].rest_row()
                && rest_way(bricks[i]) >= rest_way(bricks[j])
        }
}

/// Whether bricks are the bricks of a board in order: each of them is in
/// order and comes to rest on the floor or above it, and those of a column
/// stand one above the other.
pub open spec fn all_ok(bricks: Seq<Brick>) -> bool {
    &&& forall|i: int|
        0 <= i < bricks.len() ==> brick_ok(#[trigger] bricks[i]) && bricks[i].rest_row()
            <= FLOOR_ROW
    &&& stacked(bricks)
}

/// The bricks one tick later.
pub open spec fn swept(bricks: Seq<Brick>) -> Seq<Brick> {
    Seq::new(bricks.len(), |i: int| bricks[i].updated())
}

/// Every brick above row `row` in column `col` told to fall; all others as
/// they are. "Above" goes by the cell of a brick.
pub open spec fn cascade(bricks: Seq<Brick>, col: int, row: int) -> Seq<Brick> {
    Seq::new(
        bricks.len(),
        |j: int|
            if bricks[j].x == col && bricks[j].y < row {
                bricks[j].falling(BRICK_FALL_SPEED)
            } else {
                bricks[j]
            },
    )
}

/// The corner of cell (`x`, `y`) as a position.
pub open spec fn corner_of(x: int, y: int) -> Point {
    Point { x: (x * BRICK_SIZE) as i64, y: (y * BRICK_SIZE) as i64 }
}

/// The bricks of the first `upto` cells of a puzzle row that lies in board
/// row `y`: one for each cell that is not empty, in column order. Cell `c`
/// of a row stands in column `c + 1`.
pub open spec fn row_bricks(row: Seq<BrickKind>, y: int, upto: int) -> Seq<Brick>
    decreases upto,
{
    if upto <= 0 {
        Seq::empty()
    } else {
        let before = row_bricks(row, y, upto - 1);
        if row[upto - 1] != BrickKind::Empty {
            before.push(Brick::at(upto as usize, y as usize, row[upto - 1]))
        } else {
            before
        }
    }
}

/// The bricks of the first `upto` rows of a puzzle, row after row. The
/// puzzle rests on the floor: its last row lies in the floor row.
pub open spec fn puzzle_bricks(puzzle: Seq<Seq<BrickKind>>, upto: int) -> Seq<Brick>
    decreases upto,
{
    if upto <= 0 {
        Seq::empty()
    } else {
        puzzle_bricks(puzzle, upto - 1) + row_bricks(
            puzzle[upto - 1],
            HEIGHT - puzzle.len() + (upto - 1) - 1,
            puzzle[upto - 1].len() as int,
        )
    }
}

/// What a throw from a row aims at.
pub struct Aim {
    /// The thrown brick will drop onto its target; else it hits it sideways.
    pub down: bool,
    /// Column of the cell in front of the target.
    pub x: int,
    /// Row of the cell in front of the target.
    pub y: int,
    /// Kind of the first brick in the path; `Empty` if there is none.
    pub kind: BrickKind,
}

/// The board as a plain value.
pub struct FieldView {
    /// Collision mask, row by row: 0 for an open cell, 1 for a wall.
    pub mask: Seq<u32>,
    /// The bricks on the board.
    pub bricks: Seq<Brick>,
    /// Number of the level.
    pub level: usize,
    pub state: GameState,
    /// The player's brick.
    pub player: Brick,
    /// Row that the player's brick was thrown from.
    pub player_row: usize,
    /// The player's brick is on its way back after a throw.
    pub going_back: bool,
    /// Number of throws so far.
    pub score: u32,
    /// What is known of the level's scores.
    pub lvl_score: Score,
    /// The board shows a replay.
    pub demoing: bool,
    /// Where the aiming arrow stands.
    pub arrow_pos: Point,
    /// The aiming arrow points down.
    pub arrow_down: bool,
    /// Kind of the first brick that a throw would meet.
    pub first_brick: BrickKind,
    /// All levels of the game.
    pub levels: Seq<LevelView>,
}

impl FieldView {
    /// The board as it is made: for the level that the scores have as the
    /// current one, empty, without even its frame.
    pub open spec fn fresh(levels: Seq<LevelView>, scores: ScoresView, demo: bool) -> FieldView {
        FieldView {
            mask: Seq::new(CELLS as nat, |i: int| 0u32),
            bricks: Seq::empty(),
            level: scores.curr_level,
            state: GameState::Unfinished,
            player: Brick::at(HOME_COL, FLOOR_ROW, BrickKind::Joker),
            player_row: FLOOR_ROW,
            going_back: false,
            score: 0,
            lvl_score: scores.level_info(scores.curr_level as int),
            demoing: demo,
            arrow_pos: Point { x: 0, y: 0 },
            arrow_down: false,
            first_brick: BrickKind::Empty,
            levels,
        }
    }

    /// The board as a scene begins with it: made, and level `lvl` set up.
    pub open spec fn begun(levels: Seq<LevelView>, scores: ScoresView, demo: bool, lvl: int) -> FieldView {
        let made = FieldView::fresh(levels, scores, demo);
        made.loaded(lvl, scores.level_info(made.level as int))
    }

    /// Whether cell (`x`, `y`) is a wall.
    pub open spec fn wall(self, x: int, y: int) -> bool {
        cell_at(self.mask, x, y) != 0
    }

    /// The invariant of the board.
    ///
    /// The mask has its frame. Every brick of the board is in order and
    /// comes to rest on the floor or above it, and the bricks of a column
    /// stand one above the other. Every level is well formed. The player's brick rests only in
    /// its home column, between the borders, and then it is not on its way
    /// back. While it moves, its home row lies between the borders; on its
    /// way back its limit is its home; on its way out its limit is a cell
    /// left of the home column and between the borders.
    pub open spec fn wf(self) -> bool {
        &&& mask_ok(self.mask)
        &&& self.bricks_ok()
        &&& all_valid(self.levels)
        &&& self.player.wf()
        &&& if !self.player.moving() {
            &&& self.player.x == HOME_COL
            &&& 1 <= self.player.y <= FLOOR_ROW
            &&& !self.going_back
        } else {
            &&& 1 <= self.player_row <= FLOOR_ROW
            &&& if self.going_back {
                on_cell(self.player.limit, HOME_COL as int, self.player_row as int)
            } else {
                &&& BRICK_SIZE <= self.player.limit.x <= (HOME_COL - 1) * BRICK_SIZE
                &&& BRICK_SIZE <= self.player.limit.y <= FLOOR_ROW * BRICK_SIZE
            }
        }
    }

    /// Whether the bricks of the board are in order.
    pub open spec fn bricks_ok(self) -> bool {
        all_ok(self.bricks)
    }

    /// What holds at the moment the player's brick has stopped on its way
    /// out, before the throw is resolved for the cell it stopped in: the
    /// brick rests in a cell left of the home column, between the borders.
    pub open spec fn halted(self) -> bool {
        &&& mask_ok(self.mask)
        &&& self.bricks_ok()
        &&& all_valid(self.levels)
        &&& self.player.wf()
        &&& !self.player.moving()
        &&& 1 <= self.player.x < HOME_COL
        &&& 1 <= self.player.y <= FLOOR_ROW
        &&& 1 <= self.player_row <= FLOOR_ROW
        &&& !self.going_back
    }

    /// What a throw from row `row` aims at.
    ///
    /// Above the rows that a puzzle can reach, and in a row without bricks,
    /// the thrown brick drops: in the first column for a low row, else in the
    /// first open column of the row; it lands above the highest brick of that
    /// column, or on the floor. In a row with bricks it stops at the right of
    /// the rightmost one.
    pub open spec fn target(self, row: int) -> Aim {
        let low = row >= HEIGHT - 1 - MAX_SIZE;
        if !low || !row_occupied(self.bricks, row) {
            let bx = if low {
                1
            } else {
                first_open_from(self.mask, row, 0)
            };
            let (by, kind) = landing(self.bricks, bx, row);
            Aim { down: true, x: bx, y: by - 1, kind }
        } else {
            let bx = row_max_x(self.bricks, row) + 1;
            Aim { down: false, x: bx, y: row, kind: kind_at(self.bricks, bx - 1, row) }
        }
    }

    /// Whether the player may throw: its brick rests, the game is going on,
    /// and the first brick in the path has the player's kind, or any kind if
    /// the player holds a joker.
    pub open spec fn can_throw(self) -> bool {
        let first = self.target(self.player.y as int).kind;
        &&& !self.player.moving()
        &&& self.state == GameState::Unfinished
        &&& first != BrickKind::Empty
        &&& (self.player.kind == BrickKind::Joker || self.player.kind == first)
    }

    /// The column in which a brick thrown along row `row` stops: right of the
    /// rightmost brick of the row, or, if the row has none, right of the last
    /// wall cell among the columns that a throw looks at.
    pub open spec fn stop_column(self, row: int) -> int {
        let m = row_max_x(self.bricks, row);
        if m == 0 {
            last_wall_upto(self.mask, row, scan_width()) + 1
        } else {
            m + 1
        }
    }

    /// The board after the player asked for a throw. A throw that is not
    /// allowed changes nothing. Else it counts, the row becomes the home row,
    /// and the player's brick sets out to the left.
    pub open spec fn thrown(self) -> FieldView {
        if !self.can_throw() {
            self
        } else {
            let y = self.player.y;
            FieldView {
                score: (self.score + 1) as u32,
                player_row: y,
                player: self.player.launched(
                    Point { x: (-BRICK_DEF_SPEED) as i64, y: 0 },
                    corner_of(self.stop_column(y as int), y as int),
                ),
                ..self
            }
        }
    }

    /// The board with the aiming arrow set anew for the player's row.
    pub open spec fn aimed(self) -> FieldView {
        let aim = self.target(self.player.y as int);
        FieldView {
            arrow_pos: if aim.down {
                corner_of(aim.x, aim.y)
            } else {
                corner_of(aim.x + 1, aim.y)
            },
            first_brick: aim.kind,
            arrow_down: aim.down,
            ..self
        }
    }

    /// Whether a throw from some row between the borders would meet a brick
    /// of the player's kind first.
    pub open spec fn has_move(self) -> bool {
        exists|y: int| 1 <= y < HEIGHT - 1 && (#[trigger] self.target(y)).kind == self.player.kind
    }

    /// The state that the board is in. An empty board is won: the game is
    /// completed if the level is the last one. With bricks left the game goes
    /// on while the player holds a joker or some row offers a move.
    pub open spec fn calc_state(self) -> GameState {
        if self.bricks.len() == 0 {
            if self.level + 1 >= self.levels.len() {
                GameState::Completed
            } else {
                GameState::Winner
            }
        } else if self.player.kind == BrickKind::Joker || self.has_move() {
            GameState::Unfinished
        } else {
            GameState::Looser
        }
    }

    /// The board after the player asked to move one row down. Nothing
    /// happens while the brick moves; on the floor only the arrow is set.
    pub open spec fn moved_down(self) -> FieldView {
        if self.player.moving() {
            self
        } else if self.player.y < HEIGHT - 2 {
            FieldView {
                player: Brick {
                    y: (self.player.y + 1) as usize,
                    scr_pos: corner_of(self.player.x as int, self.player.y + 1),
                    ..self.player
                },
                ..self
            }.aimed()
        } else {
            self.aimed()
        }
    }

    /// The board after the player asked to move one row up.
    pub open spec fn moved_up(self) -> FieldView {
        if self.player.moving() {
            self
        } else if self.player.y > 1 {
            FieldView {
                player: Brick {
                    y: (self.player.y - 1) as usize,
                    scr_pos: corner_of(self.player.x as int, self.player.y - 1),
                    ..self.player
                },
                ..self
            }.aimed()
        } else {
            self.aimed()
        }
    }

    /// The board with level `lvl_no` set up on it, and `info` as what is
    /// known of the level's scores, whatever the board was doing: the game
    /// goes on, the mask has the level's corner, the player's brick rests at
    /// the bottom of its column with the level's first kind and is not on
    /// its way back, the bricks are the puzzle's, and the arrow is set.
    pub open spec fn loaded(self, lvl_no: int, info: Score) -> FieldView {
        let lvl = self.levels[lvl_no];
        FieldView {
            state: GameState::Unfinished,
            mask: level_mask(lvl.corner),
            player: Brick::at(HOME_COL, FLOOR_ROW, lvl.first),
            going_back: false,
            bricks: puzzle_bricks(lvl.puzzle, lvl.puzzle.len() as int),
            lvl_score: info,
            ..self
        }.aimed()
    }

    /// The board with the player holding a brick of kind `kind`.
    pub open spec fn holding(self, kind: BrickKind) -> FieldView {
        FieldView { player: Brick { kind, ..self.player }, ..self }
    }

    /// The board after brick `i` was annihilated: it is gone, and every brick
    /// above its cell in its column was told to fall.
    pub open spec fn annihilated(self, i: int) -> FieldView {
        let gone = self.bricks[i];
        FieldView {
            bricks: cascade(self.bricks.remove(i), gone.x as int, gone.y as int),
            ..self
        }
    }

    /// The board with the player's brick halted and sent home: it heads for
    /// the home column at full speed, and vertically at the speed that brings
    /// it to the home row in as many ticks: the way divided by the ticks,
    /// rounded away from zero, so that the row is reached when the column is.
    pub open spec fn homebound(self) -> FieldView {
        FieldView { player: self.player.stopped(), ..self }.sent_home()
    }

    /// The board with the player's resting brick sent home.
    pub open spec fn sent_home(self) -> FieldView {
        let p = self.player;
        let xlimit = HOME_COL * BRICK_SIZE;
        let ylimit = self.player_row * BRICK_SIZE;
        let ticks = (xlimit - p.scr_pos.x) / (BRICK_DEF_SPEED as int);
        FieldView {
            going_back: true,
            player: p.launched(
                Point { x: BRICK_DEF_SPEED, y: away_from_zero(ylimit - p.scr_pos.y, ticks) as i64 },
                Point { x: xlimit as i64, y: ylimit as i64 },
            ),
            ..self
        }
    }

    /// The board with the player's brick sent one cell further to the left.
    pub open spec fn sliding(self) -> FieldView {
        FieldView {
            player: self.player.launched(
                Point { x: (-BRICK_DEF_SPEED) as i64, y: 0 },
                corner_of(self.player.x - 1, self.player.y as int),
            ),
            ..self
        }
    }

    /// The board with the player's brick told to fall one cell.
    pub open spec fn dropping(self) -> FieldView {
        FieldView { player: self.player.falling(BRICK_DEF_SPEED), ..self }
    }

    /// How the player's brick goes on after it stopped in front of a wall or
    /// in an open row: left while there is no wall at its left; else down,
    /// unless it stands on the floor, from where it goes home.
    pub open spec fn advanced(self, wall: bool) -> FieldView {
        if !wall {
            self.sliding()
        } else if self.player.y == FLOOR_ROW {
            self.homebound()
        } else {
            self.dropping()
        }
    }

    /// The cell that the player's brick, come to a stop, looks at: the one
    /// below it after a fall or at a wall, else the one at its left.
    pub open spec fn met_cell(self, fell: bool) -> (int, int) {
        let x = self.player.x as int;
        let y = self.player.y as int;
        if fell || self.wall(x - 1, y) {
            (x, y + 1)
        } else {
            (x - 1, y)
        }
    }

    /// The board after the player's brick came to a stop at the end of a
    /// fall. On the floor it goes home. With no brick below it falls on. A
    /// brick below gives the player its kind; if the player's brick absorbs
    /// it, it is annihilated and the player's brick goes home; else the
    /// player's brick falls on.
    pub open spec fn landed(self) -> FieldView {
        let x = self.player.x as int;
        let y = self.player.y as int;
        if y == FLOOR_ROW {
            self.homebound()
        } else {
            match last_at(self.bricks, x, y + 1) {
                None => self.dropping(),
                Some(i) => {
                    let hit = self.bricks[i].kind;
                    if self.player.kind.absorbs(hit) {
                        self.holding(hit).annihilated(i).homebound()
                    } else {
                        self.holding(hit).dropping()
                    }
                },
            }
        }
    }

    /// The board after the player's brick came to a stop at the end of a
    /// slide. It looks at the cell at its left, or, if that is a wall, at the
    /// cell below. A brick there gives the player its kind, and is
    /// annihilated if the player's brick absorbs it. Then the player's brick
    /// goes on: left, or down at a wall, or home from the floor.
    pub open spec fn slid(self) -> FieldView {
        let x = self.player.x as int;
        let y = self.player.y as int;
        let wall = self.wall(x - 1, y);
        let found = if wall {
            last_at(self.bricks, x, y + 1)
        } else {
            last_at(self.bricks, x - 1, y)
        };
        match found {
            None => self.advanced(wall),
            Some(i) => {
                let hit = self.bricks[i].kind;
                if self.player.kind.absorbs(hit) {
                    self.holding(hit).annihilated(i).advanced(wall)
                } else {
                    self.holding(hit).advanced(wall)
                }
            },
        }
    }

    /// The board after one tick of the player's brick. While the brick rests
    /// or keeps moving nothing else happens. When it stops at home, the arrow
    /// and the state are set anew. When it stops on its way out, the throw is
    /// resolved for the cell it stopped in.
    pub open spec fn player_stepped(self) -> FieldView {
        let next = FieldView { player: self.player.updated(), ..self };
        if !self.player.moving() || next.player.moving() {
            next
        } else if self.going_back {
            let home = FieldView { going_back: false, ..next }.aimed();
            FieldView { state: home.calc_state(), ..home }
        } else if self.player.moving_down() {
            next.landed()
        } else {
            next.slid()
        }
    }

    /// The board after one tick: every brick of the board advances, then the
    /// player's brick does.
    pub open spec fn ticked(self) -> FieldView {
        FieldView { bricks: swept(self.bricks), ..self }.player_stepped()
    }

    /// Whether the player's input is listened to.
    pub open spec fn interactive(self) -> bool {
        !self.going_back && self.state == GameState::Unfinished
    }

    /// The board with level `level` set up anew and no throw counted.
    pub open spec fn restarted(self, level: usize, info: Score) -> FieldView {
        FieldView { level, score: 0, ..self }.loaded(level as int, info)
    }

    /// Whether a finished game is waiting for the player and the player
    /// confirms: the brick is home, the game is over, and `confirm` is given.
    pub open spec fn due(self, confirm: bool) -> bool {
        confirm && !self.going_back && self.state != GameState::Unfinished
    }

    /// Whether a win is entered in the scores when what is due is settled:
    /// the level or the game is won, and the board shows no replay.
    pub open spec fn wins(self, confirm: bool) -> bool {
        self.due(confirm) && !self.demoing && (self.state == GameState::Completed || self.state
            == GameState::Winner)
    }

    /// Whether a failure is entered in the scores when what is due is
    /// settled: the level is lost.
    pub open spec fn fails(self, confirm: bool) -> bool {
        self.due(confirm) && self.state == GameState::Looser
    }

    /// Whether something is entered in the scores when what is due is
    /// settled: a failure always, a win unless the board shows a replay.
    pub open spec fn records(self, confirm: bool) -> bool {
        self.due(confirm) && (self.state == GameState::Looser || !self.demoing)
    }

    /// What settling asks of the scores and the levels, and only where it
    /// enters something: a win can be entered for the level, and a level
    /// that is won has a successor; a failure can be entered for the level,
    /// and the level is there to be set up anew.
    pub open spec fn can_settle(self, confirm: bool, scores: ScoresView) -> bool {
        &&& self.wins(confirm) ==> scores.can_record(self.level as int)
        &&& self.wins(confirm) && self.state == GameState::Winner ==> self.level + 1
            < self.levels.len()
        &&& self.fails(confirm) ==> scores.can_fail(self.level as int) && self.level
            < self.levels.len()
    }

    /// What a board after its tick, the scores and the player's confirmation
    /// come to, on day `today`.
    ///
    /// While nothing is due, nothing more happens. A completed game ends the
    /// scene, and its win is entered unless the board shows a replay. A lost
    /// level is entered as a failure and set up anew. A won level, unless the
    /// board shows a replay, is entered as a win, and the next level is set
    /// up.
    pub open spec fn settled(self, confirm: bool, scores: ScoresView, today: i32) -> Outcome {
        let lvl = self.level as int;
        if !self.due(confirm) {
            Outcome { field: self, scores, transition: Transition::Stay }
        } else {
            match self.state {
                GameState::Completed => Outcome {
                    field: self,
                    scores: if self.demoing {
                        scores
                    } else {
                        scores.won(lvl, self.score, today)
                    },
                    transition: Transition::Pop,
                },
                GameState::Looser => {
                    let after = scores.failed(lvl);
                    Outcome {
                        field: self.restarted(self.level, after.level_info(lvl)),
                        scores: after,
                        transition: Transition::Stay,
                    }
                },
                GameState::Winner => if self.demoing {
                    Outcome { field: self, scores, transition: Transition::Stay }
                } else {
                    let after = scores.won(lvl, self.score, today);
                    Outcome {
                        field: self.restarted((lvl + 1) as usize, after.level_info(lvl + 1)),
                        scores: after,
                        transition: Transition::Stay,
                    }
                },
                GameState::Unfinished => Outcome {
                    field: self,
                    scores,
                    transition: Transition::Stay,
                },
            }
        }
    }

    /// What one update makes of the board and the scores: the board has its
    /// tick, and then what is due is settled.
    pub open spec fn updated(self, confirm: bool, scores: ScoresView, today: i32) -> Outcome {
        self.ticked().settled(confirm, scores, today)
    }

    /// What an update asks of those who call it: that what is due after the
    /// tick can be settled. It asks nothing of an update that enters nothing
    /// in the scores.
    pub open spec fn ready(self, confirm: bool, scores: ScoresView) -> bool {
        self.ticked().can_settle(confirm, scores)
    }
}

/// The board, the scores and the request that an update ends with.
pub struct Outcome {
    pub field: FieldView,
    pub scores: ScoresView,
    pub transition: Transition,
}


/// The largest column of a row is at least the column of every brick of the
/// row; it is the column of one of them, or 0.
pub proof fn lemma_row_max_x(bricks: Seq<Brick>, row: int)
    ensures
        forall|i: int|
            0 <= i < bricks.len() && (#[trigger] bricks[i]).y == row ==> bricks[i].x <= row_max_x(
                bricks,
                row,
            ),
        row_max_x(bricks, row) == 0 || exists|i: int|
            0 <= i < bricks.len() && (#[trigger] bricks[i]).y == row && bricks[i].x == row_max_x(
                bricks,
                row,
            ),
        row_max_x(bricks, row) >= 0,
    decreases bricks.len(),
{
    if bricks.len() > 0 {
        let head = bricks.drop_last();
        lemma_row_max_x(head, row);
        let m = row_max_x(head, row);
        assert forall|i: int| 0 <= i < bricks.len() && (#[trigger] bricks[i]).y == row implies bricks[i].x
            <= row_max_x(bricks, row) by {
            if i < head.len() {
                assert(head[i] == bricks[i]);
            }
        }
        if bricks.last().y == row && bricks.last().x > m {
            assert(bricks[bricks.len() - 1].y == row);
        } else if m != 0 {
            let i = choose|i: int|
                0 <= i < head.len() && (#[trigger] head[i]).y == row && head[i].x == m;
            assert(bricks[i] == head[i]);
        }
    }
}

/// A dropping brick lands at or below the row it drops from, and not below
/// the bottom border; no brick of its column stands in between, and where it
/// lands above the border, a brick of the kind found stands there.
pub proof fn lemma_landing(bricks: Seq<Brick>, col: int, row: int)
    requires
        row <= HEIGHT - 1,
    ensures
        row <= landing(bricks, col, row).0 <= HEIGHT - 1,
        forall|i: int|
            0 <= i < bricks.len() && (#[trigger] bricks[i]).x == col && bricks[i].y >= row
                ==> bricks[i].y >= landing(bricks, col, row).0,
        landing(bricks, col, row).0 < HEIGHT - 1 ==> exists|i: int|
            0 <= i < bricks.len() && (#[trigger] bricks[i]).x == col && bricks[i].y == landing(
                bricks,
                col,
                row,
            ).0 && bricks[i].kind == landing(bricks, col, row).1,
        landing(bricks, col, row).0 == HEIGHT - 1 ==> landing(bricks, col, row).1
            == BrickKind::Empty,
    decreases bricks.len(),
{
    if bricks.len() > 0 {
        let head = bricks.drop_last();
        lemma_landing(head, col, row);
        let (by, kind) = landing(head, col, row);
        let b = bricks.last();
        assert forall|i: int|
            0 <= i < bricks.len() && (#[trigger] bricks[i]).x == col && bricks[i].y >= row implies bricks[i].y
            >= landing(bricks, col, row).0 by {
            if i < head.len() {
                assert(head[i] == bricks[i]);
            }
        }
        if b.x == col && b.y >= row && b.y < by {
            assert(bricks[bricks.len() - 1] == b);
        } else if by < HEIGHT - 1 {
            let i = choose|i: int|
                0 <= i < head.len() && (#[trigger] head[i]).x == col && head[i].y == by
                    && head[i].kind == kind;
            assert(bricks[i] == head[i]);
        }
    }
}

/// In a row between the borders of a board in order, the first open cell is
/// found, and it lies inside the frame.
pub proof fn lemma_first_open(mask: Seq<u32>, row: int, from: int)
    requires
        mask_ok(mask),
        1 <= row <= FLOOR_ROW,
        0 <= from <= MAX_SIZE + 1,
    ensures
        from <= first_open_from(mask, row, from) <= MAX_SIZE + 1,
        from >= 1 ==> cell_at(mask, first_open_from(mask, row, from), row) == 0,
        from == 0 ==> first_open_from(mask, row, from) >= 1 && cell_at(
            mask,
            first_open_from(mask, row, from),
            row,
        ) == 0,
    decreases scan_width() - from,
{
    assert(cell_at(mask, MAX_SIZE + 1, row) == 0);
    assert(cell_at(mask, 0, row) == 1);
    if from < MAX_SIZE + 1 && cell_at(mask, from, row) != 0 {
        lemma_first_open(mask, row, from + 1);
    }
}

/// The last wall cell before a column lies before that column.
pub proof fn lemma_last_wall(mask: Seq<u32>, row: int, upto: int)
    requires
        upto >= 0,
    ensures
        0 <= last_wall_upto(mask, row, upto) <= upto,
        upto > 0 ==> last_wall_upto(mask, row, upto) < upto,
    decreases upto,
{
    if upto > 0 && cell_at(mask, upto - 1, row) == 0 {
        lemma_last_wall(mask, row, upto - 1);
    }
}


/// What a tick leaves alone: the level, the levels, the mask, the throws
/// counted, the scores shown, and whether the board shows a replay. The state
/// either stays or becomes what the board works out; so a board that a tick
/// makes a winner has a next level.
pub proof fn lemma_tick_frame(s: FieldView)
    ensures
        s.ticked().level == s.level,
        s.ticked().levels == s.levels,
        s.ticked().mask == s.mask,
        s.ticked().score == s.score,
        s.ticked().lvl_score == s.lvl_score,
        s.ticked().demoing == s.demoing,
        s.ticked().state == s.state || (s.ticked().state == GameState::Winner ==> s.level + 1
            < s.levels.len()),
        s.player_stepped().level == s.level,
        s.player_stepped().levels == s.levels,
        s.player_stepped().mask == s.mask,
        s.player_stepped().score == s.score,
        s.player_stepped().lvl_score == s.lvl_score,
        s.player_stepped().demoing == s.demoing,
        s.player_stepped().state == s.state || (s.player_stepped().state == GameState::Winner
            ==> s.level + 1 < s.levels.len()),
        !s.going_back ==> s.ticked().state == s.state && s.player_stepped().state == s.state,
{
}


/// On a board in order, every brick that rests stands exactly on its cell:
/// its position is its column and row times the size of a cell. So does the
/// player's brick.
pub proof fn lemma_rest_positions(s: FieldView)
    requires
        s.wf(),
    ensures
        forall|i: int|
            0 <= i < s.bricks.len() && !(#[trigger] s.bricks[i]).moving() ==> s.bricks[i].scr_pos.x
                == s.bricks[i].x * BRICK_SIZE && s.bricks[i].scr_pos.y == s.bricks[i].y
                * BRICK_SIZE,
        !s.player.moving() ==> s.player.scr_pos.x == s.player.x * BRICK_SIZE && s.player.scr_pos.y
            == s.player.y * BRICK_SIZE,
{
    assert forall|i: int| 0 <= i < s.bricks.len() && !(#[trigger] s.bricks[i]).moving() implies s.bricks[i].scr_pos.x
        == s.bricks[i].x * BRICK_SIZE && s.bricks[i].scr_pos.y == s.bricks[i].y * BRICK_SIZE by {
        assert(brick_ok(s.bricks[i]));
    }
}

/// A throw is allowed exactly if the player's brick rests, the game goes on,
/// and the first brick in the path of a throw from the player's row is there
/// and has the player's kind, or the player holds a joker. A throw that is
/// not allowed changes nothing; one that is allowed counts and sets the
/// player's brick in motion to the left along its row.
pub proof fn lemma_throw_legality(s: FieldView)
    ensures
        s.can_throw() <==> !s.player.moving() && s.state == GameState::Unfinished && s.target(
            s.player.y as int,
        ).kind != BrickKind::Empty && (s.player.kind == BrickKind::Joker || s.player.kind
            == s.target(s.player.y as int).kind),
        !s.can_throw() ==> s.thrown() == s,
        s.can_throw() ==> s.thrown().player.moving() && s.thrown().player_row == s.player.y
            && s.thrown().player.vel == (Point { x: (-BRICK_DEF_SPEED) as i64, y: 0 })
            && s.thrown().bricks == s.bricks,
        s.can_throw() && s.score < u32::MAX ==> s.thrown().score == s.score + 1,
{
}

/// A brick of the board that is told to fall, and has not the floor as its
/// resting row, stays a brick of the board: it moves down, its limit and its
/// resting row are one cell further down, and its cell, its kind and its
/// position are as before.
pub proof fn lemma_brick_falls(b: Brick)
    requires
        brick_ok(b),
        b.rest_row() < FLOOR_ROW,
    ensures
        ({
            let f = b.falling(BRICK_FALL_SPEED);
            &&& brick_ok(f)
            &&& f.moving() && f.moving_down()
            &&& f.rest_row() == b.rest_row() + 1
            &&& rest_way(f) == rest_way(b) + BRICK_SIZE
            &&& f.x == b.x && f.y == b.y && f.kind == b.kind && f.scr_pos == b.scr_pos
            &&& f.limit.y == BRICK_SIZE + if b.moving() {
                b.limit.y
            } else {
                b.scr_pos.y
            }
        }),
{
}

/// A brick of the board stays one over a tick, in its column and with its
/// kind and its resting row. At rest nothing changes. A falling brick that
/// has more than one step to go makes the step and keeps its cell; else it
/// comes to rest in its resting row.
pub proof fn lemma_brick_ticks(b: Brick)
    requires
        brick_ok(b),
    ensures
        ({
            let u = b.updated();
            &&& brick_ok(u)
            &&& u.rest_row() == b.rest_row()
            &&& u.x == b.x && u.kind == b.kind
            &&& !b.moving() ==> u == b
            &&& b.moving() && rest_way(b) <= BRICK_FALL_SPEED ==> !u.moving() && u.y
                == b.rest_row()
            &&& b.moving() && rest_way(b) > BRICK_FALL_SPEED ==> u.moving() && u.y == b.y
                && rest_way(u) == rest_way(b) - BRICK_FALL_SPEED
        }),
{
}

/// The bricks of a board in order are so after a tick.
pub proof fn lemma_swept(bricks: Seq<Brick>)
    requires
        all_ok(bricks),
    ensures
        all_ok(swept(bricks)),
        swept(bricks).len() == bricks.len(),
{
    reveal(stacked);
    let after = swept(bricks);
    assert forall|i: int| 0 <= i < after.len() implies brick_ok(#[trigger] after[i])
        && after[i].rest_row() <= FLOOR_ROW by {
        assert(brick_ok(bricks[i]));
        lemma_brick_ticks(bricks[i]);
    }
    assert forall|i: int, j: int|
        0 <= i < after.len() && 0 <= j < after.len() && i != j && (#[trigger] after[i]).x == (
        #[trigger] after[j]).x implies {
        &&& after[i].y != after[j].y
        &&& after[i].y < after[j].y ==> after[i].rest_row() < after[j].rest_row() && rest_way(
            after[i],
        ) >= rest_way(after[j])
    } by {
        let p = bricks[i];
        let q = bricks[j];
        assert(brick_ok(p) && brick_ok(q));
        lemma_brick_ticks(p);
        lemma_brick_ticks(q);
        assert(p.x == q.x);
        assert(p.y != q.y);
    }
}

/// An annihilation takes exactly one brick off the board. Of the others,
/// each that stands above the vanished brick's cell in its column is told to
/// fall once: it moves down, its limit and the row in which it will rest
/// are one cell further down, and its position is as before. Every other
/// brick stays as it is. No brick is left in the cell of the vanished one,
/// and the bricks are those of a board in order.
pub proof fn lemma_annihilation(s: FieldView, i: int)
    requires
        0 <= i < s.bricks.len(),
        s.bricks_ok(),
    ensures
        s.annihilated(i).bricks.len() == s.bricks.len() - 1,
        forall|j: int|
            0 <= j < s.bricks.len() && j != i ==> {
                let b = #[trigger] s.bricks[j];
                let a = s.annihilated(i).bricks[if j < i {
                    j
                } else {
                    j - 1
                }];
                &&& a.x == b.x && a.y == b.y && a.kind == b.kind && a.scr_pos == b.scr_pos
                &&& if b.x == s.bricks[i].x && b.y < s.bricks[i].y {
                    &&& a == b.falling(BRICK_FALL_SPEED)
                    &&& a.moving_down()
                    &&& a.rest_row() == b.rest_row() + 1
                    &&& a.limit.y == BRICK_SIZE + if b.moving() {
                        b.limit.y
                    } else {
                        b.scr_pos.y
                    }
                } else {
                    a == b
                }
            },
        forall|k: int|
            0 <= k < s.annihilated(i).bricks.len() ==> !((#[trigger] s.annihilated(
                i,
            ).bricks[k]).x == s.bricks[i].x && s.annihilated(i).bricks[k].y == s.bricks[i].y),
        s.annihilated(i).bricks_ok(),
{
    let gone = s.bricks[i];
    let rest = s.bricks.remove(i);
    let after = s.annihilated(i).bricks;
    assert forall|j: int| 0 <= j < s.bricks.len() && j != i implies {
        let b = #[trigger] s.bricks[j];
        let a = after[if j < i {
            j
        } else {
            j - 1
        }];
        &&& a.x == b.x && a.y == b.y && a.kind == b.kind && a.scr_pos == b.scr_pos
        &&& if b.x == gone.x && b.y < gone.y {
            &&& a == b.falling(BRICK_FALL_SPEED)
            &&& a.moving_down()
            &&& a.rest_row() == b.rest_row() + 1
            &&& a.limit.y == BRICK_SIZE + if b.moving() {
                b.limit.y
            } else {
                b.scr_pos.y
            }
        } else {
            a == b
        }
    } by {
        lemma_cascaded(s.bricks, i, j);
    }
    assert forall|k: int| 0 <= k < after.len() implies brick_ok(#[trigger] after[k])
        && after[k].rest_row() <= FLOOR_ROW && !(after[k].x == gone.x && after[k].y == gone.y) by {
        let j = if k < i {
            k
        } else {
            k + 1
        };
        lemma_cascaded(s.bricks, i, j);
    }
    assert(stacked(after)) by {
        reveal(stacked);
        assert forall|p: int, q: int|
            0 <= p < after.len() && 0 <= q < after.len() && p != q && (#[trigger] after[p]).x == (
            #[trigger] after[q]).x implies {
            &&& after[p].y != after[q].y
            &&& after[p].y < after[q].y ==> after[p].rest_row() < after[q].rest_row()
                && rest_way(after[p]) >= rest_way(after[q])
        } by {
            let jp = if p < i {
                p
            } else {
                p + 1
            };
            let jq = if q < i {
                q
            } else {
                q + 1
            };
            lemma_cascaded(s.bricks, i, jp);
            lemma_cascaded(s.bricks, i, jq);
            lemma_apart(s.bricks, jp, jq);
            if s.bricks[jp].x == gone.x {
                lemma_apart(s.bricks, jp, i);
                lemma_apart(s.bricks, jq, i);
            }
        }
    }
}

/// Two bricks of one column of a board in order: they stand in different
/// rows, and the upper one will rest above the lower one and has no shorter
/// way to fall.
proof fn lemma_apart(bricks: Seq<Brick>, i: int, j: int)
    requires
        all_ok(bricks),
        0 <= i < bricks.len(),
        0 <= j < bricks.len(),
        i != j,
        bricks[i].x == bricks[j].x,
    ensures
        bricks[i].y != bricks[j].y,
        bricks[i].y < bricks[j].y ==> bricks[i].rest_row() < bricks[j].rest_row() && rest_way(
            bricks[i],
        ) >= rest_way(bricks[j]),
        bricks[j].y < bricks[i].y ==> bricks[j].rest_row() < bricks[i].rest_row() && rest_way(
            bricks[j],
        ) >= rest_way(bricks[i]),
{
    reveal(stacked);
}

/// What an annihilation makes of one of the other bricks.
proof fn lemma_cascaded(bricks: Seq<Brick>, i: int, j: int)
    requires
        all_ok(bricks),
        0 <= i < bricks.len(),
        0 <= j < bricks.len(),
        i != j,
    ensures
        ({
            let gone = bricks[i];
            let b = bricks[j];
            let k = if j < i {
                j
            } else {
                j - 1
            };
            let a = cascade(bricks.remove(i), gone.x as int, gone.y as int)[k];
            &&& bricks.remove(i)[k] == b
            &&& a.x == b.x && a.y == b.y && a.kind == b.kind && a.scr_pos == b.scr_pos
            &&& brick_ok(a)
            &&& a.rest_row() <= FLOOR_ROW
            &&& !(a.x == gone.x && a.y == gone.y)
            &&& if b.x == gone.x && b.y < gone.y {
                &&& a == b.falling(BRICK_FALL_SPEED)
                &&& a.moving_down()
                &&& a.rest_row() == b.rest_row() + 1
                &&& rest_way(a) == rest_way(b) + BRICK_SIZE
                &&& a.limit.y == BRICK_SIZE + if b.moving() {
                    b.limit.y
                } else {
                    b.scr_pos.y
                }
            } else {
                a == b
            }
        }),
{
    let gone = bricks[i];
    let b = bricks[j];
    assert(brick_ok(gone) && brick_ok(b));
    if b.x == gone.x {
        lemma_apart(bricks, j, i);
        if b.y < gone.y {
            lemma_brick_falls(b);
        }
    }
}

/// A throw stops where the aim says: on a board in order, the column in
/// which a brick thrown along a row stops is the column of the cell in front
/// of the row's target. In a row with bricks that is the cell at the right
/// of the rightmost brick, whose kind is the kind aimed at.
pub proof fn lemma_throw_follows_aim(s: FieldView, row: int)
    requires
        s.wf(),
        1 <= row <= FLOOR_ROW,
    ensures
        s.stop_column(row) == s.target(row).x,
        !s.target(row).down ==> s.target(row).y == row && s.target(row).kind != BrickKind::Empty
            && exists|i: int|
            0 <= i < s.bricks.len() && (#[trigger] s.bricks[i]).x == s.target(row).x - 1
                && s.bricks[i].y == row && s.bricks[i].kind == s.target(row).kind,
{
    lemma_row_max_x(s.bricks, row);
    let m = row_max_x(s.bricks, row);
    if row_occupied(s.bricks, row) {
        let i = choose|i: int| 0 <= i < s.bricks.len() && (#[trigger] s.bricks[i]).y == row;
        assert(brick_ok(s.bricks[i]));
        assert(m >= 1);
        let k = choose|k: int|
            0 <= k < s.bricks.len() && (#[trigger] s.bricks[k]).y == row && s.bricks[k].x == m;
        lemma_kind_at(s.bricks, m, row);
        let last = last_at(s.bricks, m, row)->0;
        assert(brick_ok(s.bricks[last]));
    } else {
        assert(m == 0) by {
            if m != 0 {
                let k = choose|k: int|
                    0 <= k < s.bricks.len() && (#[trigger] s.bricks[k]).y == row
                        && s.bricks[k].x == m;
                assert(s.bricks[k].y == row);
            }
        }
        lemma_wall_then_open(s.mask, row, scan_width());
        lemma_first_open(s.mask, row, 0);
        lemma_open_after_first(s.mask, row, 0);
        let wall = last_wall_upto(s.mask, row, scan_width());
        let open = first_open_from(s.mask, row, 0);
        lemma_walls_have_no_gap(s.mask, row, wall, open);
        assert(cell_at(s.mask, wall, row) == 1);
        assert(cell_at(s.mask, open, row) == 0);
        if open > wall + 1 {
            assert(cell_at(s.mask, wall + 1, row) == 1);
            assert(cell_at(s.mask, wall + 1, row) == 0);
        }
        if row >= HEIGHT - 1 - MAX_SIZE {
            assert(cell_at(s.mask, 1, row) == 0);
        }
    }
}

/// Left of a wall cell inside the frame, every cell of the row is a wall.
proof fn lemma_walls_have_no_gap(mask: Seq<u32>, row: int, wall: int, x: int)
    requires
        mask_ok(mask),
        1 <= row <= FLOOR_ROW,
        0 <= wall < WIDTH - INFO_WIDTH,
        cell_at(mask, wall, row) == 1,
    ensures
        0 <= x <= wall ==> cell_at(mask, x, row) == 1,
    decreases wall,
{
    if 0 <= x < wall {
        assert(cell_at(mask, wall - 1, row) == 1);
        lemma_walls_have_no_gap(mask, row, wall - 1, x);
    }
}

/// The brick found in a cell stands in that cell; and a cell that holds a
/// brick has one found.
pub proof fn lemma_kind_at(bricks: Seq<Brick>, x: int, y: int)
    ensures
        match last_at(bricks, x, y) {
            Some(i) => 0 <= i < bricks.len() && bricks[i].x == x && bricks[i].y == y,
            None => forall|j: int|
                0 <= j < bricks.len() ==> !((#[trigger] bricks[j]).x == x && bricks[j].y == y),
        },
    decreases bricks.len(),
{
    if bricks.len() > 0 {
        let head = bricks.drop_last();
        lemma_kind_at(head, x, y);
        if !(bricks.last().x == x && bricks.last().y == y) {
            match last_at(head, x, y) {
                Some(i) => {
                    assert(head[i] == bricks[i]);
                },
                None => {
                    assert forall|j: int| 0 <= j < bricks.len() implies !((#[trigger] bricks[j]).x
                        == x && bricks[j].y == y) by {
                        if j < head.len() {
                            assert(head[j] == bricks[j]);
                        }
                    }
                },
            }
        }
    }
}

/// In a row between the borders, the last wall cell before a column holds a
/// wall, and every cell between it and that column is open.
proof fn lemma_wall_then_open(mask: Seq<u32>, row: int, upto: int)
    requires
        mask_ok(mask),
        1 <= row <= FLOOR_ROW,
        1 <= upto <= scan_width(),
    ensures
        cell_at(mask, last_wall_upto(mask, row, upto), row) == 1,
        forall|x: int|
            last_wall_upto(mask, row, upto) < x < upto ==> #[trigger] cell_at(mask, x, row) == 0,
        0 <= last_wall_upto(mask, row, upto) < upto,
    decreases upto,
{
    assert(cell_at(mask, 0, row) == 1);
    assert(cell_at(mask, upto - 1, row) == 0 || cell_at(mask, upto - 1, row) == 1);
    if upto > 1 && cell_at(mask, upto - 1, row) == 0 {
        lemma_wall_then_open(mask, row, upto - 1);
    }
}

/// In a row between the borders, every cell before the first open one at or
/// after a column, from that column on, holds a wall.
proof fn lemma_open_after_first(mask: Seq<u32>, row: int, from: int)
    requires
        mask_ok(mask),
        1 <= row <= FLOOR_ROW,
        0 <= from <= MAX_SIZE + 1,
    ensures
        forall|x: int|
            from <= x < first_open_from(mask, row, from) ==> #[trigger] cell_at(mask, x, row) == 1,
    decreases scan_width() - from,
{
    assert(cell_at(mask, MAX_SIZE + 1, row) == 0);
    assert(cell_at(mask, from, row) == 0 || cell_at(mask, from, row) == 1);
    if from < MAX_SIZE + 1 && cell_at(mask, from, row) != 0 {
        lemma_open_after_first(mask, row, from + 1);
    }
}

/// The way home ends at home. Let the player's brick have stopped on its
/// way out, and be sent home. Then it moves for as many ticks as it stands
/// columns left of its home column, and with the last of them it rests in
/// its home column and home row.
pub proof fn lemma_flight_home(s: FieldView)
    requires
        s.halted(),
    ensures
        ({
            let p = s.sent_home().player;
            let ticks = HOME_COL - s.player.x;
            &&& forall|k: int| 0 <= k < ticks ==> (#[trigger] after_ticks(p, k)).moving()
            &&& !after_ticks(p, ticks).moving()
            &&& after_ticks(p, ticks).x == HOME_COL
            &&& after_ticks(p, ticks).y == s.player_row
            &&& on_cell(after_ticks(p, ticks).scr_pos, HOME_COL as int, s.player_row as int)
        }),
{
    let p = s.sent_home().player;
    let ticks = HOME_COL - s.player.x;
    assert(s.player.scr_pos.x == s.player.x * BRICK_SIZE);
    assert((HOME_COL * BRICK_SIZE - s.player.scr_pos.x) / (BRICK_DEF_SPEED as int) == ticks);
    lemma_straight_flight(p, ticks);
}

/// On a board in order no two bricks have the same cell, and every brick
/// stands on the floor or above it, in a row that a puzzle can reach.
pub proof fn lemma_bricks_apart(s: FieldView)
    requires
        s.wf(),
    ensures
        distinct_cells(s.bricks),
        forall|i: int|
            0 <= i < s.bricks.len() ==> HEIGHT - 1 - MAX_SIZE <= (#[trigger] s.bricks[i]).y
                <= FLOOR_ROW && 1 <= s.bricks[i].x <= MAX_SIZE,
{
    reveal(stacked);
    assert forall|i: int| 0 <= i < s.bricks.len() implies HEIGHT - 1 - MAX_SIZE <= (
    #[trigger] s.bricks[i]).y <= FLOOR_ROW && 1 <= s.bricks[i].x <= MAX_SIZE by {
        assert(brick_ok(s.bricks[i]));
    }
}

/// What the player's brick does to the brick that it meets. Let the
/// player's brick, on its way out, come to a stop with this tick, and let a
/// brick stand in the cell that it looks at. Then the player holds that
/// brick's kind afterwards. If the player's brick absorbs the brick, the
/// brick is annihilated: it alone leaves the board, no brick is left in its
/// cell, and the others keep their cells and kinds. Else the bricks stay as
/// they are.
pub proof fn lemma_arrival_meets(s: FieldView, i: int)
    requires
        s.wf(),
        s.player.moving(),
        !s.going_back,
        !s.player.updated().moving(),
        ({
            let stopped = FieldView { player: s.player.updated(), ..s };
            let cell = stopped.met_cell(s.player.moving_down());
            last_at(s.bricks, cell.0, cell.1) == Some(i)
        }),
    ensures
        0 <= i < s.bricks.len(),
        s.player_stepped().player.kind == s.bricks[i].kind,
        s.player.kind.absorbs(s.bricks[i].kind) ==> {
            &&& s.player_stepped().bricks == s.annihilated(i).bricks
            &&& s.player_stepped().bricks.len() == s.bricks.len() - 1
            &&& forall|k: int|
                0 <= k < s.player_stepped().bricks.len() ==> !((#[trigger] s.player_stepped().bricks[k]).x
                    == s.bricks[i].x && s.player_stepped().bricks[k].y == s.bricks[i].y)
            &&& forall|j: int|
                0 <= j < s.bricks.len() && j != i ==> {
                    let b = #[trigger] s.bricks[j];
                    let a = s.player_stepped().bricks[if j < i {
                        j
                    } else {
                        j - 1
                    }];
                    a.x == b.x && a.y == b.y && a.kind == b.kind
                }
        },
        !s.player.kind.absorbs(s.bricks[i].kind) ==> s.player_stepped().bricks == s.bricks,
{
    let stopped = FieldView { player: s.player.updated(), ..s };
    let cell = stopped.met_cell(s.player.moving_down());
    lemma_kind_at(s.bricks, cell.0, cell.1);
    lemma_bricks_apart(s);
    assert(s.bricks[i].y <= FLOOR_ROW);
    let hit = s.bricks[i].kind;
    if s.player.kind.absorbs(hit) {
        lemma_annihilation(s, i);
        assert(stopped.holding(hit).annihilated(i).bricks == s.annihilated(i).bricks);
    }
}

/// Where a throw drops, it drops onto the highest brick of its column at or
/// below the row, or to the floor. On a board in order, let the aim from a
/// row between the borders point down. Then the cell in front of the target
/// lies between the row above that row and the floor. If a kind is aimed
/// at, a brick of that kind stands right below that cell in the column, and
/// no brick of the column stands between the row and it. If none is aimed
/// at, the column has no brick at or below the row, and the cell is on the
/// floor.
pub proof fn lemma_aim_drops(s: FieldView, row: int)
    requires
        s.wf(),
        1 <= row <= FLOOR_ROW,
        s.target(row).down,
    ensures
        row - 1 <= s.target(row).y <= FLOOR_ROW,
        s.target(row).kind != BrickKind::Empty ==> exists|i: int|
            0 <= i < s.bricks.len() && (#[trigger] s.bricks[i]).x == s.target(row).x
                && s.bricks[i].y == s.target(row).y + 1 && s.bricks[i].kind == s.target(row).kind,
        forall|i: int|
            0 <= i < s.bricks.len() && (#[trigger] s.bricks[i]).x == s.target(row).x
                && s.bricks[i].y >= row ==> s.bricks[i].y > s.target(row).y,
        s.target(row).kind == BrickKind::Empty ==> s.target(row).y == FLOOR_ROW && forall|i: int|
            0 <= i < s.bricks.len() && (#[trigger] s.bricks[i]).x == s.target(row).x
                ==> s.bricks[i].y < row,
{
    let col = s.target(row).x;
    lemma_landing(s.bricks, col, row);
    lemma_bricks_apart(s);
    let by = landing(s.bricks, col, row).0;
    if by < HEIGHT - 1 {
        let i = choose|i: int|
            0 <= i < s.bricks.len() && (#[trigger] s.bricks[i]).x == col && s.bricks[i].y == by
                && s.bricks[i].kind == landing(s.bricks, col, row).1;
        assert(brick_ok(s.bricks[i]));
    } else {
        assert forall|i: int|
            0 <= i < s.bricks.len() && (#[trigger] s.bricks[i]).x == col implies s.bricks[i].y
            < row by {
            assert(s.bricks[i].y <= FLOOR_ROW);
        }
    }
}

/// What a board holds after a level was set up on it, whatever it held
/// before. The frame of the mask is wall, and inside the frame the walls are
/// the cells of the level's corner, or of the diagonal one, and no others.
/// The game goes on; the player's brick rests at home on the floor with the
/// level's first kind, and is not on its way back; the arrow shows the aim
/// from the floor. The count of throws, the level's number and the levels
/// stay.
pub proof fn lemma_loaded(s: FieldView, lvl_no: int, info: Score)
    requires
        0 <= lvl_no < s.levels.len(),
    ensures
        ({
            let after = s.loaded(lvl_no, info);
            let lvl = s.levels[lvl_no];
            &&& after.mask.len() == CELLS
            &&& forall|x: int, y: int|
                0 <= x < WIDTH && 0 <= y < HEIGHT ==> (#[trigger] cell_at(after.mask, x, y)) == (if is_border(
                    x,
                    y,
                ) || in_corner(lvl.corner, x, y) {
                    1u32
                } else {
                    0u32
                })
            &&& after.bricks == puzzle_bricks(lvl.puzzle, lvl.puzzle.len() as int)
            &&& after.state == GameState::Unfinished
            &&& after.player == Brick::at(HOME_COL, FLOOR_ROW, lvl.first)
            &&& !after.player.moving()
            &&& !after.going_back
            &&& after.lvl_score == info
            &&& after.first_brick == after.target(FLOOR_ROW as int).kind
            &&& after.arrow_down == after.target(FLOOR_ROW as int).down
            &&& after.score == s.score && after.level == s.level && after.levels == s.levels
                && after.demoing == s.demoing && after.player_row == s.player_row
        }),
{
    let after = s.loaded(lvl_no, info);
    let lvl = s.levels[lvl_no];
    assert forall|x: int, y: int| 0 <= x < WIDTH && 0 <= y < HEIGHT implies (#[trigger] cell_at(
        after.mask,
        x,
        y,
    )) == (if is_border(x, y) || in_corner(lvl.corner, x, y) {
        1u32
    } else {
        0u32
    }) by {
        let i = cell_index(x, y);
        assert(i % (WIDTH as int) == x && i / (WIDTH as int) == y);
    }
}

/// Whether `b` is the brick of a filled cell among the first `upto` cells
/// of a puzzle row that lies in board row `y`.
pub open spec fn in_row(row: Seq<BrickKind>, y: int, upto: int, b: Brick) -> bool {
    exists|c: int|
        0 <= c < upto && c < row.len() && #[trigger] row[c] != BrickKind::Empty && b == Brick::at(
            (c + 1) as usize,
            y as usize,
            row[c],
        )
}

/// Whether `b` is the brick of a filled cell in the first `upto` rows of a
/// puzzle: a resting brick of the cell's kind, one column right of the
/// cell's place in its row, in the board row that puts the puzzle's last row
/// on the floor.
pub open spec fn in_puzzle(puzzle: Seq<Seq<BrickKind>>, upto: int, b: Brick) -> bool {
    exists|r: int|
        0 <= r < upto && r < puzzle.len() && in_row(
            #[trigger] puzzle[r],
            HEIGHT - 1 - puzzle.len() + r,
            puzzle[r].len() as int,
            b,
        )
}

/// The bricks of a puzzle row are the bricks of its filled cells, and no
/// others.
pub proof fn lemma_row_bricks(row: Seq<BrickKind>, y: int, upto: int, b: Brick)
    requires
        0 <= upto <= row.len(),
    ensures
        row_bricks(row, y, upto).contains(b) <==> in_row(row, y, upto, b),
    decreases upto,
{
    let here = row_bricks(row, y, upto);
    if upto > 0 {
        let before = row_bricks(row, y, upto - 1);
        lemma_row_bricks(row, y, upto - 1, b);
        let last = Brick::at(upto as usize, y as usize, row[upto - 1]);
        if row[upto - 1] != BrickKind::Empty {
            assert(here == before.push(last));
            if here.contains(b) {
                let i = choose|i: int| 0 <= i < here.len() && here[i] == b;
                if i < before.len() {
                    assert(before[i] == b);
                    assert(before.contains(b));
                    let c = choose|c: int|
                        0 <= c < upto - 1 && c < row.len() && #[trigger] row[c] != BrickKind::Empty
                            && b == Brick::at((c + 1) as usize, y as usize, row[c]);
                    assert(row[c] != BrickKind::Empty);
                } else {
                    assert(b == last);
                    assert(row[upto - 1] != BrickKind::Empty);
                }
                assert(in_row(row, y, upto, b));
            }
            if in_row(row, y, upto, b) {
                let c = choose|c: int|
                    0 <= c < upto && c < row.len() && #[trigger] row[c] != BrickKind::Empty && b
                        == Brick::at((c + 1) as usize, y as usize, row[c]);
                if c == upto - 1 {
                    assert(here[here.len() - 1] == b);
                } else {
                    assert(row[c] != BrickKind::Empty);
                    assert(in_row(row, y, upto - 1, b));
                    let i = choose|i: int| 0 <= i < before.len() && before[i] == b;
                    assert(here[i] == b);
                }
                assert(here.contains(b));
            }
        } else {
            assert(here == before);
            if in_row(row, y, upto, b) {
                let c = choose|c: int|
                    0 <= c < upto && c < row.len() && #[trigger] row[c] != BrickKind::Empty && b
                        == Brick::at((c + 1) as usize, y as usize, row[c]);
                assert(row[c] != BrickKind::Empty);
                assert(in_row(row, y, upto - 1, b));
            }
            if before.contains(b) {
                let c = choose|c: int|
                    0 <= c < upto - 1 && c < row.len() && #[trigger] row[c] != BrickKind::Empty
                        && b == Brick::at((c + 1) as usize, y as usize, row[c]);
                assert(row[c] != BrickKind::Empty);
                assert(in_row(row, y, upto, b));
            }
        }
    } else {
        assert(!here.contains(b));
    }
}

/// The bricks of a puzzle are the bricks of its filled cells, and no others:
/// for every cell that is not empty there is a resting brick of its kind in
/// its place, and every brick is the brick of such a cell.
pub proof fn lemma_puzzle_bricks(puzzle: Seq<Seq<BrickKind>>, upto: int, b: Brick)
    requires
        0 <= upto <= puzzle.len(),
    ensures
        puzzle_bricks(puzzle, upto).contains(b) <==> in_puzzle(puzzle, upto, b),
    decreases upto,
{
    let here = puzzle_bricks(puzzle, upto);
    if upto > 0 {
        let before = puzzle_bricks(puzzle, upto - 1);
        let r = upto - 1;
        let y = HEIGHT - 1 - puzzle.len() + r;
        let row = row_bricks(puzzle[r], y, puzzle[r].len() as int);
        assert(here == before + row);
        lemma_puzzle_bricks(puzzle, upto - 1, b);
        lemma_row_bricks(puzzle[r], y, puzzle[r].len() as int, b);
        if here.contains(b) {
            let i = choose|i: int| 0 <= i < here.len() && here[i] == b;
            if i < before.len() {
                assert(before[i] == b);
                assert(before.contains(b));
                let q = choose|q: int|
                    0 <= q < upto - 1 && q < puzzle.len() && in_row(
                        #[trigger] puzzle[q],
                        HEIGHT - 1 - puzzle.len() + q,
                        puzzle[q].len() as int,
                        b,
                    );
                assert(in_row(puzzle[q], HEIGHT - 1 - puzzle.len() + q, puzzle[q].len() as int, b));
            } else {
                assert(row[i - before.len()] == b);
                assert(row.contains(b));
                assert(in_row(puzzle[r], y, puzzle[r].len() as int, b));
            }
            assert(in_puzzle(puzzle, upto, b));
        }
        if in_puzzle(puzzle, upto, b) {
            let q = choose|q: int|
                0 <= q < upto && q < puzzle.len() && in_row(
                    #[trigger] puzzle[q],
                    HEIGHT - 1 - puzzle.len() + q,
                    puzzle[q].len() as int,
                    b,
                );
            if q == r {
                assert(row.contains(b));
                let i = choose|i: int| 0 <= i < row.len() && row[i] == b;
                assert(here[before.len() + i] == b);
            } else {
                assert(in_row(puzzle[q], HEIGHT - 1 - puzzle.len() + q, puzzle[q].len() as int, b));
                assert(in_puzzle(puzzle, upto - 1, b));
                let i = choose|i: int| 0 <= i < before.len() && before[i] == b;
                assert(here[i] == b);
            }
            assert(here.contains(b));
        }
    } else {
        assert(!here.contains(b));
    }
}

/// The bricks of a board after a level was set up on it are the bricks of
/// the filled cells of the level's puzzle, and no others; none is left of
/// what the board held before.
pub proof fn lemma_loaded_bricks(s: FieldView, lvl_no: int, info: Score)
    requires
        0 <= lvl_no < s.levels.len(),
    ensures
        forall|b: Brick|
            s.loaded(lvl_no, info).bricks.contains(b) <==> in_puzzle(
                s.levels[lvl_no].puzzle,
                s.levels[lvl_no].puzzle.len() as int,
                b,
            ),
{
    let puzzle = s.levels[lvl_no].puzzle;
    assert forall|b: Brick|
        s.loaded(lvl_no, info).bricks.contains(b) <==> in_puzzle(puzzle, puzzle.len() as int, b) by {
        lemma_puzzle_bricks(puzzle, puzzle.len() as int, b);
    }
}

} // verus!

//! Levels: what a level holds, when it is well formed, and the text that
//! levels are read from.

use vstd::prelude::*;
use crate::common::chars_of;
use crate::consts::MAX_SIZE;
use crate::field::BrickKind;

verus! {

/// A single level.
pub struct Level {
    /// Pattern of the top left corner: the number of wall cells of each row.
    pub corner: Vec<u8>,
    /// Initial bricks, row by row from the top.
    pub puzzle: Vec<Vec<BrickKind>>,
    /// The player's first brick.
    pub first: BrickKind,
}

/// A level as a plain value.
pub struct LevelView {
    pub corner: Seq<u8>,
    pub puzzle: Seq<Seq<BrickKind>>,
    pub first: BrickKind,
}

impl View for Level {
    type V = LevelView;

    open spec fn view(&self) -> LevelView {
        LevelView {
            corner: self.corner@,
            puzzle: Seq::new(self.puzzle@.len(), |i: int| self.puzzle@[i]@),
            first: self.first,
        }
    }
}

impl LevelView {
    /// The level that a description starts from: no corner, no bricks, and a
    /// joker for the player.
    pub open spec fn blank() -> LevelView {
        LevelView { corner: Seq::empty(), puzzle: Seq::empty(), first: BrickKind::Joker }
    }

    /// What the puzzle holds in row `r`, column `c`; a row that ends before
    /// `c` holds nothing there.
    pub open spec fn cell(self, r: int, c: int) -> BrickKind {
        if 0 <= c < self.puzzle[r].len() {
            self.puzzle[r][c]
        } else {
            BrickKind::Empty
        }
    }

    /// Whether column `c` has an empty cell somewhere below a brick.
    pub open spec fn hole_in(self, c: int) -> bool {
        exists|r1: int, r2: int|
            0 <= r1 < r2 < self.puzzle.len() && #[trigger] self.cell(r1, c) != BrickKind::Empty
                && #[trigger] self.cell(r2, c) == BrickKind::Empty
    }

    /// Whether some column has an empty cell below a brick.
    pub open spec fn has_hole(self) -> bool {
        exists|c: int| 0 <= c < max_width(self.puzzle) && #[trigger] self.hole_in(c)
    }

    /// What is wrong with the level, if anything: the first of these that
    /// applies. The corner has one line or more than six; a corner line is
    /// longer than seven; the puzzle has fewer than two rows or more than
    /// seven; its longest row has fewer than two cells or more than seven; a
    /// column has an empty cell below a brick.
    pub open spec fn fault(self) -> Option<LevelFault> {
        if self.corner.len() > MAX_SIZE - 1 || self.corner.len() == 1 {
            Some(LevelFault::CornerLines { lines: self.corner.len() as usize })
        } else if first_long_line(self.corner) is Some {
            Some(LevelFault::CornerLineTooLong { cells: first_long_line(self.corner)->0 })
        } else if self.puzzle.len() > MAX_SIZE || self.puzzle.len() < 2 {
            Some(LevelFault::PuzzleLines { rows: self.puzzle.len() as usize })
        } else if max_width(self.puzzle) < 2 || max_width(self.puzzle) > MAX_SIZE {
            Some(LevelFault::PuzzleColumns { columns: max_width(self.puzzle) as usize })
        } else if self.has_hole() {
            Some(LevelFault::Hole)
        } else {
            None
        }
    }

    /// Whether the level is well formed.
    pub open spec fn valid(self) -> bool {
        self.fault() is None
    }
}

/// What can be wrong with a level.
#[derive(Debug, Copy, Clone, PartialEq, Eq, Structural)]
pub enum LevelFault {
    /// The corner pattern has one line, or more than six.
    CornerLines { lines: usize },
    /// A line of the corner pattern is longer than seven cells.
    CornerLineTooLong { cells: u8 },
    /// The puzzle has fewer than two rows, or more than seven.
    PuzzleLines { rows: usize },
    /// The longest row of the puzzle has fewer than two cells, or more than
    /// seven.
    PuzzleColumns { columns: usize },
    /// A column has an empty cell below a brick.
    Hole,
}

/// A level that was refused, by its number in the text.
#[derive(Debug, Copy, Clone, PartialEq, Eq, Structural)]
pub struct LevelError {
    pub level: usize,
    pub fault: LevelFault,
}

/// The first corner line that is longer than the largest puzzle dimension.
pub open spec fn first_long_line(corner: Seq<u8>) -> Option<u8>
    decreases corner.len(),
{
    if corner.len() == 0 {
        None
    } else if corner[0] > MAX_SIZE {
        Some(corner[0])
    } else {
        first_long_line(corner.drop_first())
    }
}

/// The length of the longest row.
pub open spec fn max_width(puzzle: Seq<Seq<BrickKind>>) -> nat
    decreases puzzle.len(),
{
    if puzzle.len() == 0 {
        0
    } else {
        let m = max_width(puzzle.drop_last());
        let w = puzzle.last().len();
        if m < w {
            w
        } else {
            m
        }
    }
}

/// No corner line is too long exactly if every line is at most the largest
/// puzzle dimension.
pub proof fn lemma_first_long_line(corner: Seq<u8>)
    ensures
        first_long_line(corner) is None <==> forall|i: int|
            0 <= i < corner.len() ==> corner[i] <= MAX_SIZE,
    decreases corner.len(),
{
    if corner.len() > 0 {
        lemma_first_long_line(corner.drop_first());
        if corner[0] <= MAX_SIZE && first_long_line(corner.drop_first()) is None {
            assert forall|i: int| 0 <= i < corner.len() implies corner[i] <= MAX_SIZE by {
                if i > 0 {
                    assert(corner.drop_first()[i - 1] == corner[i]);
                }
            }
        }
        if forall|i: int| 0 <= i < corner.len() ==> corner[i] <= MAX_SIZE {
            assert forall|i: int| 0 <= i < corner.drop_first().len() implies corner.drop_first()[i]
                <= MAX_SIZE by {
                assert(corner.drop_first()[i] == corner[i + 1]);
            }
        }
    }
}

/// The longest row is at least as long as every row, and some row has its
/// length unless there is no row.
pub proof fn lemma_max_width(puzzle: Seq<Seq<BrickKind>>)
    ensures
        forall|i: int| 0 <= i < puzzle.len() ==> (#[trigger] puzzle[i]).len() <= max_width(puzzle),
        puzzle.len() > 0 ==> exists|i: int|
            0 <= i < puzzle.len() && (#[trigger] puzzle[i]).len() == max_width(puzzle),
        puzzle.len() == 0 ==> max_width(puzzle) == 0,
    decreases puzzle.len(),
{
    if puzzle.len() > 0 {
        let head = puzzle.drop_last();
        lemma_max_width(head);
        assert forall|i: int| 0 <= i < puzzle.len() implies (#[trigger] puzzle[i]).len()
            <= max_width(puzzle) by {
            if i < head.len() {
                assert(head[i] == puzzle[i]);
            }
        }
        if max_width(head) < puzzle.last().len() || head.len() == 0 {
            assert(puzzle[puzzle.len() - 1].len() == max_width(puzzle));
        } else {
            let i = choose|i: int| 0 <= i < head.len() && (#[trigger] head[i]).len() == max_width(head);
            assert(puzzle[i] == head[i]);
        }
    }
}

/// What a valid level is known to satisfy: its corner has at most six lines
/// of at most seven cells, and its puzzle at most seven rows of at most seven
/// cells.
pub proof fn lemma_valid_level(l: LevelView)
    requires
        l.valid(),
    ensures
        l.corner.len() <= MAX_SIZE - 1,
        forall|i: int| 0 <= i < l.corner.len() ==> l.corner[i] <= MAX_SIZE,
        2 <= l.puzzle.len() <= MAX_SIZE,
        forall|i: int| 0 <= i < l.puzzle.len() ==> (#[trigger] l.puzzle[i]).len() <= MAX_SIZE,
        !l.has_hole(),
{
    lemma_first_long_line(l.corner);
    lemma_max_width(l.puzzle);
}

impl Level {
    /// The level that a description starts from.
    pub fn blank() -> (l: Level)
        ensures
            l@ == LevelView::blank(),
    {
        let l = Level { corner: Vec::new(), puzzle: Vec::new(), first: BrickKind::Joker };
        assert(l@.puzzle =~= Seq::empty());
        l
    }

    /// What the puzzle holds in row `r`, column `c`.
    fn cell(&self, r: usize, c: usize) -> (k: BrickKind)
        requires
            r < self.puzzle.len(),
        ensures
            k == self@.cell(r as int, c as int),
    {
        if c < self.puzzle[r].len() {
            self.puzzle[r][c]
        } else {
            BrickKind::Empty
        }
    }

    /// Returns a copy of the level.
    pub fn duplicate(&self) -> (l: Level)
        ensures
            l@ == self@,
    {
        let mut corner: Vec<u8> = Vec::new();
        let mut i: usize = 0;
        while i < self.corner.len()
            invariant
                i <= self.corner.len(),
                corner@ == self.corner@.take(i as int),
            decreases self.corner.len() - i,
        {
            corner.push(self.corner[i]);
            assert(self.corner@.take(i + 1) =~= self.corner@.take(i as int).push(self.corner@[i as int]));
            i = i + 1;
        }
        assert(self.corner@.take(i as int) =~= self.corner@);
        let mut puzzle: Vec<Vec<BrickKind>> = Vec::new();
        let mut r: usize = 0;
        while r < self.puzzle.len()
            invariant
                r <= self.puzzle.len(),
                puzzle@.len() == r,
                forall|j: int| 0 <= j < r ==> (#[trigger] puzzle@[j])@ == self.puzzle@[j]@,
            decreases self.puzzle.len() - r,
        {
            let mut row: Vec<BrickKind> = Vec::new();
            let mut c: usize = 0;
            while c < self.puzzle[r].len()
                invariant
                    r < self.puzzle.len(),
                    c <= self.puzzle@[r as int]@.len(),
                    row@ == self.puzzle@[r as int]@.take(c as int),
                decreases self.puzzle@[r as int]@.len() - c,
            {
                row.push(self.puzzle[r][c]);
                assert(self.puzzle@[r as int]@.take(c + 1) =~= self.puzzle@[r as int]@.take(
                    c as int,
                ).push(self.puzzle@[r as int]@[c as int]));
                c = c + 1;
            }
            assert(self.puzzle@[r as int]@.take(c as int) =~= self.puzzle@[r as int]@);
            puzzle.push(row);
            r = r + 1;
        }
        let l = Level { corner, puzzle, first: self.first };
        assert(l@.puzzle =~= self@.puzzle);
        l
    }

    /// Checks the level: the corner pattern is omitted or has two to six
    /// lines, none longer than seven cells; the puzzle has two to seven rows
    /// and its longest row two to seven cells; no column has an empty cell
    /// below a brick. The first fault found is returned.
    #[verifier::loop_isolation(false)]
    pub fn validate(&self) -> (r: Result<(), LevelFault>)
        ensures
            match r {
                Ok(()) => self@.valid(),
                Err(f) => self@.fault() == Some(f),
            },
    {
        let lines: usize = self.corner.len();
        if lines > MAX_SIZE - 1 || lines == 1 {
            return Err(LevelFault::CornerLines { lines: lines });
        }
        let mut i: usize = 0;
        assert(self.corner@.skip(0) =~= self.corner@);
        while i < lines
            invariant
                lines == self.corner@.len(),
                i <= lines,
                first_long_line(self.corner@) == first_long_line(self.corner@.skip(i as int)),
            decreases lines - i,
        {
            let l: u8 = self.corner[i];
            assert(self.corner@.skip(i as int)[0] == l);
            assert(self.corner@.skip(i as int).drop_first() =~= self.corner@.skip(i + 1));
            if l as usize > MAX_SIZE {
                assert(first_long_line(self.corner@.skip(i as int)) == Some(l));
                return Err(LevelFault::CornerLineTooLong { cells: l });
            }
            i = i + 1;
        }
        assert(self.corner@.skip(i as int).len() == 0);
        let rows: usize = self.puzzle.len();
        if rows > MAX_SIZE || rows < 2 {
            return Err(LevelFault::PuzzleLines { rows: rows });
        }
        let mut max_w: usize = 0;
        let mut r: usize = 0;
        while r < rows
            invariant
                rows == self.puzzle@.len(),
                rows == self@.puzzle.len(),
                r <= rows,
                max_w == max_width(self@.puzzle.take(r as int)),
            decreases rows - r,
        {
            let w: usize = self.puzzle[r].len();
            assert(self@.puzzle.take(r + 1).drop_last() =~= self@.puzzle.take(r as int));
            assert(self@.puzzle.take(r + 1).last() == self@.puzzle[r as int]);
            if max_w < w {
                max_w = w;
            }
            r = r + 1;
        }
        assert(self@.puzzle.take(r as int) =~= self@.puzzle);
        if max_w < 2 || max_w > MAX_SIZE {
            return Err(LevelFault::PuzzleColumns { columns: max_w });
        }
        let mut c: usize = 0;
        while c < max_w
            invariant
                rows == self.puzzle@.len(),
                rows == self@.puzzle.len(),
                max_w == max_width(self@.puzzle),
                c <= max_w,
                forall|k: int| 0 <= k < c ==> !#[trigger] self@.hole_in(k),
            decreases max_w - c,
        {
            let mut found: bool = false;
            let mut r: usize = 0;
            while r < rows
                invariant
                    rows == self.puzzle@.len(),
                    rows == self@.puzzle.len(),
                    r <= rows,
                    c < max_width(self@.puzzle),
                    found <==> exists|r1: int|
                        0 <= r1 < r && #[trigger] self@.cell(r1, c as int) != BrickKind::Empty,
                    forall|r1: int, r2: int|
                        0 <= r1 < r2 < r && #[trigger] self@.cell(r1, c as int) != BrickKind::Empty
                            ==> #[trigger] self@.cell(r2, c as int) != BrickKind::Empty,
                decreases rows - r,
            {
                let k: BrickKind = self.cell(r, c);
                if k == BrickKind::Empty && found {
                    proof {
                        let r1 = choose|r1: int|
                            0 <= r1 < r && #[trigger] self@.cell(r1, c as int) != BrickKind::Empty;
                        assert(self@.cell(r1, c as int) != BrickKind::Empty && self@.cell(
                            r as int,
                            c as int,
                        ) == BrickKind::Empty);
                        assert(self@.hole_in(c as int));
                        assert(self@.has_hole());
                    }
                    return Err(LevelFault::Hole);
                }
                if k != BrickKind::Empty {
                    found = true;
                }
                r = r + 1;
            }
            c = c + 1;
        }
        Ok(())
    }
}

/// All levels of the game, each of them well formed.
pub struct Loader {
    levels: Vec<Level>,
}

impl View for Loader {
    type V = Seq<LevelView>;

    closed spec fn view(&self) -> Seq<LevelView> {
        Seq::new(self.levels@.len(), |i: int| self.levels@[i]@)
    }
}

/// Whether every level of `levels` is well formed.
pub open spec fn all_valid(levels: Seq<LevelView>) -> bool {
    forall|i: int| 0 <= i < levels.len() ==> (#[trigger] levels[i]).valid()
}

impl Default for Level {
    fn default() -> (l: Level)
        ensures
            l@ == LevelView::blank(),
    {
        Level::blank()
    }
}

impl Loader {
    /// Checks a level that is to get the number `lvl_num`, and names the
    /// number with the fault.
    pub fn validate_level(level: &Level, lvl_num: usize) -> (r: Result<(), LevelError>)
        ensures
            match r {
                Ok(()) => level@.valid(),
                Err(e) => e.level == lvl_num && level@.fault() == Some(e.fault),
            },
    {
        match level.validate() {
            Ok(()) => Ok(()),
            Err(fault) => Err(LevelError { level: lvl_num, fault }),
        }
    }

    /// The invariant of a loader: every level that it holds is well formed.
    pub open spec fn wf(&self) -> bool {
        all_valid(self@)
    }

    /// Returns a copy of level `level_no`.
    pub fn level(&self, level_no: usize) -> (l: Level)
        requires
            level_no < self@.len(),
        ensures
            l@ == self@[level_no as int],
    {
        self.levels[level_no].duplicate()
    }

    /// Returns a copy of the loader.
    pub fn duplicate(&self) -> (l: Loader)
        ensures
            l@ == self@,
    {
        let mut levels: Vec<Level> = Vec::new();
        let mut i: usize = 0;
        while i < self.levels.len()
            invariant
                i <= self.levels@.len(),
                levels@.len() == i,
                forall|k: int| 0 <= k < i ==> (#[trigger] levels@[k])@ == self.levels@[k]@,
            decreases self.levels@.len() - i,
        {
            levels.push(self.levels[i].duplicate());
            i = i + 1;
        }
        let l = Loader { levels };
        assert(l@ =~= self@);
        l
    }

    /// Number of levels.
    pub fn level_count(&self) -> (n: usize)
        ensures
            n == self@.len(),
    {
        self.levels.len()
    }
}


/// The kind that a character of a puzzle row stands for. Each kind has four
/// characters; a question mark is the joker; every other character is an
/// empty cell.
pub open spec fn kind_of(c: char) -> BrickKind {
    if c == 'S' || c == 's' || c == '$' || c == '1' {
        BrickKind::K1
    } else if c == 'X' || c == 'x' || c == '%' || c == '2' {
        BrickKind::K2
    } else if c == 'O' || c == 'o' || c == '@' || c == '3' {
        BrickKind::K3
    } else if c == 'T' || c == 't' || c == '=' || c == '4' {
        BrickKind::K4
    } else if c == 'Z' || c == 'z' || c == '+' || c == '5' {
        BrickKind::K5
    } else if c == 'W' || c == 'w' || c == ':' || c == '6' {
        BrickKind::K6
    } else if c == '?' {
        BrickKind::Joker
    } else {
        BrickKind::Empty
    }
}

/// Converts a character to the kind of brick that it stands for.
pub fn c2brick(c: char) -> (k: BrickKind)
    ensures
        k == kind_of(c),
{
    if c == 'S' || c == 's' || c == '$' || c == '1' {
        BrickKind::K1
    } else if c == 'X' || c == 'x' || c == '%' || c == '2' {
        BrickKind::K2
    } else if c == 'O' || c == 'o' || c == '@' || c == '3' {
        BrickKind::K3
    } else if c == 'T' || c == 't' || c == '=' || c == '4' {
        BrickKind::K4
    } else if c == 'Z' || c == 'z' || c == '+' || c == '5' {
        BrickKind::K5
    } else if c == 'W' || c == 'w' || c == ':' || c == '6' {
        BrickKind::K6
    } else if c == '?' {
        BrickKind::Joker
    } else {
        BrickKind::Empty
    }
}

/// Whether a character is white space: one of the code points that Unicode
/// gives the property White_Space.
pub open spec fn is_space(c: char) -> bool {
    let u = c as u32;
    (0x09 <= u <= 0x0d) || u == 0x20 || u == 0x85 || u == 0xa0 || u == 0x1680 || (0x2000 <= u
        <= 0x200a) || u == 0x2028 || u == 0x2029 || u == 0x202f || u == 0x205f || u == 0x3000
}

/// Whether a character is white space.
pub fn is_white(c: char) -> (r: bool)
    ensures
        r == is_space(c),
{
    let u: u32 = c as u32;
    (0x09 <= u && u <= 0x0d) || u == 0x20 || u == 0x85 || u == 0xa0 || u == 0x1680 || (0x2000 <= u
        && u <= 0x200a) || u == 0x2028 || u == 0x2029 || u == 0x202f || u == 0x205f || u == 0x3000
}

/// Number of bytes that a character takes in UTF-8.
pub open spec fn char_width(c: char) -> nat {
    let u = c as u32;
    if u < 0x80 {
        1
    } else if u < 0x800 {
        2
    } else if u < 0x10000 {
        3
    } else {
        4
    }
}

/// Number of bytes that characters take in UTF-8.
pub open spec fn byte_len(s: Seq<char>) -> nat
    decreases s.len(),
{
    if s.len() == 0 {
        0
    } else {
        byte_len(s.drop_last()) + char_width(s.last())
    }
}

/// The number that a corner line is kept as: its length in bytes, or 255 if
/// it is longer than that.
pub open spec fn corner_len(s: Seq<char>) -> u8 {
    if byte_len(s) > 255 {
        255
    } else {
        byte_len(s) as u8
    }
}

/// Where the line ends that holds position `from`: at the next line feed, or
/// at the end of the text.
pub open spec fn line_end(text: Seq<char>, from: int) -> int {
    from + line_len(text, from)
}

/// Number of characters from position `from` to the end of its line.
pub open spec fn line_len(text: Seq<char>, from: int) -> nat
    decreases text.len() - from,
{
    if from >= text.len() || text[from] == '\n' {
        0
    } else {
        1 + line_len(text, from + 1)
    }
}

/// A line without the white space at its end.
pub open spec fn trim_end(s: Seq<char>) -> Seq<char>
    decreases s.len(),
{
    if s.len() > 0 && is_space(s.last()) {
        trim_end(s.drop_last())
    } else {
        s
    }
}

/// A line without the white space at its start.
pub open spec fn trim_start(s: Seq<char>) -> Seq<char>
    decreases s.len(),
{
    if s.len() > 0 && is_space(s[0]) {
        trim_start(s.drop_first())
    } else {
        s
    }
}

/// The word that sets the player's first brick.
pub open spec fn start_word() -> Seq<char> {
    seq!['s', 't', 'a', 'r', 't', ':']
}

/// Whether a line begins with the word that sets the player's first brick.
pub open spec fn is_start(s: Seq<char>) -> bool {
    s.len() >= 6 && s.subrange(0, 6) == start_word()
}

/// A line without the start words that it begins with.
pub open spec fn strip_starts(s: Seq<char>) -> Seq<char>
    decreases s.len(),
{
    if is_start(s) {
        strip_starts(s.skip(6))
    } else {
        s
    }
}

/// The kinds that the characters of a puzzle row stand for.
pub open spec fn row_of(s: Seq<char>) -> Seq<BrickKind> {
    Seq::new(s.len(), |i: int| kind_of(s[i]))
}

/// What has been read of a text: the levels that are complete, and the level
/// that is being described.
pub struct Draft {
    pub levels: Seq<LevelView>,
    pub current: LevelView,
}

impl Draft {
    /// Nothing read yet.
    pub open spec fn start() -> Draft {
        Draft { levels: Seq::empty(), current: LevelView::blank() }
    }

    /// The draft after the level that is being described was closed. A level
    /// without a puzzle is not closed: its description goes on. A level with
    /// a fault is refused, with its number. Else it joins the levels, and a
    /// blank one is begun.
    pub open spec fn flushed(self) -> Result<Draft, LevelError> {
        if self.current.puzzle.len() == 0 {
            Ok(self)
        } else {
            match self.current.fault() {
                Some(fault) => Err(LevelError { level: self.levels.len() as usize, fault }),
                None => Ok(
                    Draft { levels: self.levels.push(self.current), current: LevelView::blank() },
                ),
            }
        }
    }

    /// The draft after a line, which has no white space at its end. An empty
    /// line and one that begins with a semicolon are passed over. A line that
    /// begins with the start word sets the player's first brick from the
    /// first character after the start words and white space that follow, if
    /// there is one. A line that begins with a hash closes the level. A line
    /// that begins with a star is a line of the corner, as long as it has
    /// bytes. Any other line is a row of the puzzle.
    pub open spec fn fed(self, s: Seq<char>) -> Result<Draft, LevelError> {
        if s.len() == 0 || s[0] == ';' {
            Ok(self)
        } else if is_start(s) {
            let rest = trim_start(strip_starts(s));
            if rest.len() == 0 {
                Ok(self)
            } else {
                Ok(Draft { current: LevelView { first: kind_of(rest[0]), ..self.current }, ..self })
            }
        } else if s[0] == '#' {
            self.flushed()
        } else if s[0] == '*' {
            Ok(
                Draft {
                    current: LevelView {
                        corner: self.current.corner.push(corner_len(s)),
                        ..self.current
                    },
                    ..self
                },
            )
        } else {
            Ok(
                Draft {
                    current: LevelView {
                        puzzle: self.current.puzzle.push(row_of(s)),
                        ..self.current
                    },
                    ..self
                },
            )
        }
    }

    /// The draft after the lines of `text` from position `from` on, each
    /// taken without the white space at its end. What follows the last line
    /// feed is a line too, be it empty.
    pub open spec fn read(self, text: Seq<char>, from: int) -> Result<Draft, LevelError>
        decreases text.len() - from,
    {
        let end = line_end(text, from);
        match self.fed(trim_end(text.subrange(from, end))) {
            Err(e) => Err(e),
            Ok(next) => if 0 <= from <= end < text.len() {
                next.read(text, end + 1)
            } else {
                Ok(next)
            },
        }
    }
}

/// The levels that a text describes, or the first level in it that has a
/// fault. The level that the text ends in is closed like the others.
pub open spec fn parse_levels(text: Seq<char>) -> Result<Seq<LevelView>, LevelError> {
    match Draft::start().read(text, 0) {
        Err(e) => Err(e),
        Ok(draft) => match draft.flushed() {
            Err(e) => Err(e),
            Ok(done) => Ok(done.levels),
        },
    }
}

/// The levels of a list as plain values.
pub open spec fn views_of(levels: Seq<Level>) -> Seq<LevelView> {
    Seq::new(levels.len(), |i: int| levels[i]@)
}

/// A line that has no line feed up to a position ends where the line does
/// that begins at that position.
proof fn lemma_line_goes_on(text: Seq<char>, from: int, upto: int)
    requires
        0 <= from <= upto <= text.len(),
        forall|k: int| from <= k < upto ==> text[k] != '\n',
    ensures
        line_end(text, from) == line_end(text, upto),
    decreases upto - from,
{
    if from < upto {
        lemma_line_goes_on(text, from + 1, upto);
    }
}

/// What is being read, as the reader holds it.
struct Reader {
    levels: Vec<Level>,
    lvl: Level,
}

impl Reader {
    spec fn draft(&self) -> Draft {
        Draft { levels: views_of(self.levels@), current: self.lvl@ }
    }

    spec fn wf(&self) -> bool {
        all_valid(views_of(self.levels@))
    }

    /// Closes the level that is being described.
    fn flush(&mut self) -> (r: Result<(), LevelError>)
        requires
            old(self).wf(),
        ensures
            match old(self).draft().flushed() {
                Ok(d) => r is Ok && final(self).draft() == d,
                Err(e) => r == Err::<(), LevelError>(e),
            },
            final(self).wf(),
    {
        if self.lvl.puzzle.len() == 0 {
            return Ok(());
        }
        match Loader::validate_level(&self.lvl, self.levels.len()) {
            Err(e) => Err(e),
            Ok(()) => {
                let mut done: Level = Level::blank();
                std::mem::swap(&mut done, &mut self.lvl);
                self.levels.push(done);
                assert(views_of(self.levels@) =~= views_of(old(self).levels@).push(old(self).lvl@));
                Ok(())
            },
        }
    }

    /// Reads the line that the characters from `from` to `stop` make up.
    fn feed(&mut self, text: &Vec<char>, from: usize, stop: usize) -> (r: Result<(), LevelError>)
        requires
            old(self).wf(),
            from <= stop <= text@.len(),
        ensures
            match old(self).draft().fed(text@.subrange(from as int, stop as int)) {
                Ok(d) => r is Ok && final(self).draft() == d,
                Err(e) => r == Err::<(), LevelError>(e),
            },
            final(self).wf(),
    {
        let ghost s = text@.subrange(from as int, stop as int);
        if from == stop {
            return Ok(());
        }
        let head: char = text[from];
        assert(s[0] == head);
        if head == ';' {
            return Ok(());
        }
        if starts_at(text, from, stop) {
            let mut p: usize = from;
            while starts_at(text, p, stop)
                invariant
                    from <= p <= stop <= text@.len(),
                    strip_starts(s) == strip_starts(text@.subrange(p as int, stop as int)),
                decreases stop - p,
            {
                assert(text@.subrange(p as int, stop as int).skip(6) =~= text@.subrange(
                    p + 6,
                    stop as int,
                ));
                p = p + 6;
            }
            while p < stop && is_white(text[p])
                invariant
                    from <= p <= stop <= text@.len(),
                    trim_start(strip_starts(s)) == trim_start(
                        text@.subrange(p as int, stop as int),
                    ),
                decreases stop - p,
            {
                assert(text@.subrange(p as int, stop as int).drop_first() =~= text@.subrange(
                    p + 1,
                    stop as int,
                ));
                p = p + 1;
            }
            if p < stop {
                assert(text@.subrange(p as int, stop as int)[0] == text@[p as int]);
                self.lvl.first = c2brick(text[p]);
            }
            assert(self.lvl@.puzzle =~= old(self).lvl@.puzzle);
            return Ok(());
        }
        if head == '#' {
            return self.flush();
        }
        if head == '*' {
            let mut bytes: u8 = 0;
            let mut i: usize = from;
            assert(text@.subrange(from as int, from as int) =~= Seq::empty());
            while i < stop
                invariant
                    from <= i <= stop <= text@.len(),
                    bytes == corner_len(text@.subrange(from as int, i as int)),
                decreases stop - i,
            {
                let u: u32 = text[i] as u32;
                let w: u8 = if u < 0x80 {
                    1
                } else if u < 0x800 {
                    2
                } else if u < 0x10000 {
                    3
                } else {
                    4
                };
                assert(text@.subrange(from as int, i + 1).drop_last() =~= text@.subrange(
                    from as int,
                    i as int,
                ));
                assert(text@.subrange(from as int, i + 1).last() == text@[i as int]);
                bytes = if bytes > 255 - w {
                    255
                } else {
                    bytes + w
                };
                i = i + 1;
            }
            self.lvl.corner.push(bytes);
            assert(self.lvl@.puzzle =~= old(self).lvl@.puzzle);
            return Ok(());
        }
        let mut row: Vec<BrickKind> = Vec::new();
        let mut i: usize = from;
        while i < stop
            invariant
                from <= i <= stop <= text@.len(),
                row@.len() == i - from,
                forall|k: int| 0 <= k < row@.len() ==> row@[k] == kind_of(text@[from + k]),
            decreases stop - i,
        {
            row.push(c2brick(text[i]));
            i = i + 1;
        }
        assert(row@ =~= row_of(s));
        self.lvl.puzzle.push(row);
        assert(self.lvl@.puzzle =~= old(self).lvl@.puzzle.push(row_of(s)));
        Ok(())
    }
}

/// Whether the characters from `from` to `stop` begin with the start word.
fn starts_at(text: &Vec<char>, from: usize, stop: usize) -> (r: bool)
    requires
        from <= stop <= text@.len(),
    ensures
        r == is_start(text@.subrange(from as int, stop as int)),
{
    if stop - from < 6 {
        return false;
    }
    let r: bool = text[from] == 's' && text[from + 1] == 't' && text[from + 2] == 'a' && text[from
        + 3] == 'r' && text[from + 4] == 't' && text[from + 5] == ':';
    let ghost head = text@.subrange(from as int, stop as int).subrange(0, 6);
    proof {
        if r {
            assert(head =~= start_word());
        } else {
            assert(head[0] == text@[from as int]);
            assert(head[1] == text@[from + 1]);
            assert(head[2] == text@[from + 2]);
            assert(head[3] == text@[from + 3]);
            assert(head[4] == text@[from + 4]);
            assert(head[5] == text@[from + 5]);
        }
    }
    r
}

/// Reads levels from a text.
///
/// The text is taken line by line, and every line without the white space at
/// its end. A line that begins with `;` is a comment. A line that begins
/// with `#` closes the level before it. `start:` and a character set the
/// player's first brick, a joker if the line is missing. Lines that begin
/// with `*` are the corner pattern, each as long as the line. All other
/// lines are the rows of the puzzle, a character for a cell. Every level is
/// checked when it is closed; the first one with a fault ends the reading.
pub fn read_levels(text: &Vec<char>) -> (r: Result<Vec<Level>, LevelError>)
    ensures
        match parse_levels(text@) {
            Ok(levels) => r is Ok && views_of(r->Ok_0@) == levels && all_valid(levels),
            Err(e) => r == Err::<Vec<Level>, LevelError>(e),
        },
{
    let mut reader = Reader { levels: Vec::new(), lvl: Level::blank() };
    assert(views_of(reader.levels@) =~= Seq::empty());
    let n: usize = text.len();
    let mut from: usize = 0;
    let mut more: bool = true;
    while more
        invariant
            n == text@.len(),
            from <= n,
            reader.wf(),
            more ==> Draft::start().read(text@, 0) == reader.draft().read(text@, from as int),
            !more ==> Draft::start().read(text@, 0) == Ok::<Draft, LevelError>(reader.draft()),
        ensures
            Draft::start().read(text@, 0) == Ok::<Draft, LevelError>(reader.draft()),
            reader.wf(),
        decreases
                n - from + (if more {
                    1int
                } else {
                    0int
                }),
    {
        let mut end: usize = from;
        while end < n && text[end] != '\n'
            invariant
                n == text@.len(),
                from <= end <= n,
                forall|k: int| from <= k < end ==> text@[k] != '\n',
            decreases n - end,
        {
            end = end + 1;
        }
        proof {
            lemma_line_goes_on(text@, from as int, end as int);
        }
        let mut stop: usize = end;
        while stop > from && is_white(text[stop - 1])
            invariant
                from <= stop <= end <= n,
                n == text@.len(),
                trim_end(text@.subrange(from as int, end as int)) == trim_end(
                    text@.subrange(from as int, stop as int),
                ),
            decreases stop,
        {
            assert(text@.subrange(from as int, stop as int).drop_last() =~= text@.subrange(
                from as int,
                stop - 1,
            ));
            stop = stop - 1;
        }
        match reader.feed(text, from, stop) {
            Err(e) => {
                return Err(e);
            },
            Ok(()) => {},
        }
        if end < n {
            from = end + 1;
        } else {
            more = false;
        }
    }
    match reader.flush() {
        Err(e) => Err(e),
        Ok(()) => Ok(reader.levels),
    }
}

impl Loader {
    /// Reads all levels from `pset`. A level with a fault is refused with
    /// its number, and no loader is made.
    pub fn new(pset: &str) -> (r: Result<Loader, LevelError>)
        ensures
            match parse_levels(pset@) {
                Ok(levels) => r is Ok && r->Ok_0@ == levels && r->Ok_0.wf(),
                Err(e) => r == Err::<Loader, LevelError>(e),
            },
    {
        let mut loader = Loader { levels: Vec::new() };
        match loader.load_from_string(pset) {
            Ok(()) => Ok(loader),
            Err(e) => Err(e),
        }
    }

    /// Drops the levels held and reads all levels from `pset`. Where a level
    /// has a fault, it is refused with its number and no level is held.
    pub fn load_from_string(&mut self, pset: &str) -> (r: Result<(), LevelError>)
        ensures
            match parse_levels(pset@) {
                Ok(levels) => r is Ok && final(self)@ == levels,
                Err(e) => r == Err::<(), LevelError>(e) && final(self)@.len() == 0,
            },
            final(self).wf(),
    {
        self.levels.clear();
        let text: Vec<char> = chars_of(pset);
        match read_levels(&text) {
            Ok(levels) => {
                self.levels = levels;
                assert(self@ =~= views_of(self.levels@));
                Ok(())
            },
            Err(e) => {
                assert(self@ =~= Seq::empty());
                Err(e)
            },
        }
    }
}

} // verus!

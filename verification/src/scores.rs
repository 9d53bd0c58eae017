//! Per-level progress: attempts, wins, the best number of throws, the day of
//! the first win, and whether help was asked for before it.

use vstd::prelude::*;

verus! {

/// No hiscore above this number is stored.
pub const HISCORE_CAP: u32 = 999;

/// What is known of one level.
#[derive(Debug, Copy, Clone, PartialEq, Eq, Structural)]
pub struct Score {
    /// Attempts to solve the puzzle.
    pub attempts: u32,
    /// Number of times the puzzle was solved.
    pub wins: u32,
    /// Fewest throws the puzzle was solved with; zero while it is unsolved.
    pub hiscore: u32,
    /// Day of the first win, counted from 1 January of year 1 as day 1.
    pub first_win: i32,
    /// Help was used before any win.
    pub help_used: bool,
}

impl Score {
    /// The score of a level that was never played.
    pub open spec fn blank() -> Score {
        Score { attempts: 0, wins: 0, hiscore: 0, first_win: 0, help_used: false }
    }

    /// The score after one more win with `throws` throws on day `today`.
    pub open spec fn won(self, throws: u32, today: i32) -> Score {
        Score {
            attempts: (self.attempts + 1) as u32,
            wins: (self.wins + 1) as u32,
            first_win: if self.wins == 0 {
                today
            } else {
                self.first_win
            },
            hiscore: if self.hiscore == 0 || self.hiscore > throws {
                if throws > HISCORE_CAP {
                    HISCORE_CAP
                } else {
                    throws
                }
            } else {
                self.hiscore
            },
            ..self
        }
    }

    /// The score after one more failed attempt.
    pub open spec fn failed(self) -> Score {
        Score { attempts: (self.attempts + 1) as u32, ..self }
    }

    /// The score after help was asked for: marked only while unsolved.
    pub open spec fn helped(self) -> Score {
        if self.wins == 0 {
            Score { help_used: true, ..self }
        } else {
            self
        }
    }

    /// Whether both counters can still be raised by one.
    pub open spec fn has_room(self) -> bool {
        self.attempts < u32::MAX && self.wins < u32::MAX
    }
}

impl Default for Score {
    fn default() -> (s: Score)
        ensures
            s == Score::blank(),
    {
        Score { attempts: 0, wins: 0, hiscore: 0, first_win: 0, help_used: false }
    }
}

/// The table that is kept between sessions.
pub struct ScoreVec {
    /// Highest level that the player may start from.
    pub max_level: usize,
    /// Scores by level number.
    pub levels: Vec<Score>,
}

/// What was found where the table is kept.
pub enum StoredScores {
    /// Nothing was ever stored.
    Missing,
    /// Something is stored that could not be read or understood.
    Unreadable,
    /// The stored table.
    Found(ScoreVec),
}

/// The table of scores as a plain value.
pub struct ScoresView {
    pub max_level: usize,
    pub levels: Seq<Score>,
    pub curr_level: usize,
    pub lvl_cnt: usize,
}

impl ScoresView {
    /// The table before anything was loaded into it.
    pub open spec fn fresh(lvl_cnt: usize) -> ScoresView {
        ScoresView { max_level: 1, levels: Seq::empty(), curr_level: 1, lvl_cnt }
    }

    /// The table after a look at what was stored. Nothing stored: one blank
    /// score is entered. Unreadable: nothing changes. A stored table replaces
    /// this one, the current level becomes the highest available one, and an
    /// empty table gets one blank score.
    pub open spec fn loaded(self, found: Option<(usize, Seq<Score>)>, missing: bool) -> ScoresView {
        match found {
            Some((max_level, levels)) => ScoresView {
                max_level,
                curr_level: max_level,
                levels: if levels.len() == 0 {
                    seq![Score::blank()]
                } else {
                    levels
                },
                ..self
            },
            None => if missing {
                ScoresView { levels: self.levels.push(Score::blank()), ..self }
            } else {
                self
            },
        }
    }

    /// The score of level `lvl_no`: blank where the table does not reach.
    pub open spec fn level_info(self, lvl_no: int) -> Score {
        if 0 <= lvl_no < self.levels.len() {
            self.levels[lvl_no]
        } else {
            Score::blank()
        }
    }

    /// The scores, with blank ones added until level `lvl_no` has one.
    pub open spec fn padded(self, lvl_no: int) -> Seq<Score> {
        if lvl_no < self.levels.len() {
            self.levels
        } else {
            self.levels + Seq::new((lvl_no + 1 - self.levels.len()) as nat, |i: int| Score::blank())
        }
    }

    /// Whether a win or a failure can be entered for level `lvl_no`: the level
    /// exists, the table reaches it or ends at most two before it, and its
    /// counters have room.
    pub open spec fn can_record(self, lvl_no: int) -> bool {
        &&& 0 <= lvl_no < self.lvl_cnt
        &&& lvl_no <= self.levels.len() + 1
        &&& self.level_info(lvl_no).has_room()
    }

    /// Whether a failure can be entered for level `lvl_no`: the level exists,
    /// the table reaches it or ends at most two before it, and its count of
    /// attempts has room.
    pub open spec fn can_fail(self, lvl_no: int) -> bool {
        &&& 0 <= lvl_no < self.lvl_cnt
        &&& lvl_no <= self.levels.len() + 1
        &&& self.level_info(lvl_no).attempts < u32::MAX
    }

    /// The table after a win on level `lvl_no` with `throws` throws on day
    /// `today`. Unless the level is the last one, the next level becomes the
    /// current one, and available if it was not.
    pub open spec fn won(self, lvl_no: int, throws: u32, today: i32) -> ScoresView {
        let levels = self.padded(lvl_no);
        let next = (lvl_no + 1) as usize;
        let advance = lvl_no < self.lvl_cnt - 1;
        ScoresView {
            levels: levels.update(lvl_no, levels[lvl_no].won(throws, today)),
            max_level: if advance && next > self.max_level {
                next
            } else {
                self.max_level
            },
            curr_level: if advance {
                next
            } else {
                self.curr_level
            },
            ..self
        }
    }

    /// The table after a failed attempt at level `lvl_no`.
    pub open spec fn failed(self, lvl_no: int) -> ScoresView {
        let levels = self.padded(lvl_no);
        ScoresView { levels: levels.update(lvl_no, levels[lvl_no].failed()), ..self }
    }

    /// The table after help was asked for on level `lvl_no`.
    pub open spec fn helped(self, lvl_no: int) -> ScoresView {
        ScoresView { levels: self.levels.update(lvl_no, self.levels[lvl_no].helped()), ..self }
    }

    /// The current level after a step of `delta` upwards: it stops at the
    /// highest available level.
    pub open spec fn raised(self, delta: usize) -> usize {
        if self.curr_level + delta < self.max_level {
            (self.curr_level + delta) as usize
        } else {
            self.max_level
        }
    }

    /// The current level after a step of `delta` downwards: it stops at
    /// level 1.
    pub open spec fn lowered(self, delta: usize) -> usize {
        if self.curr_level - 1 > delta {
            (self.curr_level - delta) as usize
        } else {
            1
        }
    }
}

/// The name of what chrono's `NaiveDate::from_num_days_from_ce_opt` makes of a
/// day count: year, month and day of the month, or nothing where chrono has no
/// such date.
pub uninterp spec fn civil_date(days: i32) -> Option<(i32, u32, u32)>;

/// The date as it is shown: the year's last two digits, the month, the day.
/// A negative year is taken as the 32-bit pattern of its two's complement.
pub open spec fn short_date(date: (i32, u32, u32)) -> (u32, u32, u32) {
    let year = if date.0 >= 0 {
        date.0 as int
    } else {
        date.0 + 0x1_0000_0000
    };
    ((year % 100) as u32, date.1, date.2)
}

/// Calls chrono's `Local::now`, takes the local date of it and counts its
/// days from 1 January of year 1 with `Datelike::num_days_from_ce`. The result
/// depends on the clock. All that is claimed of it is that it is a day after
/// the count began: chrono reads no clock that stands before 1970, and local
/// time is less than a day from that. Where the clock stands before 1970, or
/// no local time can be had, chrono does not return.
#[verifier::external_body]
pub(crate) fn today() -> (r: i32)
    ensures
        r > 0,
{
    chrono::Datelike::num_days_from_ce(&chrono::Local::now().naive_local())
}

/// The day to enter: the day given, if one is given; else the day that the
/// clock gives, read only if the day is needed, and day 0 if it is not.
pub(crate) fn pick_day(day: Option<i32>, needed: bool) -> (r: i32)
    ensures
        day matches Some(d) ==> r == d,
        day is None && needed ==> r > 0,
        day is None && !needed ==> r == 0,
{
    match day {
        Some(d) => d,
        None => if needed {
            today()
        } else {
            0
        },
    }
}

/// Calls chrono's `NaiveDate::from_num_days_from_ce_opt` and takes year, month
/// and day out of the date. The result is a function of `days` alone; it is
/// named, not described.
#[verifier::external_body]
fn date_from_days(days: i32) -> (r: Option<(i32, u32, u32)>)
    ensures
        r == civil_date(days),
{
    match chrono::NaiveDate::from_num_days_from_ce_opt(days) {
        Some(d) => Some(
            (chrono::Datelike::year(&d), chrono::Datelike::month(&d), chrono::Datelike::day(&d)),
        ),
        None => None,
    }
}

/// Shortens a date for display: the year's last two digits, month, day.
pub fn shorten_date(date: (i32, u32, u32)) -> (r: (u32, u32, u32))
    ensures
        r == short_date(date),
{
    let year: i64 = if date.0 >= 0 {
        date.0 as i64
    } else {
        date.0 as i64 + 0x1_0000_0000
    };
    ((year % 100) as u32, date.1, date.2)
}

impl Score {
    /// The date of the first win as it is shown, if there was a win and the
    /// calendar has a date for its day.
    pub open spec fn first_win_date(self) -> Option<(u32, u32, u32)> {
        if self.first_win > 0 {
            match civil_date(self.first_win) {
                Some(d) => Some(short_date(d)),
                None => None,
            }
        } else {
            None
        }
    }

    /// Returns the date of the first win as it is shown: the year's last two
    /// digits, the month and the day; nothing while the level is unsolved.
    pub fn solved_on(&self) -> (r: Option<(u32, u32, u32)>)
        ensures
            r == self.first_win_date(),
    {
        if self.first_win > 0 {
            match date_from_days(self.first_win) {
                Some(d) => Some(shorten_date(d)),
                None => None,
            }
        } else {
            None
        }
    }
}

/// The scores of all levels, the level that is played, and the number of
/// levels.
pub struct Scores {
    scores: ScoreVec,
    curr_level: usize,
    lvl_cnt: usize,
}

impl View for Scores {
    type V = ScoresView;

    closed spec fn view(&self) -> ScoresView {
        ScoresView {
            max_level: self.scores.max_level,
            levels: self.scores.levels@,
            curr_level: self.curr_level,
            lvl_cnt: self.lvl_cnt,
        }
    }
}

impl StoredScores {
    /// The stored table as a plain value, if one was found.
    pub open spec fn found(self) -> Option<(usize, Seq<Score>)> {
        match self {
            StoredScores::Found(t) => Some((t.max_level, t.levels@)),
            _ => None,
        }
    }
}

impl Scores {
    /// Creates the table for `lvl_cnt` levels and loads what was stored.
    pub fn new(lvl_cnt: usize, stored: StoredScores) -> (sc: Scores)
        ensures
            sc@ == ScoresView::fresh(lvl_cnt).loaded(stored.found(), stored is Missing),
    {
        let mut sc = Scores {
            scores: ScoreVec { levels: Vec::new(), max_level: 1 },
            curr_level: 1,
            lvl_cnt,
        };
        sc.load(stored);
        sc
    }

    /// Takes over what was stored. Where nothing was stored, the table gets a
    /// blank score for the first level; where the store was unreadable, the
    /// table stays as it is.
    pub fn load(&mut self, stored: StoredScores)
        ensures
            final(self)@ == old(self)@.loaded(stored.found(), stored is Missing),
    {
        match stored {
            StoredScores::Missing => {
                self.scores.levels.push(Score::default());
            },
            StoredScores::Unreadable => {},
            StoredScores::Found(table) => {
                self.scores = table;
                self.curr_level = self.scores.max_level;
                if self.scores.levels.len() == 0 {
                    self.scores.levels.push(Score::default());
                    assert(self.scores.levels@ =~= seq![Score::blank()]);
                }
            },
        }
    }

    /// The table that is to be kept between sessions.
    pub fn table(&self) -> (t: &ScoreVec)
        ensures
            t.max_level == self@.max_level,
            t.levels@ == self@.levels,
    {
        &self.scores
    }

    /// Returns the score of level `lvl_no`, blank if the level has none yet.
    pub fn level_info(&self, lvl_no: usize) -> (s: Score)
        ensures
            s == self@.level_info(lvl_no as int),
    {
        if self.scores.levels.len() > lvl_no {
            self.scores.levels[lvl_no]
        } else {
            Score::default()
        }
    }

    /// Whether a win or a failure can be entered for level `lvl_no`.
    pub fn can_record(&self, lvl_no: usize) -> (r: bool)
        ensures
            r == self@.can_record(lvl_no as int),
    {
        if lvl_no >= self.lvl_cnt {
            return false;
        }
        let len: usize = self.scores.levels.len();
        if lvl_no >= 1 && lvl_no - 1 > len {
            return false;
        }
        let info: Score = self.level_info(lvl_no);
        info.attempts < u32::MAX && info.wins < u32::MAX
    }

    /// Whether a failure can be entered for level `lvl_no`.
    pub fn can_fail(&self, lvl_no: usize) -> (r: bool)
        ensures
            r == self@.can_fail(lvl_no as int),
    {
        if lvl_no >= self.lvl_cnt {
            return false;
        }
        let len: usize = self.scores.levels.len();
        if lvl_no >= 1 && lvl_no - 1 > len {
            return false;
        }
        self.level_info(lvl_no).attempts < u32::MAX
    }

    /// Whether the table has a score for level `lvl_no`.
    pub fn has_level(&self, lvl_no: usize) -> (r: bool)
        ensures
            r == (lvl_no < self@.levels.len()),
    {
        lvl_no < self.scores.levels.len()
    }

    /// Adds blank scores until level `lvl_no` has one.
    fn pad(&mut self, lvl_no: usize)
        ensures
            final(self)@ == (ScoresView { levels: old(self)@.padded(lvl_no as int), ..old(self)@ }),
            final(self)@.levels.len() > lvl_no,
    {
        let ghost before = self.scores.levels@;
        while self.scores.levels.len() <= lvl_no
            invariant
                self.scores.max_level == old(self).scores.max_level,
                self.curr_level == old(self).curr_level,
                self.lvl_cnt == old(self).lvl_cnt,
                before == old(self).scores.levels@,
                before.len() <= self.scores.levels@.len(),
                self.scores.levels@.len() <= lvl_no + 1 || self.scores.levels@ == before,
                self.scores.levels@ =~= before + Seq::new(
                    (self.scores.levels@.len() - before.len()) as nat,
                    |i: int| Score::blank(),
                ),
            decreases lvl_no + 1 - self.scores.levels.len(),
        {
            self.scores.levels.push(Score::default());
        }
        assert(self@.levels =~= old(self)@.padded(lvl_no as int));
    }

    /// Enters a win on level `lvl_no` with `throws` throws, on the day that
    /// the clock gives. The day counts only if this is the first win: then it
    /// is stored, and it is a day after the count of days began; later wins
    /// leave it alone.
    pub fn set_win(&mut self, lvl_no: usize, throws: u32)
        requires
            old(self)@.can_record(lvl_no as int),
        ensures
            final(self)@ == old(self)@.won(
                lvl_no as int,
                throws,
                final(self)@.levels[lvl_no as int].first_win,
            ),
            old(self)@.level_info(lvl_no as int).wins == 0 ==> final(self)@.level_info(
                lvl_no as int,
            ).first_win > 0,
            old(self)@.level_info(lvl_no as int).wins != 0 ==> final(self)@.level_info(
                lvl_no as int,
            ).first_win == old(self)@.level_info(lvl_no as int).first_win,
            final(self)@.level_info(lvl_no as int).wins == old(self)@.level_info(
                lvl_no as int,
            ).wins + 1,
            final(self)@.level_info(lvl_no as int).attempts == old(self)@.level_info(
                lvl_no as int,
            ).attempts + 1,
            final(self)@.level_info(lvl_no as int).hiscore == old(self)@.level_info(
                lvl_no as int,
            ).won(throws, 0).hiscore,
            forall|k: int|
                k != lvl_no ==> #[trigger] final(self)@.level_info(k) == old(self)@.level_info(k),
    {
        let day: i32 = today();
        proof {
            lemma_win_recorded(old(self)@, lvl_no as int, throws, day);
        }
        self.record_win(lvl_no, throws, day);
        assert(self@.levels =~= old(self)@.won(
            lvl_no as int,
            throws,
            self@.levels[lvl_no as int].first_win,
        ).levels);
    }

    /// Enters a win on level `lvl_no` with `throws` throws on day `today`:
    /// one more attempt and one more win; the first win keeps the day; the
    /// hiscore becomes `throws`, capped, if there was none or a higher one.
    /// Unless the level is the last one, the next level becomes the current
    /// one.
    pub fn record_win(&mut self, lvl_no: usize, throws: u32, today: i32)
        requires
            old(self)@.can_record(lvl_no as int),
        ensures
            final(self)@ == old(self)@.won(lvl_no as int, throws, today),
    {
        self.pad(lvl_no);
        let mut curr: Score = self.scores.levels[lvl_no];
        curr.wins = curr.wins + 1;
        curr.attempts = curr.attempts + 1;
        if curr.wins == 1 {
            curr.first_win = today;
        }
        if curr.hiscore == 0 || curr.hiscore > throws {
            curr.hiscore = if throws > HISCORE_CAP {
                HISCORE_CAP
            } else {
                throws
            };
        }
        self.scores.levels.set(lvl_no, curr);
        if lvl_no < self.lvl_cnt - 1 {
            if lvl_no + 1 > self.scores.max_level {
                self.scores.max_level = lvl_no + 1;
            }
            self.curr_level = lvl_no + 1;
        }
    }

    /// Enters a failed attempt at level `lvl_no`: the level has one more
    /// attempt, and nothing else changes.
    pub fn set_fail(&mut self, lvl_no: usize)
        requires
            old(self)@.can_fail(lvl_no as int),
        ensures
            final(self)@ == old(self)@.failed(lvl_no as int),
            final(self)@.level_info(lvl_no as int) == old(self)@.level_info(lvl_no as int).failed(),
            forall|k: int|
                k != lvl_no ==> #[trigger] final(self)@.level_info(k) == old(self)@.level_info(k),
    {
        proof {
            let levels = old(self)@.padded(lvl_no as int);
            assert(levels[lvl_no as int] == old(self)@.level_info(lvl_no as int));
            assert forall|k: int| k != lvl_no implies #[trigger] old(self)@.failed(
                lvl_no as int,
            ).level_info(k) == old(self)@.level_info(k) by {
                if 0 <= k < levels.len() {
                    assert(levels[k] == old(self)@.level_info(k));
                }
            }
        }
        self.pad(lvl_no);
        let mut curr: Score = self.scores.levels[lvl_no];
        curr.attempts = curr.attempts + 1;
        self.scores.levels.set(lvl_no, curr);
    }

    /// Marks level `lvl_no` as one that help was asked for, unless it has been
    /// solved already. Returns whether the table changed.
    pub fn set_help_used(&mut self, lvl_no: usize) -> (changed: bool)
        requires
            lvl_no < old(self)@.levels.len(),
        ensures
            final(self)@ == old(self)@.helped(lvl_no as int),
            changed == (old(self)@.levels[lvl_no as int].wins == 0),
    {
        let mut curr: Score = self.scores.levels[lvl_no];
        if curr.wins == 0 {
            curr.help_used = true;
            self.scores.levels.set(lvl_no, curr);
            true
        } else {
            assert(self@.levels =~= old(self)@.helped(lvl_no as int).levels);
            false
        }
    }

    /// Highest level that the player may start from.
    pub fn max_avail_level(&self) -> (l: usize)
        ensures
            l == self@.max_level,
    {
        self.scores.max_level
    }

    /// The level that is played.
    pub fn curr_level(&self) -> (l: usize)
        ensures
            l == self@.curr_level,
    {
        self.curr_level
    }

    /// Number of levels.
    pub fn level_count(&self) -> (n: usize)
        ensures
            n == self@.lvl_cnt,
    {
        self.lvl_cnt
    }

    /// Raises the current level by `delta`, but not beyond the highest
    /// available level. Returns the new current level.
    pub fn inc_curr_level(&mut self, delta: usize) -> (l: usize)
        ensures
            l == old(self)@.raised(delta),
            final(self)@ == (ScoresView { curr_level: l, ..old(self)@ }),
    {
        if delta < self.scores.max_level && self.curr_level < self.scores.max_level - delta {
            self.curr_level = self.curr_level + delta;
        } else {
            self.curr_level = self.scores.max_level;
        }
        self.curr_level
    }

    /// Lowers the current level by `delta`, but not below level 1. Returns the
    /// new current level.
    pub fn dec_curr_level(&mut self, delta: usize) -> (l: usize)
        ensures
            l == old(self)@.lowered(delta),
            final(self)@ == (ScoresView { curr_level: l, ..old(self)@ }),
    {
        if self.curr_level >= 1 && self.curr_level - 1 > delta {
            self.curr_level = self.curr_level - delta;
        } else {
            self.curr_level = 1;
        }
        self.curr_level
    }
}

/// The first win on a level makes its wins 1, keeps the day, and makes the
/// hiscore the number of throws, capped.
pub proof fn lemma_first_win(s: Score, throws: u32, today: i32)
    requires
        s.wins == 0,
        s.hiscore == 0,
    ensures
        s.won(throws, today).wins == 1,
        s.won(throws, today).first_win == today,
        s.won(throws, today).hiscore == if throws > HISCORE_CAP {
            HISCORE_CAP
        } else {
            throws
        },
{
}

/// A win that took at least as many throws as the stored hiscore leaves the
/// hiscore alone, and no later win changes the day of the first.
pub proof fn lemma_later_win(s: Score, throws: u32, today: i32)
    requires
        s.wins > 0,
        s.hiscore != 0,
        throws >= s.hiscore,
    ensures
        s.won(throws, today).hiscore == s.hiscore,
        s.won(throws, today).first_win == s.first_win,
{
}

/// A win with fewer throws than the stored hiscore lowers the hiscore to it.
pub proof fn lemma_better_win(s: Score, throws: u32, today: i32)
    requires
        throws < s.hiscore,
    ensures
        s.won(throws, today).hiscore == throws || (throws > HISCORE_CAP && s.won(
            throws,
            today,
        ).hiscore == HISCORE_CAP),
{
}

/// What a win does to the table. The score of the level has one more win
/// and one more attempt; the first win stores the day, and a later one keeps
/// the day that is stored; the hiscore becomes the number of throws, capped,
/// if there was none or a larger one, and else stays. The score of every
/// other level stays as it is.
pub proof fn lemma_win_recorded(s: ScoresView, lvl_no: int, throws: u32, today: i32)
    requires
        s.can_record(lvl_no),
    ensures
        ({
            let before = s.level_info(lvl_no);
            let after = s.won(lvl_no, throws, today).level_info(lvl_no);
            &&& after == before.won(throws, today)
            &&& after.wins == before.wins + 1
            &&& after.attempts == before.attempts + 1
            &&& after.first_win == if before.wins == 0 {
                today
            } else {
                before.first_win
            }
            &&& after.hiscore == if before.hiscore == 0 || before.hiscore > throws {
                if throws > HISCORE_CAP {
                    HISCORE_CAP
                } else {
                    throws
                }
            } else {
                before.hiscore
            }
            &&& after.help_used == before.help_used
        }),
        forall|k: int|
            k != lvl_no ==> #[trigger] s.won(lvl_no, throws, today).level_info(k) == s.level_info(
                k,
            ),
{
    let levels = s.padded(lvl_no);
    assert(levels.len() > lvl_no);
    assert(levels[lvl_no] == s.level_info(lvl_no));
    assert forall|k: int| k != lvl_no implies #[trigger] s.won(lvl_no, throws, today).level_info(
        k,
    ) == s.level_info(k) by {
        if 0 <= k < levels.len() {
            assert(levels[k] == s.level_info(k));
        }
    }
}

} // verus!

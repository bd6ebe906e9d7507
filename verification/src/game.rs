use vstd::prelude::*;

use crate::digits::{dec_digits, lemma_dec_digits_fit_overlay, lemma_dec_digits_len_le, pow10,
    u128_to_dec};
use crate::rng::get_random_num;
use crate::view::{apply_block, cell_write, const_grid, glyph_grid, grid_view, set_cell,
    write_chars, written, Dimension, GameView, Hole, Marmot};

verus! {

/// The column where all overlay text begins.
pub const OVERLAY_COL: usize = 50;

/// The row of the one-shot end-of-game message.
pub const OVER_ROW: usize = 5;

/// The row of the score overlay.
pub const SCORE_ROW: usize = 9;

/// The row of the remaining-time overlay.
pub const TIME_ROW: usize = 11;

/// The row of the quit prompt.
pub const PROMPT_ROW: usize = 13;

/// Scores above this overlay bound would run the score text off the
/// field: twelve digits are the most the overlay region can hold.
pub const SCORE_TEXT_LIMIT: u128 = 1000000000000;

/// The score threshold past which the one-shot win banner fires.
pub const WIN_THRESHOLD: u128 = 1024;

/// Whether the round is still being played or has stopped, by running
/// out of time or by reaching the win threshold.
#[derive(Clone, Copy, PartialEq, Eq, Structural, Debug)]
pub enum GameState {
    Stopped,
    Playing,
}

/// The one shared game instance: the rendered field, the run status,
/// the score counter and the remaining seconds.
pub struct Game {
    pub view: GameView,
    pub state: GameState,
    pub scores: u128,
    pub time: u8,
}

/// The score overlay line.
pub open spec fn score_text(scores: u128) -> Seq<char> {
    seq!['S', 'c', 'o', 'r', 'e', 's', ':', ' '] + dec_digits(scores)
}

/// The remaining-time overlay line.
pub open spec fn time_text(time: u8) -> Seq<char> {
    seq!['T', 'i', 'm', 'e', ':', ' '] + dec_digits(time as u128)
}

/// The end-of-game overlay line.
pub open spec fn game_over_text() -> Seq<char> {
    seq!['G', 'a', 'm', 'e', ' ', 'i', 's', ' ', 'O', 'v', 'e', 'r', '!']
}

/// The quit prompt line.
pub open spec fn quit_text() -> Seq<char> {
    seq!['q', ':', ' ', 'q', 'u', 'i', 't', ' ', 't', 'h', 'e', ' ', 'g', 'a', 'm', 'e']
}

/// A score below the overlay bound prints in at most twelve digits, so
/// its overlay line stays within the field's seventy columns.
pub proof fn lemma_score_text_fits(scores: u128)
    requires
        scores < SCORE_TEXT_LIMIT,
    ensures
        9 <= score_text(scores).len() <= 20,
{
    lemma_dec_digits_fit_overlay(scores);
}

/// A remaining time, at most 255, prints in at most three digits.
pub proof fn lemma_time_text_fits(time: u8)
    ensures
        7 <= time_text(time).len() <= 9,
{
    reveal_with_fuel(pow10, 4);
    lemma_dec_digits_len_le(time as u128, 3);
    crate::digits::lemma_dec_digits_len_ge(time as u128);
}

fn score_line(scores: u128) -> (r: Vec<char>)
    ensures
        r@ == score_text(scores),
{
    let mut r: Vec<char> = Vec::new();
    r.push('S');
    r.push('c');
    r.push('o');
    r.push('r');
    r.push('e');
    r.push('s');
    r.push(':');
    r.push(' ');
    let mut d = u128_to_dec(scores);
    r.append(&mut d);
    proof {
        assert(r@ =~= score_text(scores));
    }
    r
}

fn time_line(time: u8) -> (r: Vec<char>)
    ensures
        r@ == time_text(time),
{
    let mut r: Vec<char> = Vec::new();
    r.push('T');
    r.push('i');
    r.push('m');
    r.push('e');
    r.push(':');
    r.push(' ');
    let mut d = u128_to_dec(time as u128);
    r.append(&mut d);
    proof {
        assert(r@ =~= time_text(time));
    }
    r
}

fn game_over_line() -> (r: Vec<char>)
    ensures
        r@ == game_over_text(),
{
    let mut r: Vec<char> = Vec::new();
    r.push('G');
    r.push('a');
    r.push('m');
    r.push('e');
    r.push(' ');
    r.push('i');
    r.push('s');
    r.push(' ');
    r.push('O');
    r.push('v');
    r.push('e');
    r.push('r');
    r.push('!');
    proof {
        assert(r@ =~= game_over_text());
    }
    r
}

fn quit_line() -> (r: Vec<char>)
    ensures
        r@ == quit_text(),
{
    let mut r: Vec<char> = Vec::new();
    r.push('q');
    r.push(':');
    r.push(' ');
    r.push('q');
    r.push('u');
    r.push('i');
    r.push('t');
    r.push(' ');
    r.push('t');
    r.push('h');
    r.push('e');
    r.push(' ');
    r.push('g');
    r.push('a');
    r.push('m');
    r.push('e');
    proof {
        assert(r@ =~= quit_text());
    }
    r
}

/// The center coordinate of hole `k` in the standard three-by-three
/// layout: boxes 8 wide by 4 tall starting at (3, 3), spaced by 12
/// columns and 6 rows, row major.
pub open spec fn standard_hole(k: int) -> Hole {
    Hole { x: (7 + 12 * (k % 3)) as usize, y: (5 + 6 * (k / 3)) as usize }
}

/// The frame rectangle of hole `k` in the standard layout, as
/// (top, bottom, left, right).
pub open spec fn standard_rect(k: int) -> (int, int, int, int) {
    (3 + 6 * (k / 3), 7 + 6 * (k / 3), 3 + 12 * (k % 3), 11 + 12 * (k % 3))
}

/// The mask grid after the first `n` hole frames of the standard layout
/// are built on `g`, in registry order.
pub open spec fn frames_applied(g: Seq<Seq<usize>>, n: int) -> Seq<Seq<usize>>
    decreases n,
{
    if n <= 0 {
        g
    } else {
        apply_block(
            frames_applied(g, n - 1),
            standard_rect(n - 1).0,
            standard_rect(n - 1).1,
            standard_rect(n - 1).2,
            standard_rect(n - 1).3,
        )
    }
}

/// The wall-bitmask grid of the whole standard field: the outer border,
/// the inner divider, then the nine hole frames, merged in that order
/// (though any order gives the same grid).
pub open spec fn standard_masks() -> Seq<Seq<usize>> {
    frames_applied(
        apply_block(apply_block(const_grid(25, 70, 0usize), 0, 24, 0, 69), 0, 24, 0, 40),
        9,
    )
}

/// Distinct holes of the standard layout sit on distinct cells, so a
/// write to one hole's cell never touches another's.
pub proof fn lemma_standard_holes_distinct(k1: int, k2: int)
    requires
        0 <= k1 < 9,
        0 <= k2 < 9,
        k1 != k2,
    ensures
        standard_hole(k1) != standard_hole(k2),
{
    vstd::arithmetic::div_mod::lemma_fundamental_div_mod(k1, 3);
    vstd::arithmetic::div_mod::lemma_fundamental_div_mod(k2, 3);
}

/// Every hole of the standard layout sits left of the overlay column,
/// so no overlay write can touch a hole's cell.
pub proof fn lemma_standard_holes_off_overlays(k: int)
    requires
        0 <= k < 9,
    ensures
        standard_hole(k).x < OVERLAY_COL,
        standard_hole(k).y != SCORE_ROW,
        standard_hole(k).x < 70,
        standard_hole(k).y < 25,
{
    vstd::arithmetic::div_mod::lemma_fundamental_div_mod(k, 3);
}

/// Whether cell `(x, y)` is the center of one of the first `n` holes.
pub open spec fn hole_cell_among(holes: Seq<Hole>, n: int, x: int, y: int) -> bool {
    exists|k: int| 0 <= k < n && (#[trigger] holes[k]).x == x && holes[k].y == y
}

/// What one strike does to the appearance flags and the score: a hole
/// showing a target is struck, which clears its flag and adds ten
/// points; a hole without one changes nothing.
pub open spec fn strike_outcome(appeared: Seq<bool>, scores: u128, idx: int) -> (Seq<bool>, u128) {
    if appeared[idx] {
        (appeared.update(idx, false), (scores + 10) as u128)
    } else {
        (appeared, scores)
    }
}

/// Striking the same hole twice in succession, with no spawn tick in
/// between, scores only once: the first strike clears the appearance
/// flag, so the second finds it cleared and changes nothing.
pub proof fn lemma_strike_idempotent(appeared: Seq<bool>, scores: u128, idx: int)
    requires
        0 <= idx < appeared.len(),
        scores + 10 <= u128::MAX,
    ensures
        strike_outcome(
            strike_outcome(appeared, scores, idx).0,
            strike_outcome(appeared, scores, idx).1,
            idx,
        ) == strike_outcome(appeared, scores, idx),
{
}

/// What one timer tick does to the remaining time and the run status:
/// a stopped game is left alone; otherwise the time falls by exactly
/// one until it reaches zero, and on the tick after that the status
/// flips to stopped, once and for all.
pub open spec fn timer_outcome(time: u8, playing: bool) -> (u8, bool) {
    if !playing {
        (time, false)
    } else if time > 0 {
        ((time - 1) as u8, true)
    } else {
        (0, false)
    }
}

/// The time and status after `k` timer ticks.
pub open spec fn timer_outcome_n(time: u8, playing: bool, k: nat) -> (u8, bool)
    decreases k,
{
    if k == 0 {
        (time, playing)
    } else {
        timer_outcome(
            timer_outcome_n(time, playing, (k - 1) as nat).0,
            timer_outcome_n(time, playing, (k - 1) as nat).1,
        )
    }
}

/// Time never increases; a tick of a running game with time left takes
/// exactly one second; and a stopped game stays stopped, with its time
/// frozen.
pub proof fn lemma_timer_monotone(time: u8, playing: bool)
    ensures
        timer_outcome(time, playing).0 <= time,
        playing && time > 0 ==> timer_outcome(time, playing) == ((time - 1) as u8, true),
        playing && time == 0 ==> timer_outcome(time, playing) == (0u8, false),
        !playing ==> timer_outcome(time, playing) == (time, false),
{
}

/// From a running game, `k` ticks leave `time - k` seconds while `k` is
/// within the initial time; the game still runs through the tick that
/// reaches zero, stops on the next, and never starts again: the status
/// transitions to stopped exactly once.
pub proof fn lemma_timer_runs_out(time: u8, k: nat)
    ensures
        timer_outcome_n(time, true, k).0 == if k <= time {
            (time - k) as u8
        } else {
            0u8
        },
        timer_outcome_n(time, true, k).1 == (k <= time),
    decreases k,
{
    if k > 0 {
        lemma_timer_runs_out(time, (k - 1) as nat);
    }
}

/// A stopped game is a fixed point of the timer: no further tick moves
/// the time or revives the game.
pub proof fn lemma_stopped_stays_stopped(time: u8, k: nat)
    ensures
        timer_outcome_n(time, false, k) == (time, false),
    decreases k,
{
    if k > 0 {
        lemma_stopped_stays_stopped(time, (k - 1) as nat);
    }
}

/// Whether the win banner fires: the score has crossed the threshold
/// and the banner has not been shown before.
pub open spec fn win_fires(scores: u128, banner_shown: bool) -> bool {
    scores > WIN_THRESHOLD && !banner_shown
}

/// The win banner fires at most once: once it has fired and the caller
/// records it as shown, no later score can fire it again.
pub proof fn lemma_banner_fires_once(s1: u128, banner_shown: bool, s2: u128)
    ensures
        win_fires(s1, banner_shown) ==> !win_fires(s2, banner_shown || win_fires(s1, banner_shown)),
{
}

impl Game {
    /// The appearance flags of all registered holes, in registry order.
    pub open spec fn appeared_seq(self) -> Seq<bool> {
        Seq::new(self.view.hole_marmots@.len(), |k: int| self.view.hole_marmots@[k].appeared)
    }

    /// The rendered character grid.
    pub open spec fn grid(self) -> Seq<Seq<char>> {
        grid_view(self.view.views)
    }

    /// Whether the round is running.
    pub open spec fn playing(self) -> bool {
        self.state is Playing
    }

    /// A game whose field has been laid out by `setup_game`: the fixed
    /// 70 by 25 play field with all nine holes of the standard
    /// three-by-three layout registered.
    pub open spec fn is_set_up(self) -> bool {
        &&& self.view.wf()
        &&& self.view.size.width == 70
        &&& self.view.size.height == 25
        &&& self.view.hole_points@.len() == 9
        &&& self.view.hole_marmots@.len() == 9
        &&& forall|k: int| 0 <= k < 9 ==> #[trigger] self.view.hole_points@[k] == standard_hole(k)
    }

    /// A fresh game over an empty field: not yet playing, no points,
    /// sixty seconds on the clock.
    pub fn new(size: &Dimension) -> (g: Game)
        ensures
            g.view.wf(),
            g.view.size == *size,
            grid_view(g.view.points) == crate::view::const_grid(
                size.height as int,
                size.width as int,
                0usize,
            ),
            g.grid() == crate::view::const_grid(size.height as int, size.width as int, ' '),
            g.view.hole_points@.len() == 0,
            g.view.hole_marmots@.len() == 0,
            g.state == GameState::Stopped,
            g.scores == 0,
            g.time == 60,
    {
        Game { view: GameView::new(size), state: GameState::Stopped, scores: 0, time: 60 }
    }

    /// Strikes hole `idx`. A hole showing a target takes the hit: its
    /// cell shows the struck marker, its appearance flag clears, and
    /// the score rises by ten. A hole showing none ignores the key:
    /// no penalty, no change.
    pub fn strike(&mut self, idx: usize) -> (hit: bool)
        requires
            old(self).view.wf(),
            idx < old(self).view.hole_marmots@.len(),
            idx < old(self).view.hole_points@.len(),
            old(self).scores + 10 <= u128::MAX,
        ensures
            final(self).view.wf(),
            hit == old(self).appeared_seq()[idx as int],
            (final(self).appeared_seq(), final(self).scores) == strike_outcome(
                old(self).appeared_seq(),
                old(self).scores,
                idx as int,
            ),
            !hit ==> *final(self) == *old(self),
            hit ==> final(self).grid() == cell_write(
                old(self).grid(),
                old(self).view.hole_points@[idx as int].y as int,
                old(self).view.hole_points@[idx as int].x as int,
                '❌',
            ),
            hit ==> final(self).view.hole_marmots@ == old(self).view.hole_marmots@.update(
                idx as int,
                Marmot { view: old(self).view.hole_marmots@[idx as int].view, appeared: false },
            ),
            hit ==> final(self).scores == old(self).scores + 10,
            final(self).view.points == old(self).view.points,
            final(self).view.hole_points == old(self).view.hole_points,
            final(self).view.size == old(self).view.size,
            final(self).state == old(self).state,
            final(self).time == old(self).time,
    {
        if self.view.hole_marmots[idx].appeared {
            let x = self.view.hole_points[idx].x;
            let y = self.view.hole_points[idx].y;
            self.view.views[y][x] = '❌';
            self.view.hole_marmots[idx].appeared = false;
            self.scores = self.scores + 10;
            proof {
                assert(self.grid() =~~= cell_write(
                    old(self).grid(),
                    y as int,
                    x as int,
                    '❌',
                ));
                assert(self.view.hole_marmots@ =~= old(self).view.hole_marmots@.update(
                    idx as int,
                    Marmot {
                        view: old(self).view.hole_marmots@[idx as int].view,
                        appeared: false,
                    },
                ));
                assert(self.appeared_seq() =~= old(self).appeared_seq().update(idx as int, false));
            }
            true
        } else {
            proof {
                assert(self.appeared_seq() =~= old(self).appeared_seq());
            }
            false
        }
    }

    /// One tick of the timer task. A stopped game ends the task with
    /// nothing changed. A running one loses one second while time is
    /// left; at zero the status flips to stopped and the end-of-game
    /// message appears. Either way the running branch refreshes the
    /// time overlay.
    pub fn timer_tick(&mut self) -> (running: bool)
        requires
            old(self).is_set_up(),
        ensures
            final(self).is_set_up(),
            running == old(self).playing(),
            !running ==> *final(self) == *old(self),
            (final(self).time, final(self).playing()) == timer_outcome(
                old(self).time,
                old(self).playing(),
            ),
            final(self).scores == old(self).scores,
            final(self).view.points == old(self).view.points,
            final(self).view.hole_points == old(self).view.hole_points,
            final(self).view.hole_marmots == old(self).view.hole_marmots,
            final(self).view.size == old(self).view.size,
            running && old(self).time > 0 ==> final(self).grid() == written(
                old(self).grid(),
                TIME_ROW as int,
                OVERLAY_COL as int,
                time_text((old(self).time - 1) as u8),
            ),
            running && old(self).time == 0 ==> final(self).grid() == written(
                written(
                    old(self).grid(),
                    OVER_ROW as int,
                    OVERLAY_COL as int,
                    game_over_text(),
                ),
                TIME_ROW as int,
                OVERLAY_COL as int,
                time_text(0),
            ),
    {
        match self.state {
            GameState::Stopped => false,
            GameState::Playing => {
                if self.time > 0 {
                    self.time = self.time - 1;
                } else {
                    self.state = GameState::Stopped;
                    let over = game_over_line();
                    crate::view::write_chars(&mut self.view.views, OVERLAY_COL, OVER_ROW, &over);
                }
                let t = time_line(self.time);
                proof {
                    lemma_time_text_fits(self.time);
                }
                crate::view::write_chars(&mut self.view.views, OVERLAY_COL, TIME_ROW, &t);
                true
            },
        }
    }

    /// Checks the win condition after an input event: a score past the
    /// threshold fires the one-shot banner, stopping the game, unless
    /// the banner has already been shown.
    pub fn check_win(&mut self, banner_shown: bool) -> (fired: bool)
        ensures
            fired == win_fires(old(self).scores, banner_shown),
            fired ==> *final(self) == (Game { state: GameState::Stopped, ..*old(self) }),
            !fired ==> *final(self) == *old(self),
    {
        if self.scores > WIN_THRESHOLD && !banner_shown {
            self.state = GameState::Stopped;
            true
        } else {
            false
        }
    }

    /// Applies one spawn tick's reveals: clears every hole's flag and
    /// glyph, then reveals each picked hole (a duplicate pick repeats
    /// the work harmlessly), and refreshes the score overlay.
    pub fn spawn_apply(&mut self, picks: &Vec<usize>)
        requires
            old(self).is_set_up(),
            old(self).scores < SCORE_TEXT_LIMIT,
            forall|i: int| 0 <= i < picks@.len() ==> #[trigger] picks@[i] < 9,
        ensures
            final(self).is_set_up(),
            spawn_rel(*old(self), *final(self), picks@),
    {
        let ghost orig = *self;
        let n = picks.len();
        // Flags: clear all nine, then raise one flag per pick.
        for k in 0..9usize
            invariant
                self.view == (GameView { hole_marmots: self.view.hole_marmots, ..orig.view }),
                self.state == orig.state,
                self.time == orig.time,
                self.scores == orig.scores,
                orig.is_set_up(),
                self.view.hole_marmots@.len() == 9,
                forall|j: int|
                    0 <= j < 9 ==> #[trigger] self.view.hole_marmots@[j].view == orig.view.hole_marmots@[j].view,
                forall|j: int| 0 <= j < k ==> !(#[trigger] self.view.hole_marmots@[j].appeared),
        {
            self.view.hole_marmots[k].appeared = false;
        }
        for i in 0..n
            invariant
                n == picks@.len(),
                forall|j: int| 0 <= j < picks@.len() ==> #[trigger] picks@[j] < 9,
                self.view == (GameView { hole_marmots: self.view.hole_marmots, ..orig.view }),
                self.state == orig.state,
                self.time == orig.time,
                self.scores == orig.scores,
                orig.is_set_up(),
                self.view.hole_marmots@.len() == 9,
                forall|j: int|
                    0 <= j < 9 ==> #[trigger] self.view.hole_marmots@[j].view == orig.view.hole_marmots@[j].view,
                forall|j: int|
                    0 <= j < 9 ==> #[trigger] self.view.hole_marmots@[j].appeared == picks@.take(
                        i as int,
                    ).contains(j as usize),
        {
            let p = picks[i];
            self.view.hole_marmots[p].appeared = true;
            proof {
                assert(picks@.take(i + 1).drop_last() =~= picks@.take(i as int));
                assert(picks@.take(i + 1).last() == picks@[i as int]);
                assert forall|j: int|
                    0 <= j < 9 implies (#[trigger] picks@.take(i + 1).contains(j as usize)) == (
                picks@.take(i as int).contains(j as usize) || j == p) by {
                    let t1 = picks@.take(i + 1);
                    let t0 = picks@.take(i as int);
                    if t1.contains(j as usize) {
                        let w = choose|w: int| 0 <= w < t1.len() && t1[w] == j as usize;
                        if w < i {
                            assert(t0[w] == j as usize);
                            assert(t0.contains(j as usize));
                        } else {
                            assert(t1[w] == picks@[i as int]);
                        }
                    }
                    if t0.contains(j as usize) {
                        let w = choose|w: int| 0 <= w < t0.len() && t0[w] == j as usize;
                        assert(t1[w] == j as usize);
                        assert(t1.contains(j as usize));
                    }
                    if j == p {
                        assert(t1[i as int] == j as usize);
                        assert(t1.contains(j as usize));
                    }
                }
            }
        }
        proof {
            assert(picks@.take(picks@.len() as int) =~= picks@);
        }
        // Glyphs: blank every hole's cell, then show a face on each
        // picked hole.
        let ghost flagged = *self;
        for k in 0..9usize
            invariant
                flagged == (Game { view: flagged.view, ..*self }),
                flagged.view == (GameView { views: orig.view.views, ..self.view }),
                orig.is_set_up(),
                self.view.hole_points == orig.view.hole_points,
                flagged.view.hole_points == orig.view.hole_points,
                self.view.views@.len() == 25,
                forall|y: int| 0 <= y < 25 ==> #[trigger] self.view.views@[y]@.len() == 70,
                forall|j: int|
                    0 <= j < k ==> self.grid()[(#[trigger] self.view.hole_points@[j]).y as int][
                        self.view.hole_points@[j].x as int
                    ] == ' ',
                forall|y: int, x: int|
                    0 <= y < 25 && 0 <= x < 70 && !hole_cell_among(
                        self.view.hole_points@,
                        k as int,
                        x,
                        y,
                    ) ==> self.grid()[y][x] == #[trigger] orig.grid()[y][x],
        {
            let x = self.view.hole_points[k].x;
            let y = self.view.hole_points[k].y;
            proof {
                lemma_standard_holes_off_overlays(k as int);
                assert(self.view.hole_points@[k as int] == standard_hole(k as int));
            }
            let ghost gprev = self.grid();
            set_cell(&mut self.view.views, x, y, ' ');
            proof {
                let holes = self.view.hole_points@;
                assert(self.grid() == cell_write(gprev, y as int, x as int, ' '));
                assert forall|j: int|
                    0 <= j < k + 1 implies self.grid()[(#[trigger] holes[j]).y as int][
                    holes[j].x as int
                ] == ' ' by {
                    assert(holes[j] == standard_hole(j));
                    if j < k {
                        lemma_standard_holes_distinct(j, k as int);
                        lemma_standard_holes_off_overlays(j);
                    }
                }
                assert forall|yy: int, xx: int|
                    0 <= yy < 25 && 0 <= xx < 70 && !hole_cell_among(
                        holes,
                        k + 1,
                        xx,
                        yy,
                    ) implies self.grid()[yy][xx] == orig.grid()[yy][xx] by {
                    if hole_cell_among(holes, k as int, xx, yy) {
                        let w = choose|w: int|
                            0 <= w < k && (#[trigger] holes[w]).x == xx && holes[w].y == yy;
                        assert(0 <= w < k + 1 && holes[w].x == xx && holes[w].y == yy);
                        assert(hole_cell_among(holes, k + 1, xx, yy));
                    }
                    if xx == x && yy == y {
                        assert(0 <= k < k + 1 && holes[k as int].x == xx && holes[k as int].y
                            == yy);
                        assert(hole_cell_among(holes, k + 1, xx, yy));
                    }
                    assert(gprev[yy][xx] == orig.grid()[yy][xx]);
                    assert(self.grid()[yy][xx] == gprev[yy][xx]);
                }
            }
        }
        for i in 0..n
            invariant
                n == picks@.len(),
                forall|j: int| 0 <= j < picks@.len() ==> #[trigger] picks@[j] < 9,
                flagged == (Game { view: flagged.view, ..*self }),
                flagged.view == (GameView { views: orig.view.views, ..self.view }),
                orig.is_set_up(),
                self.view.hole_points == orig.view.hole_points,
                flagged.view.hole_points == orig.view.hole_points,
                forall|j: int|
                    0 <= j < 9 ==> #[trigger] flagged.view.hole_marmots@[j].appeared
                        == picks@.contains(j as usize),
                self.view.views@.len() == 25,
                forall|y: int| 0 <= y < 25 ==> #[trigger] self.view.views@[y]@.len() == 70,
                forall|j: int|
                    0 <= j < 9 ==> self.grid()[(#[trigger] self.view.hole_points@[j]).y as int][
                        self.view.hole_points@[j].x as int
                    ] == (if picks@.take(i as int).contains(j as usize) {
                        '🐭'
                    } else {
                        ' '
                    }),
                forall|y: int, x: int|
                    0 <= y < 25 && 0 <= x < 70 && !hole_cell_among(
                        self.view.hole_points@,
                        9,
                        x,
                        y,
                    ) ==> self.grid()[y][x] == #[trigger] orig.grid()[y][x],
        {
            let p = picks[i];
            let x = self.view.hole_points[p].x;
            let y = self.view.hole_points[p].y;
            proof {
                lemma_standard_holes_off_overlays(p as int);
                assert(self.view.hole_points@[p as int] == standard_hole(p as int));
            }
            let ghost gprev = self.grid();
            set_cell(&mut self.view.views, x, y, '🐭');
            proof {
                let holes = self.view.hole_points@;
                assert(self.grid() == cell_write(gprev, y as int, x as int, '🐭'));
                assert(picks@.take(i + 1).drop_last() =~= picks@.take(i as int));
                assert(picks@.take(i + 1).last() == picks@[i as int]);
                assert forall|j: int|
                    0 <= j < 9 implies (#[trigger] picks@.take(i + 1).contains(j as usize)) == (
                picks@.take(i as int).contains(j as usize) || j == p) by {
                    let t1 = picks@.take(i + 1);
                    let t0 = picks@.take(i as int);
                    if t1.contains(j as usize) {
                        let w = choose|w: int| 0 <= w < t1.len() && t1[w] == j as usize;
                        if w < i {
                            assert(t0[w] == j as usize);
                            assert(t0.contains(j as usize));
                        } else {
                            assert(t1[w] == picks@[i as int]);
                        }
                    }
                    if t0.contains(j as usize) {
                        let w = choose|w: int| 0 <= w < t0.len() && t0[w] == j as usize;
                        assert(t1[w] == j as usize);
                        assert(t1.contains(j as usize));
                    }
                    if j == p {
                        assert(t1[i as int] == j as usize);
                        assert(t1.contains(j as usize));
                    }
                }
                assert forall|j: int|
                    0 <= j < 9 implies self.grid()[(#[trigger] holes[j]).y as int][
                    holes[j].x as int
                ] == (if picks@.take(i + 1).contains(j as usize) {
                    '🐭'
                } else {
                    ' '
                }) by {
                    assert(holes[j] == standard_hole(j));
                    lemma_standard_holes_off_overlays(j);
                    if j != p {
                        lemma_standard_holes_distinct(j, p as int);
                        assert(self.grid()[holes[j].y as int][holes[j].x as int] == gprev[
                            holes[j].y as int
                        ][holes[j].x as int]);
                    }
                }
                assert forall|yy: int, xx: int|
                    0 <= yy < 25 && 0 <= xx < 70 && !hole_cell_among(
                        holes,
                        9,
                        xx,
                        yy,
                    ) implies self.grid()[yy][xx] == orig.grid()[yy][xx] by {
                    if xx == x && yy == y {
                        assert(0 <= p < 9 && holes[p as int].x == xx && holes[p as int].y == yy);
                        assert(hole_cell_among(holes, 9, xx, yy));
                    }
                    assert(gprev[yy][xx] == orig.grid()[yy][xx]);
                    assert(self.grid()[yy][xx] == gprev[yy][xx]);
                }
            }
        }
        proof {
            assert forall|k: int| 0 <= k < 9 implies (#[trigger] self.view.hole_points@[k]).x
                < OVERLAY_COL by {
                lemma_standard_holes_off_overlays(k);
                assert(self.view.hole_points@[k] == standard_hole(k));
            }
            lemma_score_text_fits(self.scores);
        }
        let ghost revealed = *self;
        let line = score_line(self.scores);
        write_chars(&mut self.view.views, OVERLAY_COL, SCORE_ROW, &line);
        proof {
            let g = self.grid();
            let gr = revealed.grid();
            let text = score_text(orig.scores);
            assert(g == written(gr, SCORE_ROW as int, OVERLAY_COL as int, text));
            assert forall|j: int|
                0 <= j < 9 implies g[(#[trigger] self.view.hole_points@[j]).y as int][
                self.view.hole_points@[j].x as int
            ] == (if picks@.contains(j as usize) {
                '🐭'
            } else {
                ' '
            }) by {
                assert(self.view.hole_points@[j] == standard_hole(j));
                lemma_standard_holes_off_overlays(j);
                let hy = self.view.hole_points@[j].y as int;
                let hx = self.view.hole_points@[j].x as int;
                if hy != SCORE_ROW {
                    assert(g[hy] == gr[hy]);
                } else {
                    assert(g[hy][hx] == gr[hy][hx]);
                }
            }
        }
    }

    /// One tick of the spawn scheduler. A stopped game ends the task
    /// with nothing changed. A running one clears all nine holes, draws
    /// between one and six random picks (independent draws, so the same
    /// hole may be picked more than once), reveals the picked holes and
    /// refreshes the score overlay.
    pub fn spawn_tick(&mut self) -> (running: bool)
        requires
            old(self).is_set_up(),
            old(self).scores < SCORE_TEXT_LIMIT,
        ensures
            final(self).is_set_up(),
            running == old(self).playing(),
            !running ==> *final(self) == *old(self),
            running ==> (exists|picks: Seq<usize>|
                1 <= picks.len() <= 6 && (forall|i: int|
                    0 <= i < picks.len() ==> #[trigger] picks[i] < 9) && spawn_rel(
                    *old(self),
                    *final(self),
                    picks,
                )),
    {
        match self.state {
            GameState::Stopped => false,
            GameState::Playing => {
                let n = get_random_num(1, 6);
                let mut picks: Vec<usize> = Vec::new();
                for i in 0..n
                    invariant
                        n <= 6,
                        picks@.len() == i,
                        forall|j: int| 0 <= j < i ==> #[trigger] picks@[j] < 9,
                {
                    picks.push(get_random_num(0, 8));
                }
                self.spawn_apply(&picks);
                true
            },
        }
    }

    /// Writes the initial overlays the player sees before the first
    /// tick: the score, the remaining time, and the quit prompt.
    pub fn init_overlays(&mut self)
        requires
            old(self).is_set_up(),
            old(self).scores < SCORE_TEXT_LIMIT,
        ensures
            final(self).is_set_up(),
            *final(self) == (Game {
                view: GameView { views: final(self).view.views, ..old(self).view },
                ..*old(self)
            }),
            final(self).grid() == written(
                written(
                    written(
                        old(self).grid(),
                        SCORE_ROW as int,
                        OVERLAY_COL as int,
                        score_text(old(self).scores),
                    ),
                    TIME_ROW as int,
                    OVERLAY_COL as int,
                    time_text(old(self).time),
                ),
                PROMPT_ROW as int,
                OVERLAY_COL as int,
                quit_text(),
            ),
    {
        proof {
            lemma_score_text_fits(self.scores);
            lemma_time_text_fits(self.time);
        }
        let s = score_line(self.scores);
        write_chars(&mut self.view.views, OVERLAY_COL, SCORE_ROW, &s);
        let t = time_line(self.time);
        write_chars(&mut self.view.views, OVERLAY_COL, TIME_ROW, &t);
        let q = quit_line();
        write_chars(&mut self.view.views, OVERLAY_COL, PROMPT_ROW, &q);
    }
}

/// Lays out the standard field: the outer border, the inner divider
/// between field and overlay area, and the nine hole frames of the
/// three-by-three layout, each hole registered at its frame's center
/// with a fresh target. The fixed bounds all pass the geometry check,
/// and the game starts playing with no points and sixty seconds.
pub fn setup_game() -> (g: Game)
    ensures
        g.is_set_up(),
        g.state == GameState::Playing,
        g.scores == 0,
        g.time == 60,
        forall|k: int| 0 <= k < 9 ==> !(#[trigger] g.appeared_seq()[k]),
        forall|k: int|
            0 <= k < 9 ==> #[trigger] g.view.hole_marmots@[k].view@ == crate::view::mole_face(),
        grid_view(g.view.points) == standard_masks(),
        g.grid() == glyph_grid(standard_masks()),
{
    let size = Dimension { width: 70, height: 25 };
    let mut game = Game::new(&size);
    let r1 = game.view.build_block(0, size.height - 1, 0, size.width - 1);
    let r2 = game.view.build_block(0, size.height - 1, 0, 40);
    proof {
        assert(r1 is Ok);
        assert(r2 is Ok);
    }
    let ghost base = grid_view(game.view.points);
    for i in 0..9usize
        invariant
            game.view.wf(),
            game.view.size == (Dimension { width: 70, height: 25 }),
            game.state == GameState::Stopped,
            game.scores == 0,
            game.time == 60,
            base == apply_block(
                apply_block(const_grid(25, 70, 0usize), 0, 24, 0, 69),
                0,
                24,
                0,
                40,
            ),
            grid_view(game.view.points) == frames_applied(base, i as int),
            grid_view(game.view.views) == glyph_grid(grid_view(game.view.points)),
            game.view.hole_points@.len() == i,
            game.view.hole_marmots@.len() == i,
            forall|k: int|
                0 <= k < i ==> #[trigger] game.view.hole_points@[k] == standard_hole(k),
            forall|k: int|
                0 <= k < i ==> !(#[trigger] game.view.hole_marmots@[k].appeared),
            forall|k: int|
                0 <= k < i ==> #[trigger] game.view.hole_marmots@[k].view@
                    == crate::view::mole_face(),
    {
        let v = i / 3;
        let h = i % 3;
        let top = 3 + 6 * v;
        let bottom = 7 + 6 * v;
        let left = 3 + 12 * h;
        let right = 11 + 12 * h;
        let r = game.view.build_block(top, bottom, left, right);
        proof {
            assert(v <= 2 && h <= 2);
            assert(r is Ok);
            assert((top as int, bottom as int, left as int, right as int) == standard_rect(
                i as int,
            ));
            assert(frames_applied(base, i + 1) == apply_block(
                frames_applied(base, i as int),
                standard_rect(i as int).0,
                standard_rect(i as int).1,
                standard_rect(i as int).2,
                standard_rect(i as int).3,
            ));
        }
        let hole = Hole { x: (left + right) / 2, y: (top + bottom) / 2 };
        proof {
            assert(hole == standard_hole(i as int));
        }
        game.view.set_hole_points(hole);
        game.view.set_hole_marmots(Marmot::new());
    }
    game.state = GameState::Playing;
    game
}

/// The relation one spawn tick leaves between the game before and the
/// game after, given the picked hole indices: a hole appears exactly
/// when it was picked, its cell shows the target's face or a blank
/// accordingly, the score overlay shows the (unchanged) score, and
/// everything else — walls, hole registry, score, time, status, every
/// cell off the holes and the overlay — is untouched.
pub open spec fn spawn_rel(pre: Game, post: Game, picks: Seq<usize>) -> bool {
    &&& post.state == pre.state
    &&& post.time == pre.time
    &&& post.scores == pre.scores
    &&& post.view.size == pre.view.size
    &&& post.view.points == pre.view.points
    &&& post.view.hole_points == pre.view.hole_points
    &&& post.view.hole_marmots@.len() == pre.view.hole_marmots@.len()
    &&& (forall|k: int|
        0 <= k < pre.view.hole_marmots@.len() ==> #[trigger] post.view.hole_marmots@[k].view
            == pre.view.hole_marmots@[k].view)
    &&& (forall|k: int|
        0 <= k < pre.view.hole_marmots@.len() ==> #[trigger] post.view.hole_marmots@[k].appeared
            == picks.contains(k as usize))
    &&& post.grid().len() == pre.grid().len()
    &&& (forall|y: int|
        0 <= y < pre.grid().len() ==> #[trigger] post.grid()[y].len() == pre.grid()[y].len())
    &&& (forall|k: int|
        0 <= k < pre.view.hole_points@.len() ==> post.grid()[(
        #[trigger] pre.view.hole_points@[k]).y as int][pre.view.hole_points@[k].x as int] == (
        if picks.contains(k as usize) {
            '🐭'
        } else {
            ' '
        }))
    &&& (forall|x: int|
        OVERLAY_COL <= x < OVERLAY_COL + score_text(pre.scores).len() ==> #[trigger] post.grid()[
            SCORE_ROW as int
        ][x] == score_text(pre.scores)[x - OVERLAY_COL])
    &&& (forall|y: int, x: int|
        0 <= y < pre.grid().len() && 0 <= x < pre.grid()[y].len() && !hole_cell_among(
            pre.view.hole_points@,
            pre.view.hole_points@.len() as int,
            x,
            y,
        ) && !(y == SCORE_ROW && OVERLAY_COL <= x < OVERLAY_COL + score_text(pre.scores).len())
            ==> #[trigger] post.grid()[y][x] == pre.grid()[y][x])
}

} // verus!

//! The tick-driven simulation: a bounded grid that is stacked upward, and a
//! short segment of cells (the snake) that slides around a six-cell ring and,
//! on request, attempts to climb one row onto the grid.
//!
//! The whole behaviour is captured by the pure transition functions
//! [`step_pressed`] and [`step_tick`] over the abstract [`State`]; the
//! executable [`Model`] is proved to follow them exactly.

use vstd::prelude::*;

use crate::display::{Object, OAM};
use crate::sprites::Sprite;

verus! {

/// One cell of the grid or of the snake ring.
#[derive(Debug, Copy, Clone, Eq, PartialEq, Structural)]
pub enum Block {
    Filled,
    Empty,
}

/// The two events the simulation reacts to.
#[derive(Debug, Copy, Clone, Eq, PartialEq, Structural)]
pub enum Msg {
    /// The button was pressed: request a climb on the next tick.
    Pressed,
    /// One period of the fixed-rate timer elapsed.
    Tick,
}

/// The abstract simulation state: what the executable [`Model`] looks like
/// to specifications.
#[verifier::ext_equal]
pub struct State {
    /// 42 cells, row-major, index `row * 6 + col`; row 0 is the bottom.
    pub grid: Seq<Block>,
    /// The six cells of the snake ring.
    pub snake: Seq<Block>,
    /// Monotonic tick counter; wraps at the machine word.
    pub tick: usize,
    /// A climb was requested and will be consumed by the next tick.
    pub rising: bool,
    /// Terminal: the run is over and only a restart changes anything.
    pub finished: bool,
    /// The row the snake is about to attempt to climb into.
    pub y: usize,
    /// How many filled cells the snake still has.
    pub length: usize,
}

/// The cell at ring index `i` of a snake whose run of `len` filled cells
/// starts at ring index `s` (indices wrap past 6 back to 0).
pub open spec fn run_cell(s: int, len: int, i: int) -> Block {
    if (s <= i && i < s + len) || (s <= i + 6 && i + 6 < s + len) {
        Block::Filled
    } else {
        Block::Empty
    }
}

/// A snake ring holding one contiguous run of `len` filled cells starting at
/// ring index `s`.
pub open spec fn run_seq(s: int, len: int) -> Seq<Block> {
    Seq::new(6, |i: int| run_cell(s, len, i))
}

/// How many of the first `n` cells are filled.
pub open spec fn filled_count(cells: Seq<Block>, n: int) -> int
    decreases n,
{
    if n <= 0 {
        0
    } else {
        filled_count(cells, n - 1) + if cells[n - 1] is Filled {
            1int
        } else {
            0int
        }
    }
}

/// The state a fresh simulation starts in: grid all empty, a snake of three
/// filled cells at ring indices 0..3, everything else at zero.
pub open spec fn init_state() -> State {
    State {
        grid: Seq::new(42, |i: int| Block::Empty),
        snake: run_seq(0, 3),
        tick: 0,
        rising: false,
        finished: false,
        y: 0,
        length: 3,
    }
}

/// Every state the simulation can reach satisfies this shape invariant.
pub open spec fn wf_state(m: State) -> bool {
    &&& m.grid.len() == 42
    &&& m.snake.len() == 6
    &&& m.y <= 6
    &&& m.length <= 3
    &&& (m.finished ==> m.y == 0 && (forall|i: int| 0 <= i < 6 ==> m.snake[i] is Empty))
    &&& (!m.finished ==> 1 <= m.length && (exists|s: int|
        0 <= s < 6 && m.snake == run_seq(s, m.length as int)))
}

/// A press only records the request; it is consumed on the next tick.
pub open spec fn step_pressed(m: State) -> State {
    State { rising: true, ..m }
}

/// The tick counter after one tick: plus one, wrapping at the machine word.
pub open spec fn next_tick(t: usize) -> usize {
    if t == usize::MAX {
        0
    } else {
        (t + 1) as usize
    }
}

/// Whether a snake column may attach to the grid at row `y`: at ground level
/// it always does; higher up the cell directly below must already be filled.
pub open spec fn attaches(grid: Seq<Block>, x: int, y: int) -> bool {
    y == 0 || grid[x + y * 6 - 6] is Filled
}

/// The climb attempt over the first `n` columns, in ascending column order:
/// returns the grid after the attempt and the number of columns whose
/// attachment failed. A filled snake column that attaches fills grid cell
/// `(x, y)`; one that cannot attach is counted as a loss.
pub open spec fn climb(grid: Seq<Block>, snake: Seq<Block>, y: int, n: int) -> (Seq<Block>, int)
    decreases n,
{
    if n <= 0 {
        (grid, 0)
    } else {
        let (g, losses) = climb(grid, snake, y, n - 1);
        let x = n - 1;
        if snake[x] is Filled {
            if attaches(g, x, y) {
                (g.update(x + y * 6, Block::Filled), losses)
            } else {
                (g, losses + 1)
            }
        } else {
            (g, losses)
        }
    }
}

/// The sliding scan, starting at scan position `x` (0..=7, taken mod 6 so the
/// walk can wrap once past the ring's end), with `gap` recording whether an
/// empty cell has been passed. The first filled cell found after a gap moves
/// to one slot past the run's end, and the scan stops.
pub open spec fn slide_scan(snake: Seq<Block>, length: int, x: int, gap: bool) -> Seq<Block>
    decreases 7 - x,
{
    if x >= 7 {
        snake
    } else {
        let xi = x % 6;
        if snake[xi] is Empty {
            slide_scan(snake, length, x + 1, true)
        } else if gap {
            snake.update(xi, Block::Empty).update((xi + length) % 6, Block::Filled)
        } else {
            slide_scan(snake, length, x + 1, gap)
        }
    }
}

/// One sliding step: advance the snake's run one slot around the ring.
pub open spec fn slide(snake: Seq<Block>, length: int) -> Seq<Block> {
    slide_scan(snake, length, 0, false)
}

/// The snake ring with every cell empty.
pub open spec fn empty_snake() -> Seq<Block> {
    Seq::new(6, |i: int| Block::Empty)
}

/// Counting filled cells over a longer prefix never counts fewer.
pub proof fn lemma_filled_count_mono(cells: Seq<Block>, a: int, b: int)
    requires
        a <= b,
    ensures
        filled_count(cells, a) <= filled_count(cells, b),
    decreases b - a,
{
    if a < b {
        lemma_filled_count_mono(cells, a, b - 1);
    }
}

/// How a point update changes the filled count of a prefix.
pub proof fn lemma_filled_count_update(cells: Seq<Block>, j: int, v: Block, n: int)
    requires
        0 <= j < cells.len(),
        n <= cells.len(),
    ensures
        j < n ==> filled_count(cells.update(j, v), n) == filled_count(cells, n) - (
        if cells[j] is Filled {
            1int
        } else {
            0int
        }) + (
        if v is Filled {
            1int
        } else {
            0int
        }),
        j >= n ==> filled_count(cells.update(j, v), n) == filled_count(cells, n),
    decreases n,
{
    if n > 0 {
        lemma_filled_count_update(cells, j, v, n - 1);
    }
}

/// A prefix of empty cells has no filled cells.
pub proof fn lemma_filled_count_empty(cells: Seq<Block>, n: int)
    requires
        forall|i: int| 0 <= i < n ==> cells[i] is Empty,
    ensures
        filled_count(cells, n) == 0,
    decreases n,
{
    if n > 0 {
        lemma_filled_count_empty(cells, n - 1);
    }
}

/// A run of `len` filled cells has exactly `len` filled cells.
pub proof fn lemma_run_count(s: int, len: int)
    requires
        0 <= s < 6,
        0 <= len <= 6,
    ensures
        filled_count(run_seq(s, len), 6) == len,
    decreases len,
{
    if len == 0 {
        lemma_filled_count_empty(run_seq(s, 0), 6);
    } else {
        lemma_run_count(s, len - 1);
        let i0 = if s + len - 1 < 6 {
            s + len - 1
        } else {
            s + len - 7
        };
        assert(run_seq(s, len) =~= run_seq(s, len - 1).update(i0, Block::Filled));
        lemma_filled_count_update(run_seq(s, len - 1), i0, Block::Filled, 6);
    }
}

/// The climb attempt loses at most one column per filled snake cell.
pub proof fn lemma_climb_losses_bound(grid: Seq<Block>, snake: Seq<Block>, y: int, n: int)
    ensures
        0 <= climb(grid, snake, y, n).1 <= filled_count(snake, n),
    decreases n,
{
    if n > 0 {
        lemma_climb_losses_bound(grid, snake, y, n - 1);
    }
}

/// The climb attempt only fills cells; it never empties one, and it touches
/// row `y` alone.
pub proof fn lemma_climb_grid_shape(grid: Seq<Block>, snake: Seq<Block>, y: int, n: int)
    requires
        grid.len() == 42,
        0 <= y <= 6,
        0 <= n <= 6,
    ensures
        climb(grid, snake, y, n).0.len() == 42,
        forall|i: int|
            0 <= i < 42 && !(y * 6 <= i < y * 6 + n) ==> climb(grid, snake, y, n).0[i] == grid[i],
        forall|i: int|
            0 <= i < 42 && grid[i] is Filled ==> climb(grid, snake, y, n).0[i] is Filled,
    decreases n,
{
    if n > 0 {
        lemma_climb_grid_shape(grid, snake, y, n - 1);
    }
}

/// The cell the sliding scan looks at for scan position `x`.
pub open spec fn scan_cell(snake: Seq<Block>, x: int) -> Block {
    snake[x % 6]
}

/// The sliding scan walks straight over filled cells while no gap has been
/// passed yet.
proof fn lemma_scan_skip_filled(snake: Seq<Block>, len: int, a: int, b: int)
    requires
        0 <= a <= b <= 7,
        snake.len() == 6,
        forall|x: int| a <= x < b ==> #[trigger] scan_cell(snake, x) is Filled,
    ensures
        slide_scan(snake, len, a, false) == slide_scan(snake, len, b, false),
    decreases b - a,
{
    if a < b {
        assert(scan_cell(snake, a) is Filled);
        lemma_scan_skip_filled(snake, len, a + 1, b);
    }
}

/// The sliding scan walks straight over empty cells once a gap has been
/// passed.
proof fn lemma_scan_skip_empty(snake: Seq<Block>, len: int, a: int, b: int)
    requires
        0 <= a <= b <= 7,
        snake.len() == 6,
        forall|x: int| a <= x < b ==> #[trigger] scan_cell(snake, x) is Empty,
    ensures
        slide_scan(snake, len, a, true) == slide_scan(snake, len, b, true),
    decreases b - a,
{
    if a < b {
        assert(scan_cell(snake, a) is Empty);
        lemma_scan_skip_empty(snake, len, a + 1, b);
    }
}

/// One sliding step advances a run of filled cells by exactly one slot
/// around the ring, keeping its length.
pub proof fn lemma_slide_run(s: int, len: int)
    ensures
        0 <= s < 6 && 1 <= len <= 5 ==> slide(run_seq(s, len), len) == run_seq(s + 1, len),
{
    if !(0 <= s < 6 && 1 <= len <= 5) {
        return;
    }
    let snake = run_seq(s, len);
    let tgt = if s + len < 6 {
        s + len
    } else {
        s + len - 6
    };
    let moved = snake.update(s, Block::Empty).update(tgt, Block::Filled);
    if s == 0 {
        // Filled run at the ring's start: the gap is at index len, and the
        // scan wraps once to find the run's first cell again at x == 6.
        assert(forall|x: int| 0 <= x < len ==> #[trigger] scan_cell(snake, x) is Filled);
        lemma_scan_skip_filled(snake, len, 0, len);
        assert(snake[len % 6] is Empty);
        assert(slide_scan(snake, len, len, false) == slide_scan(snake, len, len + 1, true));
        assert(forall|x: int| len + 1 <= x < 6 ==> #[trigger] scan_cell(snake, x) is Empty);
        lemma_scan_skip_empty(snake, len, len + 1, 6);
        assert(snake[6int % 6] is Filled);
        assert(slide_scan(snake, len, 6, true) == snake.update(6int % 6, Block::Empty).update(
            (6int % 6 + len) % 6,
            Block::Filled,
        ));
        assert(slide(snake, len) == moved);
    } else if s + len <= 6 {
        // The run does not wrap: index 0 is already empty, so the gap is
        // found at once and the run's start at index s is moved.
        assert(snake[0int % 6] is Empty);
        assert(slide_scan(snake, len, 0, false) == slide_scan(snake, len, 1, true));
        assert(forall|x: int| 1 <= x < s ==> #[trigger] scan_cell(snake, x) is Empty);
        lemma_scan_skip_empty(snake, len, 1, s);
        assert(snake[s % 6] is Filled);
        assert(slide_scan(snake, len, s, true) == snake.update(s % 6, Block::Empty).update(
            (s % 6 + len) % 6,
            Block::Filled,
        ));
        assert(slide(snake, len) == moved);
    } else {
        // The run wraps past the ring's end: its tail occupies the low
        // indices, the gap follows it, and its start at index s is moved.
        assert(forall|x: int| 0 <= x < s + len - 6 ==> #[trigger] scan_cell(snake, x) is Filled);
        lemma_scan_skip_filled(snake, len, 0, s + len - 6);
        assert(snake[(s + len - 6) % 6] is Empty);
        assert(slide_scan(snake, len, s + len - 6, false) == slide_scan(
            snake,
            len,
            s + len - 5,
            true,
        ));
        assert(forall|x: int| s + len - 5 <= x < s ==> #[trigger] scan_cell(snake, x) is Empty);
        lemma_scan_skip_empty(snake, len, s + len - 5, s);
        assert(snake[s % 6] is Filled);
        assert(slide_scan(snake, len, s, true) == snake.update(s % 6, Block::Empty).update(
            (s % 6 + len) % 6,
            Block::Filled,
        ));
        assert(slide(snake, len) == moved);
    }
    assert(moved =~= run_seq(s + 1, len));
}

/// Ring index 6 is ring index 0: a run starting one past the end is the run
/// starting at the beginning.
pub proof fn lemma_run_wraps(len: int)
    ensures
        run_seq(6, len) == run_seq(0, len),
{
    assert(run_seq(6, len) =~= run_seq(0, len));
}

/// The single state-transition of a tick.
///
/// While terminal, a pending press restarts the simulation and anything else
/// is a no-op. Otherwise the tick counter advances; a pending climb request
/// is consumed: each filled snake column attaches to the grid or is lost, the
/// climb height advances, and the run ends when nothing is left to climb with
/// or the top row is passed. A surviving snake is rebuilt as its remaining
/// length of filled cells at the ring's start. Finally, every eighth tick
/// slides the snake one slot around its ring.
pub open spec fn step_tick(m: State) -> State {
    if m.finished {
        if m.rising {
            init_state()
        } else {
            m
        }
    } else {
        let t = next_tick(m.tick);
        if m.rising {
            let (g2, losses) = climb(m.grid, m.snake, m.y as int, 6);
            let len2 = m.length - losses;
            if len2 == 0 || m.y + 1 == 7 {
                State {
                    grid: g2,
                    snake: empty_snake(),
                    tick: t,
                    rising: false,
                    finished: true,
                    y: 0,
                    length: len2 as usize,
                }
            } else {
                let rebuilt = run_seq(0, len2);
                let s3 = if t % 8 == 0 {
                    slide(rebuilt, len2)
                } else {
                    rebuilt
                };
                State {
                    grid: g2,
                    snake: s3,
                    tick: t,
                    rising: false,
                    finished: false,
                    y: (m.y + 1) as usize,
                    length: len2 as usize,
                }
            }
        } else {
            let s3 = if t % 8 == 0 {
                slide(m.snake, m.length as int)
            } else {
                m.snake
            };
            State { snake: s3, tick: t, rising: false, ..m }
        }
    }
}

/// A press keeps the state well-formed.
pub proof fn lemma_step_pressed_wf(m: State)
    requires
        wf_state(m),
    ensures
        wf_state(step_pressed(m)),
{
    if !m.finished {
        let len0 = m.length as int;
        let s = choose|s: int| 0 <= s < 6 && m.snake == run_seq(s, len0);
        assert(0 <= s < 6 && step_pressed(m).snake == run_seq(s, len0));
    }
}

/// The initial state is well-formed.
pub proof fn lemma_init_wf()
    ensures
        wf_state(init_state()),
{
    assert(0 <= 0int < 6 && init_state().snake == run_seq(0int, 3));
}

/// A tick keeps the state well-formed.
pub proof fn lemma_step_tick_wf(m: State)
    requires
        wf_state(m),
    ensures
        wf_state(step_tick(m)),
{
    if m.finished {
        if m.rising {
            lemma_init_wf();
        }
    } else {
        let t = next_tick(m.tick);
        let len0 = m.length as int;
        let s = choose|s: int| 0 <= s < 6 && m.snake == run_seq(s, len0);
        lemma_run_count(s, len0);
        if m.rising {
            let y = m.y as int;
            lemma_climb_losses_bound(m.grid, m.snake, y, 6);
            lemma_climb_grid_shape(m.grid, m.snake, y, 6);
            let losses = climb(m.grid, m.snake, y, 6).1;
            let len2 = len0 - losses;
            if len2 == 0 || m.y + 1 == 7 {
                assert(forall|i: int| 0 <= i < 6 ==> empty_snake()[i] is Empty);
            } else {
                let rebuilt = run_seq(0, len2);
                if t % 8 == 0 {
                    lemma_slide_run(0, len2);
                    assert(0 <= 1int < 6 && step_tick(m).snake == run_seq(1int, len2));
                } else {
                    assert(0 <= 0int < 6 && step_tick(m).snake == run_seq(0int, len2));
                }
            }
        } else {
            if t % 8 == 0 {
                lemma_slide_run(s, len0);
                if s + 1 == 6 {
                    lemma_run_wraps(len0);
                    assert(0 <= 0int < 6 && step_tick(m).snake == run_seq(0int, len0));
                } else {
                    assert(0 <= s + 1 < 6 && step_tick(m).snake == run_seq(s + 1, len0));
                }
            } else {
                assert(0 <= s < 6 && step_tick(m).snake == run_seq(s, len0));
            }
        }
    }
}

/// The state after `n` ticks with no press in between.
pub open spec fn step_ticks(m: State, n: nat) -> State
    decreases n,
{
    if n == 0 {
        m
    } else {
        step_tick(step_ticks(m, (n - 1) as nat))
    }
}

/// While the simulation is finished and no press has been queued, any
/// number of ticks leaves the state unchanged: the terminal state is a
/// fixed point.
pub proof fn lemma_finished_ticks_noop(m: State, n: nat)
    requires
        m.finished,
        !m.rising,
    ensures
        step_ticks(m, n) == m,
    decreases n,
{
    if n > 0 {
        lemma_finished_ticks_noop(m, (n - 1) as nat);
    }
}

/// A press while finished, followed by a tick, always restarts: the state
/// after the tick is exactly the initial construction state.
pub proof fn lemma_restart(m: State)
    requires
        m.finished,
    ensures
        step_tick(step_pressed(m)) == init_state(),
{
}

/// Within one playthrough the snake's length never grows: a press keeps it,
/// and a tick can only keep it or lose columns to failed attachments.
pub proof fn lemma_length_nonincreasing(m: State)
    requires
        wf_state(m),
        !m.finished,
    ensures
        step_pressed(m).length == m.length,
        step_tick(m).length <= m.length,
{
    if m.rising {
        let len0 = m.length as int;
        let s = choose|s: int| 0 <= s < 6 && m.snake == run_seq(s, len0);
        lemma_run_count(s, len0);
        lemma_climb_losses_bound(m.grid, m.snake, m.y as int, 6);
    }
}

/// A press followed by a tick: one climb attempt.
pub open spec fn press_and_tick(m: State) -> State {
    step_tick(step_pressed(m))
}

/// The state after `n` climb attempts, stopping early once finished.
pub open spec fn press_ticks(m: State, n: nat) -> State
    decreases n,
{
    if n == 0 || m.finished {
        m
    } else {
        press_ticks(press_and_tick(m), (n - 1) as nat)
    }
}

/// Every climb attempt that does not end the run raises the climb height by
/// one, so `n` attempts suffice to finish whenever `n` covers the rows left.
proof fn lemma_press_ticks_finish(m: State, n: nat)
    requires
        wf_state(m),
        !m.finished ==> n >= 7 - m.y,
    ensures
        press_ticks(m, n).finished,
    decreases n,
{
    if !m.finished {
        let m2 = press_and_tick(m);
        lemma_step_pressed_wf(m);
        lemma_step_tick_wf(step_pressed(m));
        assert(m2.finished || m2.y == m.y + 1);
        lemma_press_ticks_finish(m2, (n - 1) as nat);
    }
}

/// The simulation always reaches its terminal state within a bounded number
/// of ticks: seven climb attempts finish any well-formed run, whether or
/// not attachments fail along the way.
pub proof fn lemma_finishes_within_seven(m: State)
    requires
        wf_state(m),
    ensures
        press_ticks(m, 7).finished,
{
    lemma_press_ticks_finish(m, 7);
}

/// On a quiet tick whose count is not a multiple of eight, the sliding step
/// does not fire: the snake is exactly as before.
pub proof fn lemma_slide_only_every_eighth(m: State)
    requires
        !m.finished,
        !m.rising,
        next_tick(m.tick) % 8 != 0,
    ensures
        step_tick(m).snake == m.snake,
{
}

/// When the sliding step fires, the snake's run advances exactly one slot
/// around the ring: the filled cells rotate and their count stays `length`.
pub proof fn lemma_slide_rotates(m: State)
    requires
        wf_state(m),
        !m.finished,
        !m.rising,
        next_tick(m.tick) % 8 == 0,
    ensures
        step_tick(m).length == m.length,
        filled_count(m.snake, 6) == m.length,
        filled_count(step_tick(m).snake, 6) == m.length,
        exists|s: int|
            0 <= s < 6 && m.snake == #[trigger] run_seq(s, m.length as int) && step_tick(m).snake
                == run_seq(s + 1, m.length as int),
{
    let len0 = m.length as int;
    let s = choose|s: int| 0 <= s < 6 && m.snake == run_seq(s, len0);
    lemma_run_count(s, len0);
    lemma_slide_run(s, len0);
    if s + 1 == 6 {
        lemma_run_wraps(len0);
        lemma_run_count(0, len0);
    } else {
        lemma_run_count(s + 1, len0);
    }
    assert(0 <= s < 6 && m.snake == run_seq(s, len0) && step_tick(m).snake == run_seq(
        s + 1,
        len0,
    ));
}

/// The draw object for grid cell `i` (row-major index): a 24x24 block at
/// pixel column `col * 24`, drawn so that grid row 0 sits at the bottom of
/// the output.
pub open spec fn grid_object(i: int) -> Object {
    Object {
        sprite: Sprite::Block,
        width: 24,
        height: 24,
        x: ((i % 6) * 24) as u16,
        y: ((6 - i / 6) * 24) as u16,
    }
}

/// The draw object for snake ring index `i` while the snake stands at climb
/// height `y`: drawn at the height it is about to attempt to climb to.
pub open spec fn snake_object(i: int, y: int) -> Object {
    Object {
        sprite: Sprite::Block,
        width: 24,
        height: 24,
        x: (i * 24) as u16,
        y: ((6 - y) * 24) as u16,
    }
}

/// The draw objects of the first `n` grid cells, in row-major order, one per
/// filled cell.
pub open spec fn grid_objects(grid: Seq<Block>, n: int) -> Seq<Object>
    decreases n,
{
    if n <= 0 {
        Seq::empty()
    } else {
        grid_objects(grid, n - 1) + if grid[n - 1] is Filled {
            seq![grid_object(n - 1)]
        } else {
            Seq::<Object>::empty()
        }
    }
}

/// The draw objects of the first `n` snake cells, one per filled cell.
pub open spec fn snake_objects(snake: Seq<Block>, y: int, n: int) -> Seq<Object>
    decreases n,
{
    if n <= 0 {
        Seq::empty()
    } else {
        snake_objects(snake, y, n - 1) + if snake[n - 1] is Filled {
            seq![snake_object(n - 1, y)]
        } else {
            Seq::<Object>::empty()
        }
    }
}

/// Everything one frame draws: the filled grid cells in row-major order,
/// then the filled snake cells. The order has no effect on the composed
/// image, but it is fixed so that equal states describe equal frames.
pub open spec fn view_objects(m: State) -> Seq<Object> {
    grid_objects(m.grid, 42) + snake_objects(m.snake, m.y as int, 6)
}

/// The simulation: owns the grid and the snake, advances on discrete events,
/// and produces a frame description on demand.
pub struct Model {
    /// 42 cells, row-major, index `row * 6 + col`; row 0 is the bottom.
    pub grid: Vec<Block>,
    /// The six cells of the snake ring.
    pub snake: Vec<Block>,
    /// Monotonic tick counter; wraps at the machine word.
    pub tick: usize,
    /// A climb was requested and will be consumed by the next tick.
    pub rising: bool,
    /// Terminal: the run is over and only a restart changes anything.
    pub finished: bool,
    /// The row the snake is about to attempt to climb into.
    pub y: usize,
    /// How many filled cells the snake still has.
    pub length: usize,
}

impl Model {
    /// The abstract state this model holds.
    pub open spec fn abs(&self) -> State {
        State {
            grid: self.grid@,
            snake: self.snake@,
            tick: self.tick,
            rising: self.rising,
            finished: self.finished,
            y: self.y,
            length: self.length,
        }
    }

    /// The model's shape invariant; established by construction and kept by
    /// every event.
    pub open spec fn wf(&self) -> bool {
        wf_state(self.abs())
    }

    /// A fresh simulation: grid all empty, snake of three filled cells at
    /// ring indices 0..3, counters at zero.
    pub fn new() -> (m: Model)
        ensures
            m.wf(),
            m.abs() == init_state(),
    {
        let mut grid: Vec<Block> = Vec::new();
        let mut i: usize = 0;
        while i < 42
            invariant
                i <= 42,
                grid@.len() == i,
                forall|j: int| 0 <= j < i ==> grid@[j] is Empty,
            decreases 42 - i,
        {
            grid.push(Block::Empty);
            i = i + 1;
        }
        let mut snake: Vec<Block> = Vec::new();
        snake.push(Block::Filled);
        snake.push(Block::Filled);
        snake.push(Block::Filled);
        snake.push(Block::Empty);
        snake.push(Block::Empty);
        snake.push(Block::Empty);
        let m = Model { grid, snake, tick: 0, rising: false, finished: false, y: 0, length: 3 };
        proof {
            assert(m.abs().grid =~= init_state().grid);
            assert(m.abs().snake =~= run_seq(0, 3));
            assert(m.abs() =~= init_state());
            lemma_init_wf();
        }
        m
    }

    /// Deliver one event: the single state-transition function.
    ///
    /// A press only records the climb request. A tick restarts a finished
    /// run if a press is pending, and otherwise advances the counter,
    /// consumes a pending climb request (each filled snake column attaches
    /// to the grid at row `y` or is lost), and every eighth tick slides the
    /// snake one slot around its ring.
    pub fn update(&mut self, msg: Msg)
        requires
            old(self).wf(),
        ensures
            final(self).wf(),
            msg is Pressed ==> final(self).abs() == step_pressed(old(self).abs()),
            msg is Tick ==> final(self).abs() == step_tick(old(self).abs()),
    {
        match msg {
            Msg::Pressed => {
                self.rising = true;
                proof {
                    assert(self.abs() =~= step_pressed(old(self).abs()));
                    lemma_step_pressed_wf(old(self).abs());
                }
            },
            Msg::Tick => {
                proof {
                    lemma_step_tick_wf(old(self).abs());
                }
                if self.finished {
                    if self.rising {
                        *self = Model::new();
                    }
                    return ;
                }
                self.tick = self.tick.wrapping_add(1);
                if self.rising {
                    let y = self.y;
                    let ghost g0 = self.grid@;
                    let ghost sn = self.snake@;
                    let ghost len0 = self.length as int;
                    proof {
                        let s = choose|s: int| 0 <= s < 6 && sn == run_seq(s, len0);
                        lemma_run_count(s, len0);
                    }
                    let mut x: usize = 0;
                    while x < 6
                        invariant
                            x <= 6,
                            y <= 6,
                            self.y == y,
                            self.snake@ == sn,
                            sn.len() == 6,
                            g0.len() == 42,
                            self.grid@ == climb(g0, sn, y as int, x as int).0,
                            self.length == len0 - climb(g0, sn, y as int, x as int).1,
                            climb(g0, sn, y as int, x as int).1 <= filled_count(sn, x as int),
                            filled_count(sn, 6) <= len0,
                            len0 <= 3,
                            self.tick == old(self).tick.wrapping_add(1),
                            self.rising == old(self).rising,
                            self.finished == old(self).finished,
                        decreases 6 - x,
                    {
                        proof {
                            lemma_climb_grid_shape(g0, sn, y as int, x as int);
                        }
                        if self.snake[x] == Block::Filled {
                            if y == 0 || self.grid[x + y * 6 - 6] == Block::Filled {
                                let idx = x + y * 6;
                                self.grid[idx] = Block::Filled;
                            } else {
                                proof {
                                    lemma_filled_count_mono(sn, x as int + 1, 6);
                                }
                                self.length = self.length - 1;
                            }
                        }
                        x = x + 1;
                    }
                    self.y = self.y + 1;
                    if self.length == 0 || self.y == 7 {
                        self.y = 0;
                        self.rising = false;
                        self.finished = true;
                        let mut cleared: Vec<Block> = Vec::new();
                        let mut i: usize = 0;
                        while i < 6
                            invariant
                                i <= 6,
                                cleared@.len() == i,
                                forall|j: int| 0 <= j < i ==> cleared@[j] is Empty,
                            decreases 6 - i,
                        {
                            cleared.push(Block::Empty);
                            i = i + 1;
                        }
                        self.snake = cleared;
                        proof {
                            assert(self.snake@ =~= empty_snake());
                            assert(self.abs() =~= step_tick(old(self).abs()));
                        }
                        return ;
                    }
                    let mut rebuilt: Vec<Block> = Vec::new();
                    let mut i: usize = 0;
                    let len = self.length;
                    while i < 6
                        invariant
                            i <= 6,
                            rebuilt@.len() == i,
                            forall|j: int| 0 <= j < i ==> rebuilt@[j] == run_cell(0, len as int, j),
                        decreases 6 - i,
                    {
                        if i < len {
                            rebuilt.push(Block::Filled);
                        } else {
                            rebuilt.push(Block::Empty);
                        }
                        i = i + 1;
                    }
                    self.snake = rebuilt;
                    proof {
                        assert(self.snake@ =~= run_seq(0, len as int));
                    }
                }
                self.rising = false;
                if self.tick % 8 == 0 {
                    let ghost s0 = self.snake@;
                    let ghost pre = *self;
                    let mut space_reached = false;
                    let mut x: usize = 0;
                    while x <= 6
                        invariant_except_break
                            x <= 7,
                            *self == pre,
                            self.snake@ == s0,
                            s0.len() == 6,
                            self.length <= 6,
                            slide_scan(s0, self.length as int, x as int, space_reached) == slide(
                                s0,
                                self.length as int,
                            ),
                        ensures
                            self.snake@ == slide(s0, self.length as int),
                            self.grid@ == pre.grid@,
                            self.tick == pre.tick,
                            self.rising == pre.rising,
                            self.finished == pre.finished,
                            self.y == pre.y,
                            self.length == pre.length,
                        decreases 7 - x,
                    {
                        let xi = x % 6;
                        if self.snake[xi] == Block::Empty {
                            space_reached = true;
                            x = x + 1;
                            continue ;
                        }
                        if space_reached {
                            self.snake[xi] = Block::Empty;
                            let target = (xi + self.length) % 6;
                            self.snake[target] = Block::Filled;
                            break ;
                        }
                        x = x + 1;
                    }
                }
                proof {
                    assert(self.abs() =~= step_tick(old(self).abs()));
                }
            },
        }
    }

    /// Build the frame this state describes: one 24x24 block for every
    /// filled grid cell (row-major), then one for every filled snake cell,
    /// the snake drawn at the height it is about to climb to.
    pub fn view(&self) -> (oam: OAM)
        requires
            self.wf(),
        ensures
            oam.objects@ == view_objects(self.abs()),
    {
        let mut objects: Vec<Object> = Vec::new();
        let mut row: usize = 0;
        while row < 7
            invariant
                row <= 7,
                self.grid@.len() == 42,
                objects@ == grid_objects(self.grid@, row as int * 6),
            decreases 7 - row,
        {
            let mut col: usize = 0;
            while col < 6
                invariant
                    row < 7,
                    col <= 6,
                    self.grid@.len() == 42,
                    objects@ == grid_objects(self.grid@, row as int * 6 + col as int),
                decreases 6 - col,
            {
                let value = self.grid[row * 6 + col];
                if value == Block::Filled {
                    let object = Object {
                        sprite: Sprite::Block,
                        width: 24,
                        height: 24,
                        x: (col as u16) * 24,
                        y: (6 - row as u16) * 24,
                    };
                    objects.push(object);
                }
                proof {
                    let i = row as int * 6 + col as int;
                    assert(i % 6 == col as int && i / 6 == row as int) by (nonlinear_arith)
                        requires
                            0 <= col < 6,
                            0 <= row,
                            i == row as int * 6 + col as int,
                    ;
                    assert(objects@ =~= grid_objects(self.grid@, i + 1));
                }
                col = col + 1;
            }
            row = row + 1;
        }
        let y = self.y;
        let mut x: usize = 0;
        while x < 6
            invariant
                x <= 6,
                y == self.y,
                y <= 6,
                self.snake@.len() == 6,
                self.grid@.len() == 42,
                objects@ == grid_objects(self.grid@, 42) + snake_objects(
                    self.snake@,
                    y as int,
                    x as int,
                ),
            decreases 6 - x,
        {
            if self.snake[x] == Block::Filled {
                let object = Object {
                    sprite: Sprite::Block,
                    width: 24,
                    height: 24,
                    x: (x as u16) * 24,
                    y: (6 - y as u16) * 24,
                };
                objects.push(object);
            }
            proof {
                assert(objects@ =~= grid_objects(self.grid@, 42) + snake_objects(
                    self.snake@,
                    y as int,
                    x as int + 1,
                ));
            }
            x = x + 1;
        }
        OAM { objects }
    }
}

} // verus!

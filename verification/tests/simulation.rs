use walker::engine::{Block, Model, Msg};
use walker::sprites::Sprite;

fn filled(n: usize) -> Vec<Block> {
    let mut v = Vec::new();
    for i in 0..6 {
        if i < n {
            v.push(Block::Filled);
        } else {
            v.push(Block::Empty);
        }
    }
    v
}

fn empty_grid() -> Vec<Block> {
    let mut v = Vec::new();
    for _ in 0..42 {
        v.push(Block::Empty);
    }
    v
}

#[test]
fn new_starts_in_the_initial_state() {
    let m = Model::new();
    assert_eq!(m.grid, empty_grid());
    assert_eq!(m.snake, filled(3));
    assert_eq!(m.tick, 0);
    assert_eq!(m.y, 0);
    assert_eq!(m.length, 3);
    assert!(!m.rising);
    assert!(!m.finished);
}

#[test]
fn press_only_records_the_request() {
    let mut m = Model::new();
    m.update(Msg::Pressed);
    assert!(m.rising);
    assert_eq!(m.grid, empty_grid());
    assert_eq!(m.snake, filled(3));
    assert_eq!(m.tick, 0);
    assert_eq!(m.y, 0);
    assert_eq!(m.length, 3);
    assert!(!m.finished);
}

#[test]
fn eight_quiet_ticks_slide_the_snake_once() {
    let mut m = Model::new();
    for _ in 0..7 {
        m.update(Msg::Tick);
        assert_eq!(m.snake, filled(3), "the slide must not fire before tick 8");
    }
    m.update(Msg::Tick);
    assert_eq!(m.tick, 8);
    assert_eq!(
        m.snake,
        vec![Block::Empty, Block::Filled, Block::Filled, Block::Filled, Block::Empty, Block::Empty]
    );
    assert_eq!(m.length, 3);
}

#[test]
fn sliding_keeps_the_filled_count_and_rotates() {
    let mut m = Model::new();
    for t in 1..=24usize {
        let before = m.snake.clone();
        m.update(Msg::Tick);
        let count = m.snake.iter().filter(|b| **b == Block::Filled).count();
        assert_eq!(count, 3);
        if t % 8 == 0 {
            // the run moved one slot: the old start emptied, one past the old
            // end filled
            assert_ne!(m.snake, before);
        } else {
            assert_eq!(m.snake, before);
        }
    }
    // three slides from [0..3): the run now starts at ring index 3
    assert_eq!(
        m.snake,
        vec![Block::Empty, Block::Empty, Block::Empty, Block::Filled, Block::Filled, Block::Filled]
    );
}

#[test]
fn press_then_tick_climbs_onto_the_ground_row() {
    let mut m = Model::new();
    m.update(Msg::Pressed);
    m.update(Msg::Tick);
    for col in 0..6 {
        let want = if col < 3 { Block::Filled } else { Block::Empty };
        assert_eq!(m.grid[col], want, "grid row 0, column {col}");
    }
    for i in 6..42 {
        assert_eq!(m.grid[i], Block::Empty);
    }
    assert_eq!(m.y, 1);
    assert_eq!(m.snake, filled(3));
    assert_eq!(m.length, 3);
    assert!(!m.rising);
    assert!(!m.finished);
}

#[test]
fn seven_climb_attempts_finish_the_run() {
    let mut m = Model::new();
    for _ in 0..7 {
        assert!(!m.finished);
        m.update(Msg::Pressed);
        m.update(Msg::Tick);
    }
    assert!(m.finished);
    assert_eq!(m.y, 0);
    assert!(!m.rising);
    assert_eq!(m.snake, filled(0));
    // a tower three columns wide, seven rows tall
    for row in 0..7 {
        for col in 0..6 {
            let want = if col < 3 { Block::Filled } else { Block::Empty };
            assert_eq!(m.grid[row * 6 + col], want, "grid row {row}, column {col}");
        }
    }
}

#[test]
fn finished_ticks_change_nothing() {
    let mut m = Model::new();
    for _ in 0..7 {
        m.update(Msg::Pressed);
        m.update(Msg::Tick);
    }
    assert!(m.finished);
    let grid = m.grid.clone();
    let snake = m.snake.clone();
    let tick = m.tick;
    let length = m.length;
    for _ in 0..20 {
        m.update(Msg::Tick);
        assert!(m.finished);
        assert_eq!(m.grid, grid);
        assert_eq!(m.snake, snake);
        assert_eq!(m.tick, tick);
        assert_eq!(m.y, 0);
        assert_eq!(m.length, length);
        assert!(!m.rising);
    }
}

#[test]
fn restart_reproduces_the_initial_state() {
    let mut m = Model::new();
    for _ in 0..7 {
        m.update(Msg::Pressed);
        m.update(Msg::Tick);
    }
    assert!(m.finished);
    m.update(Msg::Pressed);
    m.update(Msg::Tick);
    let fresh = Model::new();
    assert_eq!(m.grid, fresh.grid);
    assert_eq!(m.snake, fresh.snake);
    assert_eq!(m.tick, fresh.tick);
    assert_eq!(m.y, fresh.y);
    assert_eq!(m.length, fresh.length);
    assert_eq!(m.rising, fresh.rising);
    assert_eq!(m.finished, fresh.finished);
}

#[test]
fn failed_attachment_loses_every_unsupported_column() {
    // a snake asked to climb to row 1 with nothing below: every column fails
    let mut m = Model {
        grid: empty_grid(),
        snake: filled(3),
        tick: 0,
        rising: true,
        finished: false,
        y: 1,
        length: 3,
    };
    m.update(Msg::Tick);
    assert!(m.finished, "losing every column ends the run");
    assert_eq!(m.length, 0);
    assert_eq!(m.snake, filled(0));
    assert_eq!(m.grid, empty_grid());
    assert_eq!(m.y, 0);
}

#[test]
fn failed_attachment_is_charged_per_column() {
    // only column 0 has support at row 0: columns 1 and 2 are lost
    let mut grid = empty_grid();
    grid[0] = Block::Filled;
    let mut m = Model {
        grid,
        snake: filled(3),
        tick: 0,
        rising: true,
        finished: false,
        y: 1,
        length: 3,
    };
    m.update(Msg::Tick);
    assert!(!m.finished);
    assert_eq!(m.length, 1);
    assert_eq!(m.y, 2);
    assert_eq!(m.snake, filled(1));
    assert_eq!(m.grid[0], Block::Filled);
    assert_eq!(m.grid[6], Block::Filled, "column 0 attached at row 1");
    for i in 7..42 {
        assert_eq!(m.grid[i], Block::Empty);
    }
}

#[test]
fn length_never_grows_within_one_run() {
    let mut m = Model::new();
    let mut last = m.length;
    // climb from a state where only part of the snake finds support
    m.update(Msg::Pressed);
    m.update(Msg::Tick);
    for _ in 0..40 {
        m.update(Msg::Pressed);
        m.update(Msg::Tick);
        if m.finished {
            break;
        }
        assert!(m.length <= last);
        last = m.length;
    }
}

#[test]
fn view_of_the_initial_state_draws_the_snake_on_the_bottom_row() {
    let m = Model::new();
    let oam = m.view();
    assert_eq!(oam.objects.len(), 3);
    for (i, o) in oam.objects.iter().enumerate() {
        assert_eq!(o.sprite, Sprite::Block);
        assert_eq!(o.width, 24);
        assert_eq!(o.height, 24);
        assert_eq!(o.x, (i as u16) * 24);
        assert_eq!(o.y, 144);
    }
}

#[test]
fn view_draws_grid_cells_before_snake_cells() {
    let mut m = Model::new();
    m.update(Msg::Pressed);
    m.update(Msg::Tick);
    let oam = m.view();
    assert_eq!(oam.objects.len(), 6);
    // grid row 0 renders at the bottom of the output
    for i in 0..3 {
        assert_eq!(oam.objects[i].x, (i as u16) * 24);
        assert_eq!(oam.objects[i].y, 144);
    }
    // the snake renders one row above, at the height it will climb to
    for i in 0..3 {
        assert_eq!(oam.objects[3 + i].x, (i as u16) * 24);
        assert_eq!(oam.objects[3 + i].y, 120);
    }
}

#[test]
fn frames_compare_by_value() {
    let mut m = Model::new();
    let a = m.view();
    let b = m.view();
    assert!(a == b);
    m.update(Msg::Tick);
    let c = m.view();
    assert!(a == c, "a quiet tick before the first slide draws the same frame");
    for _ in 0..7 {
        m.update(Msg::Tick);
    }
    let d = m.view();
    assert!(a != d, "the slide at tick 8 changes the frame");
}

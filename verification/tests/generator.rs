use algo_tiles::action::Page;
use algo_tiles::board::{fit, generate, model_default, shift, BoardConfig};
use algo_tiles::model::Model;
use rand::rngs::StdRng;
use rand::seq::SliceRandom;
use rand::{Rng, SeedableRng};

/// The board that the draws give when they are made one by one, in the
/// order in which a board is laid out.
fn drawn_by_hand(config: &BoardConfig) -> (Vec<i64>, Vec<(u64, u64)>) {
    let mut rng = StdRng::from_seed(config.seed);
    let mut points = Vec::new();
    for &x in &config.rows {
        for &y in &config.cols {
            let dx: i64 = rng.gen_range(-config.jitter, config.jitter + 1);
            let dy: i64 = rng.gen_range(-config.jitter, config.jitter + 1);
            points.push(((x as i64 + dx).max(0) as u64, (y as i64 + dy).max(0) as u64));
        }
    }
    points.shuffle(&mut rng);
    let n: usize = rng.gen_range(config.count_min, config.count_max + 1);
    let values = (0..n)
        .map(|_| rng.gen_range(config.value_min, config.value_max + 1))
        .collect::<Vec<i64>>();
    points.resize(n, config.filler);
    (values, points)
}

fn assert_matches(model: &Model, values: &[i64], points: &[(u64, u64)]) {
    assert_eq!(model.len(), values.len());
    assert_eq!(model.len(), points.len());
    for (i, tile) in model.tiles().iter().enumerate() {
        assert_eq!(tile.id, i);
        assert_eq!(tile.value, values[i]);
        assert_eq!(tile.position, points[i]);
        assert!(!tile.used);
    }
}

fn wide(seed: u8) -> BoardConfig {
    BoardConfig {
        seed: [seed; 32],
        rows: vec![10, 20, 30, 40],
        cols: vec![5, 15, 25],
        jitter: 4,
        count_min: 3,
        count_max: 40,
        value_min: -1000,
        value_max: 5000,
        filler: (99, 98),
    }
}

#[test]
fn shift_moves_and_stops_at_the_ends() {
    assert_eq!(shift(6, -2), 4);
    assert_eq!(shift(6, 2), 8);
    assert_eq!(shift(76, 0), 76);
    assert_eq!(shift(1, -2), 0);
    assert_eq!(shift(0, -1), 0);
    assert_eq!(shift(2, -2), 0);
    assert_eq!(shift(5, i64::MIN), 0);
    assert_eq!(shift(u64::MAX, i64::MIN), 9223372036854775807);
    assert_eq!(shift(u64::MAX, 1), u64::MAX);
    assert_eq!(shift(u64::MAX - 1, 1), u64::MAX);
    assert_eq!(shift(0, i64::MAX), 9223372036854775807);
    assert_eq!(shift(u64::MAX - 3, i64::MAX), u64::MAX);
}

#[test]
fn fit_cuts_a_long_list() {
    let mut points = vec![(1, 1), (2, 2), (3, 3), (4, 4)];
    fit(&mut points, 2, (50, 50));
    assert_eq!(points, vec![(1, 1), (2, 2)]);
    fit(&mut points, 0, (50, 50));
    assert_eq!(points, vec![]);
}

#[test]
fn fit_fills_a_short_list() {
    let mut points = vec![(1, 1), (2, 2)];
    fit(&mut points, 5, (50, 51));
    assert_eq!(points, vec![(1, 1), (2, 2), (50, 51), (50, 51), (50, 51)]);
    fit(&mut points, 5, (7, 7));
    assert_eq!(points, vec![(1, 1), (2, 2), (50, 51), (50, 51), (50, 51)]);
}

#[test]
fn standard_configuration() {
    let config = BoardConfig::standard();
    assert_eq!(config.seed, [13u8; 32]);
    assert_eq!(config.rows, vec![6, 18, 30]);
    assert_eq!(config.cols, vec![16, 28, 40, 52, 64, 76]);
    assert_eq!(config.jitter, 2);
    assert_eq!((config.count_min, config.count_max), (12, 12));
    assert_eq!((config.value_min, config.value_max), (-100, 100));
    assert_eq!(config.filler, (50, 50));
    assert!(config.is_valid());
}

#[test]
fn standard_game_starts_fresh() {
    let model = model_default();
    assert_eq!(model.len(), 12);
    assert_eq!(model.selected(), None);
    assert_eq!(model.page(), Page::Play);
    assert!(!model.is_finished());
    assert_eq!(model.name(), "");
    assert_eq!(model.count_used(), 0);
    assert_eq!(model.visible_tiles().len(), 12);
}

#[test]
fn standard_board() {
    let expected: [(i64, (u64, u64)); 12] = [
        (4, (32, 76)),
        (-33, (18, 52)),
        (52, (7, 27)),
        (94, (18, 42)),
        (-79, (31, 17)),
        (31, (6, 75)),
        (-86, (20, 65)),
        (45, (18, 27)),
        (-48, (29, 28)),
        (-10, (4, 66)),
        (24, (28, 54)),
        (2, (7, 18)),
    ];
    let model = model_default();
    let tiles = model.tiles().iter().map(|t| (t.value, t.position)).collect::<Vec<_>>();
    assert_eq!(tiles, expected.to_vec());
}

#[test]
fn same_configuration_gives_the_same_board() {
    let a = model_default();
    let b = model_default();
    assert_eq!(a.tiles(), b.tiles());
    let c = generate(&wide(7));
    let d = generate(&wide(7));
    assert_eq!(c.tiles(), d.tiles());
    assert!(c.len() >= 3);
}

#[test]
fn standard_board_is_the_one_the_draws_give() {
    let (values, points) = drawn_by_hand(&BoardConfig::standard());
    assert_eq!(values.len(), 12);
    assert_matches(&model_default(), &values, &points);
}

#[test]
fn boards_are_the_ones_the_draws_give() {
    for seed in 0..40u8 {
        let config = wide(seed);
        let (values, points) = drawn_by_hand(&config);
        assert_matches(&generate(&config), &values, &points);
    }
}

#[test]
fn seed_decides_the_board() {
    let boards = (0..8u8).map(|s| generate(&wide(s)).tiles().clone()).collect::<Vec<_>>();
    for i in 0..boards.len() {
        for j in 0..i {
            assert_ne!(boards[i], boards[j]);
        }
    }
}

#[test]
fn standard_values_and_positions_are_in_range() {
    let model = model_default();
    for tile in model.tiles() {
        assert!(-100 <= tile.value && tile.value <= 100);
        let (x, y) = tile.position;
        assert!([6u64, 18, 30].iter().any(|&r| r - 2 <= x && x <= r + 2));
        assert!([16u64, 28, 40, 52, 64, 76].iter().any(|&c| c - 2 <= y && y <= c + 2));
    }
}

#[test]
fn generated_boards_are_in_range() {
    let mut counts = Vec::new();
    for seed in 0..40u8 {
        let config = wide(seed);
        let model = generate(&config);
        assert!(3 <= model.len() && model.len() <= 40);
        counts.push(model.len());
        for tile in model.tiles() {
            assert!(-1000 <= tile.value && tile.value <= 5000);
            let (x, y) = tile.position;
            let on_grid = config.rows.iter().any(|&r| r - 4 <= x && x <= r + 4)
                && config.cols.iter().any(|&c| c - 4 <= y && y <= c + 4);
            assert!(on_grid || tile.position == (99, 98));
        }
        for tile in model.tiles().iter().skip(12) {
            assert_eq!(tile.position, (99, 98));
        }
    }
    assert!(counts.iter().any(|&n| n != 3));
    assert!(counts.iter().any(|&n| n != counts[0]));
}

#[test]
fn values_are_drawn_not_fixed() {
    let model = model_default();
    let first = model.tiles()[0].value;
    assert!(model.tiles().iter().any(|t| t.value != first));
    assert!(model.tiles().iter().any(|t| t.value != -100));
}

#[test]
fn positions_are_shuffled() {
    let config = BoardConfig { count_min: 12, count_max: 12, jitter: 0, ..wide(3) };
    let model = generate(&config);
    let in_grid_order = vec![
        (10, 5), (10, 15), (10, 25), (20, 5), (20, 15), (20, 25),
        (30, 5), (30, 15), (30, 25), (40, 5), (40, 15), (40, 25),
    ];
    let mut positions = model.tiles().iter().map(|t| t.position).collect::<Vec<_>>();
    assert_ne!(positions, in_grid_order);
    positions.sort();
    assert_eq!(positions, in_grid_order);
}

#[test]
fn jitter_is_clamped_at_zero() {
    let config = BoardConfig {
        rows: vec![0, 1],
        cols: vec![0, 1, 2],
        jitter: 3,
        count_min: 6,
        count_max: 6,
        ..wide(5)
    };
    let model = generate(&config);
    assert_eq!(model.len(), 6);
    for tile in model.tiles() {
        assert!(tile.position.0 <= 4);
        assert!(tile.position.1 <= 5);
    }
    let (values, points) = drawn_by_hand(&config);
    assert_matches(&model, &values, &points);
    assert!(points.iter().any(|p| p.0 == 0 || p.1 == 0));
}

#[test]
fn small_grid_is_filled_up() {
    let config = BoardConfig {
        rows: vec![10],
        cols: vec![20, 30],
        count_min: 5,
        count_max: 5,
        ..wide(1)
    };
    let model = generate(&config);
    assert_eq!(model.len(), 5);
    for tile in &model.tiles()[2..] {
        assert_eq!(tile.position, (99, 98));
    }
    for tile in &model.tiles()[..2] {
        assert!(6 <= tile.position.0 && tile.position.0 <= 14);
    }
}

#[test]
fn empty_grid_and_empty_board() {
    let config = BoardConfig { rows: vec![], count_min: 0, count_max: 0, ..wide(1) };
    assert!(config.is_valid());
    let model = generate(&config);
    assert_eq!(model.len(), 0);
    assert!(!model.is_finished());
}

#[test]
fn generated_board_can_be_played_to_the_end() {
    let mut model = model_default();
    let values = model.tiles().iter().map(|t| t.value).collect::<Vec<_>>();
    for id in 1..12 {
        assert!(!model.is_finished());
        model.select_tile(0);
        model.select_tile(id);
    }
    assert!(model.is_finished());
    let rest: i64 = values[1..].iter().sum();
    assert_eq!(model.score(), Some(values[0] - rest));
}

#[test]
fn invalid_configurations_are_told_apart() {
    assert!(wide(0).is_valid());
    assert!(!BoardConfig { jitter: -1, ..wide(0) }.is_valid());
    assert!(!BoardConfig { jitter: i64::MAX, ..wide(0) }.is_valid());
    assert!(BoardConfig { jitter: 0, ..wide(0) }.is_valid());
    assert!(!BoardConfig { count_min: 41, ..wide(0) }.is_valid());
    assert!(BoardConfig { count_min: 40, ..wide(0) }.is_valid());
    assert!(!BoardConfig { count_max: usize::MAX, ..wide(0) }.is_valid());
    assert!(!BoardConfig { value_min: 5001, ..wide(0) }.is_valid());
    assert!(BoardConfig { value_min: 5000, ..wide(0) }.is_valid());
    assert!(!BoardConfig { value_max: i64::MAX, count_max: 1, count_min: 1, ..wide(0) }.is_valid());
}

#[test]
fn configurations_that_could_overflow_are_invalid() {
    let heavy = BoardConfig { value_min: 0, value_max: i64::MAX - 1, ..wide(0) };
    assert!(!heavy.is_valid());
    assert!(BoardConfig { count_min: 1, count_max: 1, ..heavy }.is_valid());
    let low = BoardConfig { value_min: i64::MIN, value_max: 0, count_min: 1, count_max: 1, ..wide(0) };
    assert!(!low.is_valid());
    assert!(BoardConfig { count_min: 0, count_max: 0, ..low }.is_valid());
    let edge = BoardConfig {
        value_min: -3,
        value_max: 3074457345618258602,
        count_min: 3,
        count_max: 3,
        ..wide(0)
    };
    assert!(edge.is_valid());
    assert!(!BoardConfig { value_max: 3074457345618258603, ..edge }.is_valid());
}

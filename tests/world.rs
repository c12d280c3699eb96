use snake_game::aux::{Color, Coordinates, Direction};
use snake_game::error::GameError;
use snake_game::game::{DirectionChoice, GameData, Settings, SnakeLength};
use snake_game::grid::GameObject;
use snake_game::snake::bump_parts;

fn settings(snakes: usize, apples: usize) -> Settings {
    Settings {
        snakes_amount: snakes,
        apples_amount: apples,
        snake_step: 1,
        snake_increment_size: 1,
        snake_length: SnakeLength::Fixed(1),
        snake_direction: Some(Direction::Right),
    }
}

fn head_of(gd: &GameData, name: &str) -> (i32, i32) {
    gd.snake(name).unwrap().parts().last().unwrap().coords().into()
}

fn coords_of(gd: &GameData, name: &str) -> Vec<(i32, i32)> {
    gd.snake(name).unwrap().parts().iter().map(|p| p.coords().into()).collect()
}

#[test]
fn kill_dead_snakes() {
    let mut gd = GameData::new(Some((20, 20)), Default::default());

    gd.spawn_snake("1", Some((-1, -1).into()), DirectionChoice::Configured, Some(1)).unwrap();

    gd.spawn_snake("2", Some((15, 5).into()), DirectionChoice::Configured, Some(5)).unwrap();
    bump_parts(gd.snake_mut("2").unwrap()).unwrap();

    gd.spawn_snake("3", Some((4, 6).into()), DirectionChoice::Configured, Some(1)).unwrap();
    gd.spawn_snake("4", Some((3, 6).into()), DirectionChoice::Configured, Some(2)).unwrap();

    gd.kill_dead_snakes();

    assert!(!gd.find_snake("1"), "snake 1 should be dead");
    assert!(!gd.find_snake("2"), "snake 2 should be dead");
    // A head meets another snake only by lying on a part other than its
    // head: snake 3 is next to snake 4's head and both live.
    assert!(gd.find_snake("3"), "snake 3 should be alive");
    assert!(gd.find_snake("4"), "snake 4 should be alive");
}

#[test]
fn head_on_other_body_dies() {
    let mut gd = GameData::new(Some((20, 20)), settings(0, 0));
    gd.spawn_snake_at("long", Coordinates::new(8, 5), Direction::Right, 5).unwrap();
    gd.spawn_snake_at("biter", Coordinates::new(6, 5), Direction::Up, 1).unwrap();
    gd.spawn_snake_at("free", Coordinates::new(2, 2), Direction::Up, 1).unwrap();
    gd.kill_dead_snakes();
    assert!(!gd.find_snake("biter"));
    assert!(gd.find_snake("long"));
    assert!(gd.find_snake("free"));
    assert_eq!(gd.snakes(), 2);
}

#[test]
fn spawn_places_head_at_coords() {
    let mut gd = GameData::new(Some((20, 20)), settings(0, 0));
    gd.spawn_snake("A", Some((5, 5).into()), DirectionChoice::Fixed(Direction::Right), Some(3)).unwrap();
    assert_eq!(coords_of(&gd, "A"), [(3, 5), (4, 5), (5, 5)]);
    gd.spawn_snake("B", Some((5, 9).into()), DirectionChoice::Fixed(Direction::Down), Some(2)).unwrap();
    assert_eq!(coords_of(&gd, "B"), [(5, 10), (5, 9)]);
}

#[test]
fn spawn_with_random_position_stays_inside() {
    for _ in 0..50 {
        let mut gd = GameData::new(Some((30, 20)), settings(0, 0));
        gd.spawn_snake("A", None, DirectionChoice::Random, Some(4)).unwrap();
        let snake = gd.snake("A").unwrap();
        assert_eq!(snake.len(), 4);
        for p in snake.parts() {
            let (x, y): (i32, i32) = p.coords().into();
            assert!((1..=30).contains(&x) && (1..=20).contains(&y));
        }
    }
}

#[test]
fn spawn_with_random_length_in_range() {
    let mut s = settings(0, 0);
    s.snake_length = SnakeLength::Random(5..10);
    s.snake_direction = None;
    for i in 0..30 {
        let mut gd = GameData::new(Some((40, 40)), s.clone());
        let name = format!("s{}", i);
        gd.spawn_snake(&name, None, DirectionChoice::Configured, None).unwrap();
        let len = gd.snake(&name).unwrap().len();
        assert!((5..10).contains(&len));
    }
}

#[test]
fn snake_length() {
    assert_eq!(SnakeLength::Fixed(10).get(), 10);
    assert!(SnakeLength::Random(5..10).get() > 4);
    assert!(SnakeLength::Random(5..10).get() < 10);
    assert_eq!(SnakeLength::Random(7..8).get(), 7);
}

#[test]
fn duplicate_name_rejected() {
    let mut gd = GameData::new(Some((20, 20)), settings(0, 0));
    gd.spawn_snake("A", Some((5, 5).into()), DirectionChoice::Configured, Some(1)).unwrap();
    let r = gd.spawn_snake("A", Some((9, 9).into()), DirectionChoice::Configured, Some(1));
    assert!(matches!(r, Err(GameError::NonUniqueName(ref n)) if n == "A"));
    assert_eq!(gd.snakes(), 1);
    assert_eq!(head_of(&gd, "A"), (5, 5));
}

#[test]
fn snake_capacity() {
    let mut gd = GameData::new(Some((20, 20)), settings(2, 0));
    gd.spawn_snake("A", None, DirectionChoice::Configured, None).unwrap();
    gd.spawn_snake("B", None, DirectionChoice::Configured, None).unwrap();
    let r = gd.spawn_snake("C", None, DirectionChoice::Configured, None);
    assert!(matches!(r, Err(GameError::TooMuchSnakes(ref n)) if n == "C"));
    assert_eq!(gd.snakes(), 2);
}

#[test]
fn unlimited_capacity() {
    let mut gd = GameData::new(Some((50, 50)), settings(0, 0));
    for i in 0..40 {
        gd.spawn_snake(&format!("s{}", i), None, DirectionChoice::Configured, None).unwrap();
        gd.spawn_apple(Coordinates::new(1, 1), None).unwrap();
    }
    assert_eq!(gd.snakes(), 40);
}

#[test]
fn apple_capacity() {
    let mut gd = GameData::new(Some((20, 20)), settings(0, 3));
    for _ in 0..3 {
        gd.spawn_apple(Coordinates::new(2, 2), None).unwrap();
    }
    let r = gd.spawn_apple(Coordinates::new(7, 8), Some(Color::blue()));
    assert!(matches!(r, Err(GameError::TooMuchApples(c)) if c == Coordinates::new(7, 8)));
}

#[test]
fn kill_snake_and_not_found() {
    let mut gd = GameData::new(Some((20, 20)), settings(0, 0));
    gd.spawn_snake("A", Some((5, 5).into()), DirectionChoice::Configured, Some(2)).unwrap();
    let s = gd.kill_snake("A").unwrap();
    assert_eq!(s.name(), "A");
    assert_eq!(s.len(), 2);
    assert!(!gd.find_snake("A"));
    assert!(matches!(gd.kill_snake("A"), Err(GameError::SnakeNotFound(ref n)) if n == "A"));
    assert!(matches!(gd.snake("B"), Err(GameError::SnakeNotFound(_))));
    assert!(matches!(gd.snake_mut("B"), Err(GameError::SnakeNotFound(_))));
}

#[test]
fn world_change_direction() {
    let mut gd = GameData::new(Some((20, 20)), settings(0, 0));
    gd.spawn_snake("A", Some((5, 5).into()), DirectionChoice::Configured, Some(3)).unwrap();
    gd.spawn_snake("B", Some((9, 9).into()), DirectionChoice::Configured, Some(1)).unwrap();
    assert!(matches!(
        gd.change_direction("A", Direction::Left),
        Err(GameError::ChangeDirectionToOpposite(_))
    ));
    gd.change_direction("A", Direction::Up).unwrap();
    assert_eq!(gd.snake("A").unwrap().direction(), Direction::Up);
    gd.change_direction("B", Direction::Left).unwrap();
    assert_eq!(gd.snake("B").unwrap().direction(), Direction::Left);
    assert!(matches!(gd.change_direction("C", Direction::Up), Err(GameError::SnakeNotFound(_))));
}

#[test]
fn scoreboard_lists_names_and_lengths() {
    let mut gd = GameData::new(Some((20, 20)), settings(0, 0));
    gd.spawn_snake("A", Some((5, 5).into()), DirectionChoice::Configured, Some(3)).unwrap();
    gd.spawn_snake("B", Some((9, 9).into()), DirectionChoice::Configured, Some(1)).unwrap();
    assert_eq!(gd.scoreboard(), vec![("A".to_string(), 3), ("B".to_string(), 1)]);
}

#[test]
fn tick_moves_head_and_tail() {
    let mut gd = GameData::new(Some((20, 20)), Default::default());
    gd.spawn_snake("A", Some((5, 5).into()), DirectionChoice::Fixed(Direction::Right), Some(3)).unwrap();
    let before = coords_of(&gd, "A");
    gd.advance_tick().unwrap();
    let after = coords_of(&gd, "A");
    assert_eq!(head_of(&gd, "A"), (6, 5));
    assert_eq!(after[0], before[1]);
    assert_eq!(after, [(4, 5), (5, 5), (6, 5)]);
}

#[test]
fn tick_eats_apple_and_grows() {
    let mut gd = GameData::new(Some((20, 20)), Default::default());
    gd.spawn_apple(Coordinates::new(5, 5), None).unwrap();
    gd.spawn_snake("A", Some((5, 5).into()), DirectionChoice::Configured, None).unwrap();
    assert_eq!(gd.snake("A").unwrap().len(), 1);
    gd.advance_tick().unwrap();
    assert_eq!(gd.snake("A").unwrap().len(), 1 + Settings::SNAKE_INCREMENT_SIZE);
    let grid = gd.grid();
    let apples: Vec<_> = grid.data.iter().filter(|p| p.object_kind == GameObject::Apple).collect();
    assert_eq!(apples.len(), 1);
    let c = apples[0].coords();
    assert!(c.x >= 1 && c.x <= 20 && c.y >= 1 && c.y <= 20);
}

#[test]
fn tick_growth_by_increment() {
    let mut s = settings(0, 0);
    s.snake_increment_size = 3;
    let mut gd = GameData::new(Some((20, 20)), s);
    gd.spawn_apple(Coordinates::new(5, 5), None).unwrap();
    gd.spawn_snake("A", Some((5, 5).into()), DirectionChoice::Configured, Some(2)).unwrap();
    gd.advance_tick().unwrap();
    assert_eq!(gd.snake("A").unwrap().len(), 5);
    assert_eq!(gd.grid().data.len(), 5);
}

#[test]
fn static_world_keeps_apples() {
    let mut gd = GameData::new(Some((20, 20)), settings(0, 2));
    gd.spawn_apple(Coordinates::new(3, 3), None).unwrap();
    gd.spawn_apple(Coordinates::new(4, 4), None).unwrap();
    gd.advance_tick().unwrap();
    let grid = gd.grid();
    let coords: Vec<(i32, i32)> = grid.data.iter().map(|p| p.coords().into()).collect();
    assert_eq!(coords, [(3, 3), (4, 4)]);
}

#[test]
fn tick_refills_empty_pool() {
    let mut gd = GameData::new(Some((10, 10)), settings(0, 4));
    gd.advance_tick().unwrap();
    let grid = gd.grid();
    assert_eq!(grid.data.len(), 4);
    for p in &grid.data {
        assert_eq!(p.color, Color::red());
        assert_eq!(p.object_kind, GameObject::Apple);
    }
}

#[test]
fn self_collision_removed_by_tick() {
    let mut gd = GameData::new(Some((20, 20)), settings(0, 0));
    gd.spawn_snake("A", Some((10, 10).into()), DirectionChoice::Fixed(Direction::Right), Some(5)).unwrap();
    bump_parts(gd.snake_mut("A").unwrap()).unwrap();
    assert!(gd.snake("A").unwrap().parts_bumped().unwrap());
    gd.advance_tick().unwrap();
    assert!(!gd.find_snake("A"));
}

#[test]
fn out_of_bounds_removed_by_tick() {
    let mut gd = GameData::new(Some((5, 5)), settings(0, 0));
    gd.spawn_snake("A", Some((5, 3).into()), DirectionChoice::Fixed(Direction::Right), Some(1)).unwrap();
    gd.advance_tick().unwrap();
    assert_eq!(head_of(&gd, "A"), (6, 3));
    gd.advance_tick().unwrap();
    assert!(!gd.find_snake("A"));
}

#[test]
fn update_grid_fails_on_empty_snake() {
    let mut gd = GameData::new(Some((20, 20)), settings(0, 0));
    gd.spawn_snake_at("E", Coordinates::new(5, 5), Direction::Right, 0).unwrap();
    assert!(matches!(gd.update_grid(), Err(GameError::EmptySnake(ref n)) if n == "E"));
    gd.kill_dead_snakes();
    assert_eq!(gd.snakes(), 0);
}

#[test]
fn grid_shows_apples_then_parts() {
    let mut gd = GameData::new(Some((20, 20)), settings(0, 0));
    gd.spawn_apple(Coordinates::new(1, 1), Some(Color::blue())).unwrap();
    gd.spawn_snake("A", Some((5, 5).into()), DirectionChoice::Fixed(Direction::Up), Some(2)).unwrap();
    gd.update_grid().unwrap();
    let grid = gd.grid();
    assert_eq!(grid.size, (20, 20));
    assert_eq!(grid.data.len(), 3);
    assert_eq!(grid.data[0].object_kind, GameObject::Apple);
    assert_eq!(grid.data[0].color, Color::red());
    assert_eq!(grid.data[1].coords(), Coordinates::new(5, 5));
    assert_eq!(grid.data[1].color, Color::green());
    assert_eq!(grid.data[2].coords(), Coordinates::new(5, 6));
    assert_eq!(grid.data[2].color, Color::head());
}

#[test]
fn default_settings() {
    let s = Settings::default();
    assert_eq!(s.snakes_amount, 5);
    assert_eq!(s.apples_amount, 1);
    assert_eq!(s.snake_step, 1);
    assert_eq!(s.snake_direction, Some(Direction::Right));
    let gd = GameData::new(None, s);
    assert_eq!(gd.grid().size, (50, 25));
    assert_eq!(gd.settings().apples_amount, 1);
}

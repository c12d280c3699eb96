use snake_game::aux::{Color, Coordinates, Direction};
use snake_game::error::GameError;
use snake_game::snake::{bump_parts, Snake, SnakePart};

/// Return a snake with its first part at (0, 0), `direction` and `n` parts.
fn new_snake(direction: Direction, n: usize) -> Snake {
    Snake::new("snake", (0, 0).into(), direction, n)
}

/// The coordinates of the parts, as tuples.
fn parts_into_tuple_coords(parts: &[SnakePart]) -> Vec<(i32, i32)> {
    parts.iter().map(|p| p.coords().into()).collect::<Vec<(i32, i32)>>()
}

/// The colors of the first five parts.
fn collect_colors(parts: &[SnakePart]) -> Vec<Color> {
    parts[0..5].iter().map(|p| p.color).collect::<Vec<Color>>()
}

#[test]
fn new() {
    let snake = Snake::new("snake", (0, 0).into(), Direction::Right, 5);

    assert_eq!(snake.name(), "snake".to_string());
    assert_eq!(snake.direction(), Direction::Right);

    let part_coords = parts_into_tuple_coords(snake.parts());

    assert_eq!(part_coords, [(0, 0), (1, 0), (2, 0), (3, 0), (4, 0)]);

    let snake = Snake::new("snake", (0, 0).into(), Direction::Left, 5);
    let part_coords = parts_into_tuple_coords(snake.parts());

    assert_eq!(part_coords, [(0, 0), (-1, 0), (-2, 0), (-3, 0), (-4, 0)]);

    let snake = Snake::new("snake", (0, 0).into(), Direction::Up, 5);
    let part_coords = parts_into_tuple_coords(snake.parts());

    assert_eq!(part_coords, [(0, 0), (0, 1), (0, 2), (0, 3), (0, 4)]);

    let snake = Snake::new("snake", (0, 0).into(), Direction::Down, 5);
    let part_coords = parts_into_tuple_coords(snake.parts());

    assert_eq!(part_coords, [(0, 0), (0, -1), (0, -2), (0, -3), (0, -4)]);
}

#[test]
fn new_colors_head_darker() {
    let snake = new_snake(Direction::Right, 3);
    let colors: Vec<Color> = snake.parts().iter().map(|p| p.color).collect();
    assert_eq!(colors, [Color::green(), Color::green(), Color::head()]);
}

#[test]
fn lp_move_expect_zero_length_error() {
    let mut snake = Snake::new("snake", (0, 0).into(), Direction::default(), 0);
    snake.lp_move(1).expect_err("snake zero length error expected");
}

#[test]
fn lp_move() {
    let mut snake = Snake::new("snake", (0, 0).into(), Direction::Right, 5);
    snake.lp_move(1).unwrap();
    let part_coords = parts_into_tuple_coords(snake.parts());
    assert_eq!(part_coords, [(0, 0), (1, 0), (2, 0), (3, 0), (5, 0)]);

    let mut snake = Snake::new("snake", (0, 0).into(), Direction::Left, 5);
    snake.lp_move(-5).unwrap();
    let part_coords = parts_into_tuple_coords(snake.parts());
    assert_eq!(part_coords, [(0, 0), (-1, 0), (-2, 0), (-3, 0), (1, 0)]);

    let mut snake = Snake::new("snake", (0, 0).into(), Direction::Up, 5);
    snake.lp_move(5).unwrap();
    let part_coords = parts_into_tuple_coords(snake.parts());
    assert_eq!(part_coords, [(0, 0), (0, 1), (0, 2), (0, 3), (0, 9)]);
}

#[test]
fn change_dir() {
    let mut snake = new_snake(Direction::Right, 1);
    snake.change_direction(Direction::Left).unwrap();

    assert_eq!(snake.direction(), Direction::Left);

    let mut snake = new_snake(Direction::Up, 5);
    snake
        .change_direction(Direction::Down)
        .expect_err("snake must have wanted to turn 180 degrees");
}

#[test]
fn change_dir_errors() {
    let mut snake = new_snake(Direction::Up, 5);
    assert!(matches!(
        snake.change_direction(Direction::Down),
        Err(GameError::ChangeDirectionToOpposite(ref n)) if n == "snake"
    ));
    assert_eq!(snake.direction(), Direction::Up);
    snake.change_direction(Direction::Left).unwrap();
    assert_eq!(snake.direction(), Direction::Left);

    let mut empty = new_snake(Direction::Up, 0);
    assert!(matches!(
        empty.change_direction(Direction::Down),
        Err(GameError::EmptySnake(ref n)) if n == "snake"
    ));
}

#[test]
fn move_parts() {
    let mut snake = new_snake(Direction::Right, 5);
    snake.move_parts(1).unwrap();
    let parts = parts_into_tuple_coords(snake.parts());

    assert_eq!(parts, [(1, 0), (2, 0), (3, 0), (4, 0), (5, 0)]);

    snake.change_direction(Direction::Up).unwrap();
    snake.move_parts(1).unwrap();
    let parts = parts_into_tuple_coords(snake.parts());
    assert_eq!(parts, [(2, 0), (3, 0), (4, 0), (5, 0), (5, 1)]);

    snake.change_direction(Direction::Left).unwrap();
    snake.move_parts(1).unwrap();
    let parts = parts_into_tuple_coords(snake.parts());
    assert_eq!(parts, [(3, 0), (4, 0), (5, 0), (5, 1), (4, 1)]);
}

#[test]
fn parts_bumped() {
    let mut snake = new_snake(Direction::Right, 5);

    assert!(!snake.parts_bumped().unwrap());
    bump_parts(&mut snake).unwrap();
    assert!(snake.parts_bumped().unwrap());
}

#[test]
fn alive_until_bitten() {
    let mut snake = new_snake(Direction::Right, 5);
    assert!(snake.alive());
    bump_parts(&mut snake).unwrap();
    assert!(!snake.alive());
    assert!(!new_snake(Direction::Right, 0).alive());
}

#[test]
fn insert_part() {
    let mut snake = new_snake(Direction::Right, 5);
    snake.insert_part(Some(Color::white())).unwrap();

    assert_eq!(SnakePart::new((0, 0).into(), Color::white()), snake.parts()[0]);

    snake.move_parts(1).unwrap();
    snake.move_parts(1).unwrap();

    assert_eq!(SnakePart::new((1, 0).into(), Color::white()), snake.parts()[0]);

    snake.insert_part(None).unwrap();

    assert_eq!(snake.parts()[0].color, Color::white());
}

#[test]
fn inc_size() {
    let mut snake = new_snake(Direction::Right, 5);
    let first_part_color = snake.parts()[0].color;

    assert_eq!(snake.len(), 5);

    snake.increment_size(5, None).unwrap();

    assert_eq!(snake.len(), 10);

    assert_eq!(collect_colors(snake.parts()), [first_part_color; 5]);

    let mut check_colors = vec![Color::red(), Color::blue(), Color::yellow()];

    snake
        .increment_size(check_colors.len(), Some(check_colors.clone()))
        .unwrap();

    check_colors.reverse();

    assert_eq!(collect_colors(snake.parts())[0..check_colors.len()], check_colors);

    let mut check_colors = vec![Color::white(), Color::black()];

    snake.increment_size(3, Some(check_colors.clone())).unwrap();

    check_colors.push(Color::black());
    check_colors.reverse();

    assert_eq!(collect_colors(snake.parts())[0..3], check_colors);
}

#[test]
fn inc_size_zero_is_no_op() {
    let mut snake = new_snake(Direction::Right, 0);
    snake.increment_size(0, None).unwrap();
    assert!(snake.is_empty());
    assert!(matches!(snake.increment_size(1, None), Err(GameError::EmptySnake(_))));
}

#[test]
fn len() {
    assert_eq!(new_snake(Default::default(), 18).len(), 18);
}

#[test]
fn is_empty() {
    let snake = new_snake(Default::default(), 0);

    assert!(snake.is_empty());

    let snake = new_snake(Default::default(), 1);

    assert!(!snake.is_empty());
}

#[test]
fn pwl() {
    let snake = new_snake(Default::default(), 5);
    assert_eq!(snake.pwl().last().unwrap().coords(), (3, 0).into());
}

#[test]
fn mv() {
    let mut part = SnakePart::new(Coordinates::new(3, 4), Color::black());

    part.mv((-5, 10));

    assert_eq!((-2, 14), part.coords().into());
}

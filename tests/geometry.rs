use snake_game::aux::{product_retain, Color, Coordinates, Direction};
use snake_game::grid::{GameObject, Grid, GridPoint};

#[test]
fn coords_sum() {
    let coords1 = Coordinates::new(10, 15);
    let coords2 = Coordinates::new(-5, 3);
    let coords3 = Coordinates::new(5, 18);

    assert_eq!(coords1 + coords2, coords3);
}

#[test]
fn coords_sub() {
    let coords1 = Coordinates::new(10, 15);
    let coords2 = Coordinates::new(-5, 3);
    let coords3 = Coordinates::new(15, 12);

    assert_eq!(coords1 - coords2, coords3);
}

#[test]
fn dir_neg() {
    assert_eq!(Direction::Left, -Direction::Right);
    assert_eq!(Direction::Right, -Direction::Left);
    assert_eq!(Direction::Down, -Direction::Up);
    assert_eq!(Direction::Up, -Direction::Down);
}

#[test]
fn dir_from_str() {
    assert_eq!(Direction::Up, "up".parse().unwrap());
    assert_eq!(Direction::Down, "down".parse().unwrap());
    assert_eq!(Direction::Left, "left".parse().unwrap());
    assert_eq!(Direction::Right, "right".parse().unwrap());
}

#[test]
fn dir_from_str_rejects_other_words() {
    assert!("Up".parse::<Direction>().is_err());
    assert!("random".parse::<Direction>().is_err());
    assert!("".parse::<Direction>().is_err());
}

#[test]
fn opposite_directions() {
    assert_eq!(Direction::Up.opposite(), Direction::Down);
    assert_eq!(Direction::Left.opposite(), Direction::Right);
    assert_eq!(Direction::default(), Direction::Right);
}

#[test]
fn coords_conversions() {
    let c: Coordinates = (3, -4).into();
    assert_eq!(c, Coordinates::new(3, -4));
    let t: (i32, i32) = c.into();
    assert_eq!(t, (3, -4));
    assert_eq!(c.to_u32(), [3, -4]);
}

#[test]
fn palette() {
    assert_eq!(Color::red(), Color::new(255, 0, 0, 255));
    assert_eq!(Color::head(), Color::new(0, 200, 0, 255));
    assert_eq!(Color::transparent(), Color::new(0, 0, 0, 0));
    assert_eq!(Color::default(), Color::transparent());
}

#[test]
fn random_coords() {
    let size = (10, 10);
    let grid = Grid::new(size);
    let rc = grid.random_coords(0);
    assert!(rc.x > 0 && rc.x <= size.0 as i32 && rc.y > 0 && rc.y <= size.1 as i32);
}

#[test]
fn random_coords_with_offset() {
    let grid = Grid::new((9, 12));
    for _ in 0..200 {
        let rc = grid.random_coords(4);
        assert_eq!(rc.x, 5);
        assert!(rc.y >= 5 && rc.y <= 8);
    }
}

#[test]
fn two_values_retain() {
    let mut vec = vec![1, 2, 3, 4, 5];
    product_retain(&mut vec, |a, b| a != b);
    assert_eq!(vec, [1, 2, 3, 4, 5]);

    let mut vec = vec![1, 2, 2, 3, 4, 5, 4, 1];
    product_retain(&mut vec, |a, b| a != b);
    assert_eq!(vec, [2, 3, 5, 4, 1]);
}

#[test]
fn retain_keeps_order() {
    let mut vec = vec![5, 1, 4, 2, 3];
    product_retain(&mut vec, |a, b| a + b != 6);
    assert_eq!(vec, [1, 2, 3]);
    let mut empty: Vec<i32> = vec![];
    product_retain(&mut empty, |_, _| false);
    assert!(empty.is_empty());
}

#[test]
fn grid_points_and_copies() {
    let mut p = GridPoint::new(GameObject::Apple, Coordinates::new(2, 3), Color::red());
    p.change_color(Color::cyan());
    assert_eq!(p.color, Color::cyan());
    assert_eq!(p.coords(), Coordinates::new(2, 3));
    let mut g = Grid::default();
    assert_eq!(g.size, (50, 25));
    g.data.push(p);
    let copy = g.clone();
    assert_eq!(copy.data, g.data);
    assert_eq!(copy.size, g.size);
}

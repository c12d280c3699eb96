use snake_game::aux::Direction;
use snake_game::game::{Settings, SnakeLength};

#[test]
fn fromstr() {
    assert_eq!(SnakeLength::Fixed(10).get(), "10".parse::<SnakeLength>().unwrap().get());
    assert!("5..10".parse::<SnakeLength>().unwrap().get() < 10);
    assert!("5..10".parse::<SnakeLength>().unwrap().get() > 4);
    assert!("5..=10".parse::<SnakeLength>().unwrap().get() < 11);
    assert!("5..=10".parse::<SnakeLength>().unwrap().get() > 4);

    assert!("asd".parse::<SnakeLength>().is_err());
    assert!("5.10".parse::<SnakeLength>().is_err());
    assert!("5=10".parse::<SnakeLength>().is_err());
}

fn range_of(l: SnakeLength) -> Option<(usize, usize)> {
    match l {
        SnakeLength::Random(r) => Some((r.start, r.end)),
        SnakeLength::Fixed(_) => None,
    }
}

#[test]
fn parse_forms() {
    assert!(matches!(SnakeLength::parse("+7"), Ok(SnakeLength::Fixed(7))));
    assert_eq!(range_of(SnakeLength::parse("5..10").unwrap()), Some((5, 10)));
    assert_eq!(range_of(SnakeLength::parse("3..=5").unwrap()), Some((3, 6)));
    assert_eq!(range_of(SnakeLength::parse("..4").unwrap()), Some((0, 4)));
    assert_eq!(range_of(SnakeLength::parse("2..6..9").unwrap()), Some((2, 6)));
    assert!(SnakeLength::parse("9..3").is_err());
    assert!(SnakeLength::parse("0..0").is_err());
    assert!(SnakeLength::parse("4..4").is_err());
    assert!(SnakeLength::parse("1..=").is_err());
    assert!(SnakeLength::parse("").is_err());
    assert!(SnakeLength::parse("99999999999999999999999").is_err());
}

#[test]
fn settings_fit_checks() {
    let mut s = Settings::default();
    assert!(s.fits((50, 25)));
    assert!(!s.fits((0, 25)));
    assert!(!s.fits((50, 1 << 31)));
    s.snake_step = i32::MIN;
    assert!(!s.fits((50, 25)));
    s.snake_step = -3;
    assert!(s.fits((50, 25)));
    s.snake_length = SnakeLength::Random(4..4);
    assert!(!s.fits((50, 25)));
    s.snake_length = SnakeLength::from(4..9);
    assert!(s.fits((50, 25)));
    s.snake_direction = Some(Direction::Left);
    assert!(s.fits((50, 25)));
}

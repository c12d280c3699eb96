use snake_game::aux::{Coordinates, Direction};
use snake_game::game::{DirectionChoice, GameData, Settings, SnakeLength};
use snake_game::protocol::{encode_frames, split_frames, Request, RequestKind};
use snake_game::session::{check_batch, decimal_string, Exchange, Reply, Response, ServerError, Session};

fn world() -> GameData {
    GameData::new(
        Some((30, 30)),
        Settings {
            snakes_amount: 0,
            apples_amount: 0,
            snake_step: 1,
            snake_increment_size: 1,
            snake_length: SnakeLength::Fixed(1),
            snake_direction: Some(Direction::Right),
        },
    )
}

fn req(client: &str, kind: RequestKind) -> Request {
    Request::new(client.to_string(), kind)
}

#[test]
fn framing_round_trip() {
    let payloads: Vec<Vec<u8>> = vec![
        b"{\"client\":\"a\",\"kind\":\"connect\"}".to_vec(),
        b"{\"client\":\"a\",\"kind\":\"get_grid\"}".to_vec(),
        b"x".to_vec(),
    ];
    let bytes = encode_frames(&payloads);
    assert_eq!(bytes.len(), payloads.iter().map(|p| p.len() + 4).sum::<usize>());
    assert_eq!(&bytes[bytes.len() - 4..], &[0, 0, 0, 0]);
    assert_eq!(split_frames(&bytes), payloads);
}

#[test]
fn split_frames_strips_padding() {
    let mut buf = b"ab\0\0\0\0cd\0\0\0\0".to_vec();
    buf.resize(64, 0);
    assert_eq!(split_frames(&buf), vec![b"ab".to_vec(), b"cd".to_vec()]);
    assert_eq!(split_frames(&[0u8; 16]), Vec::<Vec<u8>>::new());
    assert_eq!(split_frames(b"\0\0ab\0\0\0\0\0\0\0\0\0cd\0"), vec![b"ab".to_vec(), b"cd".to_vec()]);
    assert_eq!(split_frames(b"a\0b"), vec![b"a\0b".to_vec()]);
}

#[test]
fn empty_batch_rejected() {
    assert_eq!(check_batch(&[0u8; 32]), Err(ServerError::EmptyRequestString));
    assert_eq!(check_batch(&[]), Err(ServerError::EmptyRequestString));
    assert_eq!(check_batch(b"\0x"), Ok(()));
}

#[test]
fn decimal_names() {
    assert_eq!(decimal_string(0), "0");
    assert_eq!(decimal_string(7), "7");
    assert_eq!(decimal_string(120), "120");
}

#[test]
fn connect_then_grid_then_disconnect() {
    let mut game = world();
    let mut s = Session::new();
    s.enqueue(vec![req("ann", RequestKind::Connect), req("ann", RequestKind::GetGrid)]);
    match s.next_step(&mut game).unwrap() {
        Some(Reply::Name(n)) => assert_eq!(n, "ann"),
        other => panic!("unexpected {:?}", other),
    }
    assert!(s.connected());
    assert!(game.find_snake("ann"));
    assert!(matches!(s.next_step(&mut game), Ok(Some(Reply::Grid))));
    assert!(matches!(s.next_step(&mut game), Ok(None)));
    assert_eq!(s.exchanges().len(), 2);
    assert!(s.exchanges().iter().all(|e| e.completed()));

    s.enqueue(vec![req("ann", RequestKind::Disconnect), req("ann", RequestKind::GetGrid)]);
    assert!(matches!(s.next_step(&mut game), Ok(Some(Reply::Close))));
    assert!(s.is_disconnected());
    assert!(!game.find_snake("ann"));
    assert!(matches!(s.next_step(&mut game), Ok(None)));
}

#[test]
fn taken_name_gets_suffix() {
    let mut game = world();
    game.spawn_snake("bob", Some((10, 10).into()), DirectionChoice::Configured, Some(1)).unwrap();
    game.spawn_snake("eve", Some((12, 12).into()), DirectionChoice::Configured, Some(1)).unwrap();
    let mut s = Session::new();
    s.enqueue(vec![req("bob", RequestKind::Connect)]);
    match s.next_step(&mut game).unwrap() {
        Some(Reply::Name(n)) => assert_eq!(n, "bob (2)"),
        other => panic!("unexpected {:?}", other),
    }
    assert!(game.find_snake("bob (2)"));
    assert_eq!(s.client().unwrap(), "bob (2)");
    assert_eq!(game.snakes(), 3);
}

#[test]
fn request_before_connect_rejected() {
    let mut game = world();
    let mut s = Session::new();
    s.enqueue(vec![req("x", RequestKind::GetGrid), req("x", RequestKind::Connect)]);
    assert_eq!(s.next_step(&mut game).err(), Some(ServerError::IsNotConnected));
    assert_eq!(s.exchanges().len(), 0);
    assert!(!s.connected());
    assert_eq!(game.snakes(), 0);
}

#[test]
fn repeated_direction_rejected() {
    let mut game = world();
    let mut s = Session::new();
    s.enqueue(vec![
        req("r", RequestKind::Connect),
        req("r", RequestKind::ChangeDirection(Direction::Up)),
    ]);
    s.next_step(&mut game).unwrap();
    assert!(matches!(s.next_step(&mut game), Ok(Some(Reply::Nothing))));
    assert_eq!(game.snake("r").unwrap().direction(), Direction::Up);
    s.enqueue(vec![
        req("r", RequestKind::ChangeDirection(Direction::Up)),
        req("r", RequestKind::GetGrid),
    ]);
    assert_eq!(s.next_step(&mut game).err(), Some(ServerError::RepeatedDirection));
    assert_eq!(s.exchanges().len(), 2);
    assert!(s.exchanges().iter().all(|e| e.completed()));
    s.enqueue(vec![req("r", RequestKind::ChangeDirection(Direction::Left))]);
    assert!(matches!(s.next_step(&mut game), Ok(Some(Reply::Nothing))));
    assert_eq!(game.snake("r").unwrap().direction(), Direction::Left);
}

#[test]
fn direction_for_unknown_snake_is_answered() {
    let mut game = world();
    let mut s = Session::new();
    s.enqueue(vec![
        req("k", RequestKind::Connect),
        req("nobody", RequestKind::ChangeDirection(Direction::Up)),
    ]);
    s.next_step(&mut game).unwrap();
    assert!(matches!(s.next_step(&mut game), Ok(Some(Reply::Nothing))));
    let last = &s.exchanges()[1];
    assert!(matches!(last.response(), Some(r) if r.response.is_err()));
}

#[test]
fn close_removes_own_snake() {
    let mut game = world();
    game.spawn_snake("other", Some((3, 3).into()), DirectionChoice::Configured, Some(1)).unwrap();
    let mut s = Session::new();
    s.enqueue(vec![req("mine", RequestKind::Connect)]);
    s.next_step(&mut game).unwrap();
    assert!(game.find_snake("mine"));
    s.close(&mut game);
    assert!(s.is_disconnected());
    assert!(!game.find_snake("mine"));
    assert!(game.find_snake("other"));
}

#[test]
fn each_request_ticks_the_world() {
    let mut game = world();
    game.spawn_snake("w", Some((5, 5).into()), DirectionChoice::Fixed(Direction::Right), Some(1)).unwrap();
    let mut s = Session::new();
    s.enqueue(vec![req("c", RequestKind::Connect), req("c", RequestKind::GetGrid)]);
    s.next_step(&mut game).unwrap();
    s.next_step(&mut game).unwrap();
    let head = game.snake("w").unwrap().parts()[0].coords();
    assert_eq!(head, Coordinates::new(7, 5));
}

#[test]
fn exchange_response_links() {
    let mut e = Exchange(req("z", RequestKind::GetGrid), None);
    assert!(!e.completed());
    e.assign_response(Response::new(req("z", RequestKind::GetGrid), Ok(())));
    assert!(e.completed());
    assert_eq!(e.response().as_ref().unwrap().request().client, "z");
    e.unlink_response();
    assert!(!e.completed());
    assert_eq!(e.request().kind, RequestKind::GetGrid);
}

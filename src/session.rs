//! The per-connection session: it queues the requests a client sends, checks
//! their order, applies them to the world and says what to write back.
//!
//! A session starts unauthenticated, becomes connected on its first request,
//! which must be a connection request, and ends with a disconnection request.
//! Each request is followed by a tick of the world.

use vstd::prelude::*;
use crate::aux::{Coordinates, Direction};
use crate::error::{fault_of, GameError, GameErrorView};
use crate::game::{
    has_name, in_interior, spawn_fault, spawned, ticked, turn_fault, turned, without, DirectionChoice,
    GameData, WorldView,
};
use crate::protocol::{Request, RequestKind};

verus! {

/// Errors that reject a whole batch of requests.
#[derive(Debug, Clone, Copy, PartialEq, Eq, Structural)]
pub enum ServerError {
    /// A request came before the connection request.
    IsNotConnected,
    /// The client sent nothing but zero bytes.
    EmptyRequestString,
    /// The client asked for the same direction as in its last completed
    /// direction change.
    RepeatedDirection,
}

/// The answer to a request: the request as it was handled and the outcome.
#[derive(Debug)]
pub struct Response {
    /// The request answered.
    pub request: Request,
    /// Its outcome.
    pub response: Result<(), GameError>,
}

impl Response {
    /// Return a new response.
    pub fn new(request: Request, response: Result<(), GameError>) -> (r: Self)
        ensures
            r.request.client@ == request.client@,
            r.request.kind == request.kind,
            fault_of(r.response) == fault_of(response),
    {
        Self { request, response }
    }

    /// Return the request answered.
    pub fn request(&self) -> (r: Request)
        ensures
            r.client@ == self.request.client@,
            r.kind == self.request.kind,
    {
        self.request.clone()
    }
}

/// A request and, once it is handled, its response.
#[derive(Debug)]
pub struct Exchange(pub Request, pub Option<Response>);

/// What an [`Exchange`] is: the client's name, the kind of request and, once
/// handled, the error it ended with, if any.
pub struct ExchangeView {
    pub client: Seq<char>,
    pub kind: RequestKind,
    pub response: Option<Option<GameErrorView>>,
}

impl View for Exchange {
    type V = ExchangeView;

    open spec fn view(&self) -> ExchangeView {
        ExchangeView {
            client: self.0.client@,
            kind: self.0.kind,
            response: match self.1 {
                None => None,
                Some(r) => Some(fault_of(r.response)),
            },
        }
    }
}

impl Exchange {
    /// Return the request.
    pub fn request(&self) -> (r: Request)
        ensures
            r.client@ == self@.client,
            r.kind == self@.kind,
    {
        self.0.clone()
    }

    /// Return the response, if there is one.
    pub fn response(&self) -> (r: &Option<Response>)
        ensures
            r == &self.1,
    {
        &self.1
    }

    /// Link a response to the exchange.
    pub fn assign_response(&mut self, response: Response)
        ensures
            final(self)@ == (ExchangeView { response: Some(fault_of(response.response)), ..old(self)@ }),
    {
        self.set_response(Some(response));
    }

    /// Unlink the response from the exchange.
    pub fn unlink_response(&mut self)
        ensures
            final(self)@ == (ExchangeView { response: None, ..old(self)@ }),
    {
        self.set_response(None);
    }

    /// Set the exchange's response.
    pub fn set_response(&mut self, response: Option<Response>)
        ensures
            final(self).0 == old(self).0,
            final(self).1 == response,
    {
        self.1 = response;
    }

    /// Return whether the exchange has a response.
    pub fn completed(&self) -> (r: bool)
        ensures
            r == self@.response is Some,
    {
        self.1.is_some()
    }
}

/// The states of a session.
#[derive(Debug, Clone, Copy, PartialEq, Eq, Structural)]
pub enum SessionState {
    /// No connection request was handled yet.
    Unauthenticated,
    /// The connection request was handled.
    Connected,
    /// The disconnection request was handled.
    Terminated,
}

/// What to write back to the client after a request.
#[derive(Debug)]
pub enum Reply {
    /// The client's name, as the world knows it.
    Name(String),
    /// The grid.
    Grid,
    /// Nothing.
    Nothing,
    /// Nothing; the session is over.
    Close,
}

/// What a [`Session`] is.
pub struct SessionView {
    pub state: SessionState,
    pub exchanges: Seq<ExchangeView>,
}

/// The index of the first exchange at or after `k` that has no response, or
/// the number of exchanges when there is none.
pub open spec fn first_pending_at(exs: Seq<ExchangeView>, k: int) -> int
    decreases exs.len() - k,
{
    if k >= exs.len() {
        exs.len() as int
    } else if exs[k].response is None {
        k
    } else {
        first_pending_at(exs, k + 1)
    }
}

/// The index of the first exchange with no response, or the number of
/// exchanges when there is none.
pub open spec fn first_pending(exs: Seq<ExchangeView>) -> int {
    first_pending_at(exs, 0)
}

/// Whether the handled exchanges all come before the others.
pub open spec fn handled_first(exs: Seq<ExchangeView>) -> bool {
    forall|i: int, j: int|
        0 <= i < j < exs.len() && (#[trigger] exs[i]).response is None ==> (#[trigger] exs[j]).response is None
}

/// The direction of the last direction change among the first `k` exchanges.
pub open spec fn last_direction(exs: Seq<ExchangeView>, k: int) -> Option<Direction>
    decreases k,
{
    if k <= 0 {
        None
    } else {
        match exs[k - 1].kind {
            RequestKind::ChangeDirection(d) => Some(d),
            _ => last_direction(exs, k - 1),
        }
    }
}

/// The decimal digit of `d`.
pub open spec fn digit(d: nat) -> char {
    if d == 0 {
        '0'
    } else if d == 1 {
        '1'
    } else if d == 2 {
        '2'
    } else if d == 3 {
        '3'
    } else if d == 4 {
        '4'
    } else if d == 5 {
        '5'
    } else if d == 6 {
        '6'
    } else if d == 7 {
        '7'
    } else if d == 8 {
        '8'
    } else {
        '9'
    }
}

/// The decimal writing of `n`.
pub open spec fn decimal(n: nat) -> Seq<char>
    decreases n,
{
    if n < 10 {
        seq![digit(n)]
    } else {
        decimal(n / 10).push(digit(n % 10))
    }
}

/// The name given to a client whose name is taken: the name, a space and the
/// number of snakes in parentheses.
pub open spec fn suffixed(name: Seq<char>, count: nat) -> Seq<char> {
    name + " ("@ + decimal(count) + ")"@
}

/// The name a connection request from `client` gets in the world `w`.
pub open spec fn connect_name(w: WorldView, client: Seq<char>) -> Seq<char> {
    if has_name(w.snakes, client) {
        suffixed(client, w.snakes.len())
    } else {
        client
    }
}

/// Return the decimal digit of `d` as a string.
fn digit_str(d: usize) -> (r: &'static str)
    requires
        d < 10,
    ensures
        r@ == seq![digit(d as nat)],
{
    proof {
        reveal_strlit("0");
        reveal_strlit("1");
        reveal_strlit("2");
        reveal_strlit("3");
        reveal_strlit("4");
        reveal_strlit("5");
        reveal_strlit("6");
        reveal_strlit("7");
        reveal_strlit("8");
        reveal_strlit("9");
    }
    let r = match d {
        0 => "0",
        1 => "1",
        2 => "2",
        3 => "3",
        4 => "4",
        5 => "5",
        6 => "6",
        7 => "7",
        8 => "8",
        _ => "9",
    };
    proof {
        assert(r@ =~= seq![digit(d as nat)]);
    }
    r
}

/// Return the decimal writing of `n`.
pub fn decimal_string(n: usize) -> (r: String)
    ensures
        r@ == decimal(n as nat),
    decreases n,
{
    if n < 10 {
        String::from_str(digit_str(n))
    } else {
        let mut s = decimal_string(n / 10);
        s.append(digit_str(n % 10));
        s
    }
}

/// Return `name` followed by a space and `count` in parentheses.
fn suffixed_name(name: &String, count: usize) -> (r: String)
    ensures
        r@ == suffixed(name@, count as nat),
{
    let mut s = name.clone();
    s.append(" (");
    let digits = decimal_string(count);
    s.append(digits.as_str());
    s.append(")");
    s
}

/// Whether `after` is `before` once a request of kind `kind` from the client
/// named `name` was applied, ending with the error `fault`, if any.
pub open spec fn applied(
    before: WorldView,
    after: WorldView,
    name: Seq<char>,
    kind: RequestKind,
    fault: Option<GameErrorView>,
) -> bool {
    match kind {
        RequestKind::Connect => {
            &&& fault == spawn_fault(before, name)
            &&& fault is Some ==> after == before
            &&& fault is None ==> exists|head: Coordinates|
                in_interior(head, before.size, 1) && after == (WorldView {
                    snakes: before.snakes.push(#[trigger] spawned(name, head, Direction::Right, 1)),
                    ..before
                })
        },
        RequestKind::ChangeDirection(d) => {
            &&& fault == turn_fault(before, name, d)
            &&& after == if fault is None {
                turned(before, name, d)
            } else {
                before
            }
        },
        RequestKind::GetGrid => fault is None && after == before,
        RequestKind::Disconnect => {
            &&& fault == if has_name(before.snakes, name) {
                None
            } else {
                Some(GameErrorView::SnakeNotFound(name))
            }
            &&& after == if has_name(before.snakes, name) {
                without(before, name)
            } else {
                before
            }
        },
    }
}

/// The state after a request of kind `kind` was handled in state `state`.
pub open spec fn next_state(state: SessionState, kind: RequestKind) -> SessionState {
    match kind {
        RequestKind::Connect => SessionState::Connected,
        RequestKind::Disconnect => SessionState::Terminated,
        _ => state,
    }
}

/// Whether `reply` is what to write back after a request of kind `kind` from
/// the client named `name`.
pub open spec fn reply_for(reply: Reply, kind: RequestKind, name: Seq<char>) -> bool {
    match kind {
        RequestKind::Connect => reply matches Reply::Name(n) && n@ == name,
        RequestKind::GetGrid => reply is Grid,
        RequestKind::ChangeDirection(_) => reply is Nothing,
        RequestKind::Disconnect => reply is Close,
    }
}

/// The views of a sequence of exchanges.
pub open spec fn exchange_views(s: Seq<Exchange>) -> Seq<ExchangeView> {
    s.map_values(|e: Exchange| e@)
}

/// The view of a request not handled yet.
pub open spec fn pending_view(r: Request) -> ExchangeView {
    ExchangeView { client: r.client@, kind: r.kind, response: None }
}

/// Whether a session went from `before` to `after`, and the world from `w0`
/// to `w1`, by handling one request with outcome `r`:
/// - when the session is over or every request is handled, nothing changes;
/// - a first request that is not a connection request, or a direction change
///   to the direction of the last handled one, rejects the batch: the requests
///   not handled yet are dropped and the world stays as it is;
/// - otherwise the request is applied to the world (a connection request with
///   its name made unique), the world ticks, the exchange records the name and
///   the outcome, and the reply says what to write back.
pub open spec fn step_done(
    before: SessionView,
    after: SessionView,
    w0: WorldView,
    w1: WorldView,
    r: Result<Option<Reply>, ServerError>,
) -> bool {
    let exs = before.exchanges;
    let k = first_pending(exs);
    if before.state == SessionState::Terminated || k >= exs.len() {
        &&& r matches Ok(None)
        &&& after == before
        &&& w1 == w0
    } else if before.state == SessionState::Unauthenticated && exs[k].kind != RequestKind::Connect {
        &&& r == Err::<Option<Reply>, ServerError>(ServerError::IsNotConnected)
        &&& after == (SessionView { exchanges: exs.take(k), ..before })
        &&& w1 == w0
    } else if exs[k].kind matches RequestKind::ChangeDirection(d) && last_direction(exs, k) == Some(d) {
        &&& r == Err::<Option<Reply>, ServerError>(ServerError::RepeatedDirection)
        &&& after == (SessionView { exchanges: exs.take(k), ..before })
        &&& w1 == w0
    } else {
        let kind = exs[k].kind;
        let name = step_name(w0, exs[k]);
        &&& r matches Ok(Some(reply)) && reply_for(reply, kind, name)
        &&& exists|mid: WorldView, fault: Option<GameErrorView>|
            #[trigger] applied(w0, mid, name, kind, fault) && ticked(mid, w1) && after == (SessionView {
                state: next_state(before.state, kind),
                exchanges: exs.update(k, ExchangeView { client: name, kind, response: Some(fault) }),
            })
    }
}

/// The name a request is handled under in the world `w`: a connection
/// request gets a name no snake has yet, when it can.
pub open spec fn step_name(w: WorldView, ex: ExchangeView) -> Seq<char> {
    if ex.kind == RequestKind::Connect {
        connect_name(w, ex.client)
    } else {
        ex.client
    }
}

/// Whether the session's connection request made a snake.
pub open spec fn owns_snake(s: SessionView) -> bool {
    &&& s.exchanges.len() > 0
    &&& s.exchanges[0].kind == RequestKind::Connect
    &&& s.exchanges[0].response == Some(None::<GameErrorView>)
}

/// Check a buffer read from the stream before its requests are decoded: a
/// buffer of zero bytes only holds nothing.
pub fn check_batch(buf: &[u8]) -> (r: Result<(), ServerError>)
    ensures
        r is Err <==> forall|k: int| 0 <= k < buf@.len() ==> buf@[k] == 0,
        r matches Err(e) ==> e == ServerError::EmptyRequestString,
{
    let mut k: usize = 0;
    while k < buf.len()
        invariant
            k <= buf@.len(),
            forall|j: int| 0 <= j < k ==> buf@[j] == 0,
        decreases buf@.len() - k,
    {
        if buf[k] != 0 {
            return Ok(());
        }
        k += 1;
    }
    Err(ServerError::EmptyRequestString)
}

/// The state of one connection: where it is in its life and the requests it
/// received, with their responses once handled.
#[derive(Debug)]
pub struct Session {
    state: SessionState,
    exchanges: Vec<Exchange>,
}

impl View for Session {
    type V = SessionView;

    closed spec fn view(&self) -> SessionView {
        SessionView { state: self.state, exchanges: exchange_views(self.exchanges@) }
    }
}

impl Session {
    /// The session's invariant: handled exchanges come before the others.
    pub open spec fn wf(&self) -> bool {
        handled_first(self@.exchanges)
    }

    /// Return a new session, with no exchange and no connection.
    pub fn new() -> (r: Self)
        ensures
            r.wf(),
            r@.state == SessionState::Unauthenticated,
            r@.exchanges.len() == 0,
    {
        let r = Self { state: SessionState::Unauthenticated, exchanges: Vec::new() };
        proof {
            assert(r@.exchanges =~= Seq::<ExchangeView>::empty());
        }
        r
    }

    /// Return whether the connection request was handled and the
    /// disconnection request was not.
    pub fn connected(&self) -> (r: bool)
        ensures
            r == (self@.state == SessionState::Connected),
    {
        self.state == SessionState::Connected
    }

    /// Return whether the disconnection request was handled.
    pub fn is_disconnected(&self) -> (r: bool)
        ensures
            r == (self@.state == SessionState::Terminated),
    {
        self.state == SessionState::Terminated
    }

    /// Return the exchanges.
    pub fn exchanges(&self) -> (r: &Vec<Exchange>)
        ensures
            exchange_views(r@) == self@.exchanges,
    {
        &self.exchanges
    }

    /// Return the client's name: the one of the first request.
    pub fn client(&self) -> (r: Option<String>)
        ensures
            r is None <==> self@.exchanges.len() == 0,
            r matches Some(n) ==> n@ == self@.exchanges[0].client,
    {
        if self.exchanges.len() == 0 {
            None
        } else {
            Some(self.exchanges[0].request().client)
        }
    }

    /// Queue requests, not handled yet, after the exchanges there are.
    pub fn enqueue(&mut self, requests: Vec<Request>)
        requires
            old(self).wf(),
        ensures
            final(self).wf(),
            final(self)@.state == old(self)@.state,
            final(self)@.exchanges == old(self)@.exchanges + requests@.map_values(|r: Request| pending_view(r)),
    {
        let ghost start = self@.exchanges;
        let ghost reqs = requests@.map_values(|r: Request| pending_view(r));
        let mut requests = requests;
        let mut rev: Vec<Request> = Vec::new();
        let ghost all = requests@;
        while requests.len() > 0
            invariant
                requests@.len() + rev@.len() == all.len(),
                forall|k: int| 0 <= k < requests@.len() ==> #[trigger] requests@[k] == all[k],
                forall|k: int|
                    0 <= k < rev@.len() ==> #[trigger] rev@[k] == all[all.len() - 1 - k],
            decreases requests@.len(),
        {
            let r = requests.pop().unwrap();
            rev.push(r);
        }
        let mut k: usize = 0;
        let n = rev.len();
        while rev.len() > 0
            invariant
                n == all.len(),
                rev@.len() + k == n,
                forall|j: int| 0 <= j < rev@.len() ==> #[trigger] rev@[j] == all[n - 1 - j],
                self.state == old(self).state,
                self@.exchanges =~= start + reqs.take(k as int),
                reqs == all.map_values(|r: Request| pending_view(r)),
                handled_first(start),
            decreases rev@.len(),
        {
            let r = rev.pop().unwrap();
            proof {
                assert(r == all[k as int]);
            }
            let ghost prev = self.exchanges@;
            let e = Exchange(r, None);
            proof {
                assert(e@ == reqs[k as int]);
            }
            self.exchanges.push(e);
            proof {
                assert(exchange_views(self.exchanges@) =~= exchange_views(prev).push(e@));
                assert(reqs.take(k + 1) =~= reqs.take(k as int).push(reqs[k as int]));
                assert(self@.exchanges =~= start + reqs.take(k + 1));
            }
            k += 1;
        }
        proof {
            assert(reqs.take(n as int) =~= reqs);
            assert forall|i: int, j: int|
                0 <= i < j < self@.exchanges.len() && (#[trigger] self@.exchanges[i]).response is None implies (
                #[trigger] self@.exchanges[j]).response is None by {
                if j >= start.len() {
                    assert(self@.exchanges[j] == reqs[j - start.len()]);
                }
            }
        }
    }

    /// Return the index of the first exchange not handled yet, or the number
    /// of exchanges when all are handled.
    fn pending_index(&self) -> (r: usize)
        ensures
            r == first_pending(self@.exchanges),
            r <= self@.exchanges.len(),
            forall|j: int| 0 <= j < r ==> (#[trigger] self@.exchanges[j]).response is Some,
            r < self@.exchanges.len() ==> self@.exchanges[r as int].response is None,
    {
        let mut i: usize = 0;
        while i < self.exchanges.len() && self.exchanges[i].completed()
            invariant
                i <= self@.exchanges.len(),
                first_pending(self@.exchanges) == first_pending_at(self@.exchanges, i as int),
                forall|j: int| 0 <= j < i ==> (#[trigger] self@.exchanges[j]).response is Some,
            decreases self@.exchanges.len() - i,
        {
            proof {
                assert(self@.exchanges[i as int] == self.exchanges@[i as int]@);
            }
            i += 1;
        }
        proof {
            if i < self@.exchanges.len() {
                assert(self@.exchanges[i as int] == self.exchanges@[i as int]@);
            }
        }
        i
    }

    /// Return the direction of the last direction change among the first `k`
    /// exchanges.
    fn last_direction_before(&self, k: usize) -> (r: Option<Direction>)
        requires
            k <= self@.exchanges.len(),
        ensures
            r == last_direction(self@.exchanges, k as int),
    {
        let mut j: usize = k;
        while j > 0
            invariant
                j <= k,
                k <= self@.exchanges.len(),
                last_direction(self@.exchanges, k as int) == last_direction(self@.exchanges, j as int),
            decreases j,
        {
            proof {
                assert(self@.exchanges[j - 1] == self.exchanges@[j - 1]@);
            }
            match self.exchanges[j - 1].0.kind {
                RequestKind::ChangeDirection(d) => {
                    return Some(d);
                },
                _ => {},
            }
            j -= 1;
        }
        None
    }

    /// Handle the first request not handled yet: check it, apply it to the
    /// world, record its outcome and tick the world (see [`step_done`]). On a
    /// rejection the requests not handled yet are dropped.
    pub fn next_step(&mut self, game: &mut GameData) -> (r: Result<Option<Reply>, ServerError>)
        requires
            old(self).wf(),
            old(game).wf(),
        ensures
            final(self).wf(),
            final(game).wf(),
            step_done(old(self)@, final(self)@, old(game)@, final(game)@, r),
    {
        let ghost s0 = self@;
        let ghost w0 = game@;
        if self.state == SessionState::Terminated {
            return Ok(None);
        }
        let k = self.pending_index();
        if k == self.exchanges.len() {
            return Ok(None);
        }
        let req = self.exchanges[k].request();
        proof {
            assert(s0.exchanges[k as int] == self.exchanges@[k as int]@);
        }
        if self.state == SessionState::Unauthenticated && req.kind != RequestKind::Connect {
            self.discard_exchanges();
            return Err(ServerError::IsNotConnected);
        }
        match req.kind {
            RequestKind::ChangeDirection(d) => {
                match self.last_direction_before(k) {
                    Some(last) => {
                        if last == d {
                            self.discard_exchanges();
                            return Err(ServerError::RepeatedDirection);
                        }
                    },
                    None => {},
                }
            },
            _ => {},
        }
        let kind = req.kind;
        let (name, result, reply) = match kind {
            RequestKind::Connect => {
                let n = if game.find_snake(req.client.as_str()) {
                    suffixed_name(&req.client, game.snakes())
                } else {
                    req.client.clone()
                };
                let result = game.spawn_snake(
                    n.as_str(),
                    None,
                    DirectionChoice::Fixed(Direction::Right),
                    Some(1),
                );
                let shown = n.clone();
                (n, result, Reply::Name(shown))
            },
            RequestKind::ChangeDirection(d) => {
                let result = game.change_direction(req.client.as_str(), d);
                (req.client, result, Reply::Nothing)
            },
            RequestKind::GetGrid => (req.client, Ok(()), Reply::Grid),
            RequestKind::Disconnect => {
                let result = match game.kill_snake(req.client.as_str()) {
                    Ok(_) => Ok(()),
                    Err(e) => Err(e),
                };
                (req.client, result, Reply::Close)
            },
        };
        let ghost mid = game@;
        let ghost fault = fault_of(result);
        proof {
            let nm = if kind == RequestKind::Connect {
                connect_name(w0, s0.exchanges[k as int].client)
            } else {
                s0.exchanges[k as int].client
            };
            assert(name@ == nm);
            if kind == RequestKind::Connect && fault is None {
                let (h, d, l) = choose|h: Coordinates, d: Direction, l: nat|
                    crate::game::may_face(DirectionChoice::Fixed(Direction::Right), w0.settings.snake_direction, d)
                        && crate::game::may_have_length(Some(1usize), w0.settings.snake_length, l as int) && in_interior(
                        h,
                        w0.size,
                        l as int,
                    ) && mid == (WorldView { snakes: w0.snakes.push(#[trigger] spawned(name@, h, d, l)), ..w0 });
                assert(in_interior(h, w0.size, 1) && mid == (WorldView {
                    snakes: w0.snakes.push(spawned(name@, h, Direction::Right, 1)),
                    ..w0
                }));
            }
            assert(applied(w0, mid, name@, kind, fault));
        }
        let recorded = Request::new(name, kind);
        let answered = recorded.clone();
        let ghost prev = self.exchanges@;
        let e = Exchange(recorded, Some(Response::new(answered, result)));
        proof {
            assert(e@ == (ExchangeView { client: name@, kind, response: Some(fault) }));
        }
        self.exchanges.set(k, e);
        self.state = match kind {
            RequestKind::Connect => SessionState::Connected,
            RequestKind::Disconnect => SessionState::Terminated,
            _ => self.state,
        };
        let _ = game.advance_tick();
        proof {
            assert(exchange_views(self.exchanges@) =~= exchange_views(prev).update(k as int, e@));
            let after = self@;
            assert(after == (SessionView {
                state: next_state(s0.state, kind),
                exchanges: s0.exchanges.update(k as int, ExchangeView { client: name@, kind, response: Some(fault) }),
            }));
            assert forall|i: int, j: int|
                0 <= i < j < after.exchanges.len() && (#[trigger] after.exchanges[i]).response is None implies (
                #[trigger] after.exchanges[j]).response is None by {
                assert(i > k);
                assert(s0.exchanges[i].response is None);
            }
            assert(name@ == step_name(w0, s0.exchanges[k as int]));
            assert(applied(w0, mid, name@, kind, fault) && ticked(mid, game@) && after == (SessionView {
                state: next_state(s0.state, kind),
                exchanges: s0.exchanges.update(k as int, ExchangeView { client: name@, kind, response: Some(fault) }),
            }));
        }
        Ok(Some(reply))
    }

    /// End the session. When its connection request made a snake and a snake
    /// of that name is in the world, it leaves the world.
    pub fn close(&mut self, game: &mut GameData)
        requires
            old(self).wf(),
            old(game).wf(),
        ensures
            final(self).wf(),
            final(self)@ == (SessionView { state: SessionState::Terminated, ..old(self)@ }),
            final(game).wf(),
            final(game)@ == if owns_snake(old(self)@) && has_name(old(game)@.snakes, old(self)@.exchanges[0].client) {
                without(old(game)@, old(self)@.exchanges[0].client)
            } else {
                old(game)@
            },
    {
        let ghost s0 = self@;
        self.state = SessionState::Terminated;
        if self.exchanges.len() == 0 {
            return;
        }
        proof {
            assert(s0.exchanges[0] == self.exchanges@[0]@);
        }
        let first = &self.exchanges[0];
        let owned = first.0.kind == RequestKind::Connect && match &first.1 {
            Some(resp) => resp.response.is_ok(),
            None => false,
        };
        if owned && game.find_snake(first.0.client.as_str()) {
            let _ = game.kill_snake(first.0.client.as_str());
        }
    }

    /// Drop the exchanges not handled yet; the handled ones stay.
    pub fn discard_exchanges(&mut self)
        requires
            old(self).wf(),
        ensures
            final(self).wf(),
            final(self)@ == (SessionView {
                exchanges: old(self)@.exchanges.take(first_pending(old(self)@.exchanges)),
                ..old(self)@
            }),
    {
        let k = self.pending_index();
        let ghost start = self@.exchanges;
        while self.exchanges.len() > k
            invariant
                k <= self.exchanges@.len() <= start.len(),
                k == first_pending(start),
                self@.exchanges == start.take(self.exchanges@.len() as int),
                self.state == old(self).state,
            decreases self.exchanges@.len(),
        {
            let _ = self.exchanges.pop();
            proof {
                assert(self@.exchanges =~= start.take(self.exchanges@.len() as int));
            }
        }
        proof {
            assert(self@.exchanges =~= start.take(k as int));
        }
    }
}

} // verus!

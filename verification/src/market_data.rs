//! Market data for websocket clients: candle buckets, the names of rooms and
//! channels, and what one connection is subscribed to.

use vstd::prelude::*;
use vstd::string::*;
use crate::model::MarketId;
use crate::text::owned;

verus! {

/// Start of the candle that a trade at `timestamp` falls in, for candles of
/// `interval` (both in microseconds): the timestamp rounded down to a multiple
/// of the interval.
pub fn candle_bucket(timestamp: u64, interval: u64) -> (r: u64)
    requires
        interval > 0,
    ensures
        r == (timestamp / interval) * interval,
        r <= timestamp < r + interval,
{
    let q = timestamp / interval;
    proof {
        vstd::arithmetic::div_mod::lemma_fundamental_div_mod(timestamp as int, interval as int);
        assert(q * interval <= timestamp) by (nonlinear_arith)
            requires
                q == timestamp / interval,
                interval > 0,
                timestamp == interval * (timestamp / interval) + timestamp % interval,
                timestamp % interval >= 0,
        ;
    }
    q * interval
}

/// Whether a trade whose bucket starts at `bucket` closes the candle that
/// starts at `current` (0 while no candle is open) and opens a new one.
pub fn starts_new_candle(current: u64, bucket: u64) -> (r: bool)
    ensures
        r == (current != 0 && bucket > current),
{
    current != 0 && bucket > current
}

/// The name of a room: the market, a colon and the stream, as in
/// "btcusdt:depth".
pub fn room_id(market: &str, stream: &str) -> (r: String)
    ensures
        r@ == market@ + ":"@ + stream@,
{
    owned(market).concat(":").concat(stream)
}

/// The channel that a market's trades are published on; none for an
/// unspecified market.
pub fn trade_channel(market: MarketId) -> (r: Option<&'static str>)
    ensures
        market == MarketId::BtcUsdt ==> (r matches Some(c) && c@ == "trades:btcusdt"@),
        market == MarketId::EthUsdt ==> (r matches Some(c) && c@ == "trades:ethusdt"@),
        market == MarketId::Unspecified ==> r is None,
{
    match market {
        MarketId::BtcUsdt => Some("trades:btcusdt"),
        MarketId::EthUsdt => Some("trades:ethusdt"),
        MarketId::Unspecified => None,
    }
}

/// The channel that a market's depth updates are published on; none for an
/// unspecified market.
pub fn depth_channel(market: MarketId) -> (r: Option<&'static str>)
    ensures
        market == MarketId::BtcUsdt ==> (r matches Some(c) && c@ == "depth:btcusdt"@),
        market == MarketId::EthUsdt ==> (r matches Some(c) && c@ == "depth:ethusdt"@),
        market == MarketId::Unspecified ==> r is None,
{
    match market {
        MarketId::BtcUsdt => Some("depth:btcusdt"),
        MarketId::EthUsdt => Some("depth:ethusdt"),
        MarketId::Unspecified => None,
    }
}

/// What a client asks of its connection.
#[derive(Debug)]
pub enum WsRequest {
    Subscribe { market: String, stream: String },
    Unsubscribe { market: String, stream: String },
    UserUpdates { user_id: u64 },
}

/// What the connection does for a request.
#[derive(Debug)]
pub enum SocketAction {
    /// Forward the room's broadcasts to the client.
    Join(String),
    /// Stop forwarding the room's broadcasts.
    Leave(String),
    /// Start listening for the user's execution reports.
    ListenUser(u64),
    /// Nothing.
    Ignore,
}

/// The views of a list of strings.
pub open spec fn names(s: Seq<String>) -> Set<Seq<char>> {
    Set::new(|x: Seq<char>| exists|i: int| 0 <= i < s.len() && #[trigger] s[i]@ == x)
}

/// What one connection is subscribed to: its rooms, and whether it listens
/// for a user's reports.
pub struct Subscriptions {
    rooms: Vec<String>,
    listening: bool,
}

/// Whether `name` is one of `rooms`, and the index of its first occurrence.
fn find_room(rooms: &Vec<String>, name: &String) -> (r: Option<usize>)
    ensures
        r is None <==> !names(rooms@).contains(name@),
        r matches Some(i) ==> i < rooms@.len() && rooms@[i as int]@ == name@,
{
    let mut i: usize = 0;
    while i < rooms.len()
        invariant
            i <= rooms@.len(),
            forall|k: int| 0 <= k < i ==> (#[trigger] rooms@[k])@ != name@,
        decreases rooms@.len() - i,
    {
        if rooms[i] == *name {
            assert(names(rooms@).contains(name@)) by {
                assert(rooms@[i as int]@ == name@);
            }
            return Some(i);
        }
        i = i + 1;
    }
    None
}

impl Subscriptions {
    /// The rooms the connection is in.
    pub closed spec fn joined(&self) -> Set<Seq<char>> {
        names(self.rooms@)
    }

    /// Whether the connection listens for a user's reports.
    pub closed spec fn is_listening(&self) -> bool {
        self.listening
    }

    /// A new connection: in no room, listening for nothing.
    pub fn new() -> (r: Self)
        ensures
            r.joined() == Set::<Seq<char>>::empty(),
            !r.is_listening(),
    {
        let r = Subscriptions { rooms: Vec::new(), listening: false };
        assert(r.joined() =~= Set::<Seq<char>>::empty());
        r
    }

    /// Whether the connection is in a room.
    pub fn is_joined(&self, room: &String) -> (r: bool)
        ensures
            r == self.joined().contains(room@),
    {
        find_room(&self.rooms, room).is_some()
    }

    /// Whether the connection listens for a user's reports.
    pub fn listening(&self) -> (r: bool)
        ensures
            r == self.is_listening(),
    {
        self.listening
    }

    fn join(&mut self, room: String)
        ensures
            final(self).joined() == old(self).joined().insert(room@),
            final(self).is_listening() == old(self).is_listening(),
    {
        let ghost old_rooms = self.rooms@;
        if find_room(&self.rooms, &room).is_none() {
            self.rooms.push(room);
            let ghost v = room@;
            assert(self.joined() =~= names(old_rooms).insert(v)) by {
                assert(self.rooms@[old_rooms.len() as int]@ == v);
                assert forall|x: Seq<char>| names(old_rooms).contains(x) implies self.joined().contains(x) by {
                    let i = choose|i: int| 0 <= i < old_rooms.len() && #[trigger] old_rooms[i]@ == x;
                    assert(self.rooms@[i] == old_rooms[i]);
                }
                assert forall|x: Seq<char>| self.joined().contains(x) implies names(old_rooms).insert(v).contains(x) by {
                    let i = choose|i: int| 0 <= i < self.rooms@.len() && #[trigger] self.rooms@[i]@ == x;
                    if i < old_rooms.len() {
                        assert(self.rooms@[i] == old_rooms[i]);
                    }
                }
            }
        } else {
            assert(names(old_rooms).insert(room@) =~= names(old_rooms));
        }
    }

    fn leave(&mut self, room: &String)
        ensures
            final(self).joined() == old(self).joined().remove(room@),
            final(self).is_listening() == old(self).is_listening(),
    {
        let ghost old_rooms = self.rooms@;
        let mut kept: Vec<String> = Vec::new();
        let mut i: usize = 0;
        while i < self.rooms.len()
            invariant
                i <= old_rooms.len(),
                self.rooms@ == old_rooms,
                names(kept@) == names(old_rooms.subrange(0, i as int)).remove(room@),
            decreases old_rooms.len() - i,
        {
            let ghost pre = old_rooms.subrange(0, i as int);
            let ghost post = old_rooms.subrange(0, i + 1);
            let ghost k0 = kept@;
            let r = self.rooms[i].clone();
            assert(names(post) =~= names(pre).insert(r@)) by {
                assert(post[i as int] == r);
                assert forall|x: Seq<char>| names(pre).contains(x) implies names(post).contains(x) by {
                    let j = choose|j: int| 0 <= j < pre.len() && #[trigger] pre[j]@ == x;
                    assert(post[j] == pre[j]);
                }
                assert forall|x: Seq<char>| names(post).contains(x) implies names(pre).insert(r@).contains(x) by {
                    let j = choose|j: int| 0 <= j < post.len() && #[trigger] post[j]@ == x;
                    if j < pre.len() {
                        assert(post[j] == pre[j]);
                    }
                }
            }
            if r != *room {
                kept.push(r);
                assert(names(kept@) =~= names(k0).insert(r@)) by {
                    assert(kept@[k0.len() as int] == r);
                    assert forall|x: Seq<char>| names(k0).contains(x) implies names(kept@).contains(x) by {
                        let j = choose|j: int| 0 <= j < k0.len() && #[trigger] k0[j]@ == x;
                        assert(kept@[j] == k0[j]);
                    }
                    assert forall|x: Seq<char>| names(kept@).contains(x) implies names(k0).insert(r@).contains(x) by {
                        let j = choose|j: int| 0 <= j < kept@.len() && #[trigger] kept@[j]@ == x;
                        if j < k0.len() {
                            assert(kept@[j] == k0[j]);
                        }
                    }
                }
                assert(names(kept@) =~= names(post).remove(room@));
            } else {
                assert(names(k0) =~= names(post).remove(room@));
            }
            i = i + 1;
        }
        assert(old_rooms.subrange(0, old_rooms.len() as int) == old_rooms);
        self.rooms = kept;
    }

    /// Records that listening for the user's reports has started.
    pub fn start_listening(&mut self)
        ensures
            final(self).is_listening(),
            final(self).joined() == old(self).joined(),
    {
        self.listening = true;
    }

    /// Handles a client's request, given the rooms that exist. A subscription
    /// joins its room when the room exists and is otherwise ignored; an
    /// unsubscription leaves its room; a request for user updates asks to
    /// listen unless the connection already listens.
    pub fn on_request(&mut self, req: WsRequest, rooms: &Vec<String>) -> (r: SocketAction)
        ensures
            final(self).is_listening() == old(self).is_listening(),
            match req {
                WsRequest::Subscribe { market, stream } => {
                    let id = market@ + ":"@ + stream@;
                    if names(rooms@).contains(id) {
                        &&& r matches SocketAction::Join(j) && j@ == id
                        &&& final(self).joined() == old(self).joined().insert(id)
                    } else {
                        &&& r is Ignore
                        &&& final(self).joined() == old(self).joined()
                    }
                },
                WsRequest::Unsubscribe { market, stream } => {
                    let id = market@ + ":"@ + stream@;
                    &&& r matches SocketAction::Leave(j) && j@ == id
                    &&& final(self).joined() == old(self).joined().remove(id)
                },
                WsRequest::UserUpdates { user_id } => {
                    &&& final(self).joined() == old(self).joined()
                    &&& if old(self).is_listening() {
                        r is Ignore
                    } else {
                        r == SocketAction::ListenUser(user_id)
                    }
                },
            },
    {
        match req {
            WsRequest::Subscribe { market, stream } => {
                let id = room_id(market.as_str(), stream.as_str());
                if find_room(rooms, &id).is_some() {
                    let j = id.clone();
                    self.join(id);
                    SocketAction::Join(j)
                } else {
                    SocketAction::Ignore
                }
            },
            WsRequest::Unsubscribe { market, stream } => {
                let id = room_id(market.as_str(), stream.as_str());
                self.leave(&id);
                SocketAction::Leave(id)
            },
            WsRequest::UserUpdates { user_id } => {
                if self.listening {
                    SocketAction::Ignore
                } else {
                    SocketAction::ListenUser(user_id)
                }
            },
        }
    }
}

} // verus!

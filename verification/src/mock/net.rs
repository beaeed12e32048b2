//! A mock network: one socket per player, each a pair of simulated
//! channels, driven by one seedable random generator.

use vstd::prelude::*;
use vstd::seq_lib::group_to_multiset_ensures;

use rand::rngs::StdRng;

use crate::mock::channel::{
    MockChannel, MockChannelParams, ready_count, sent_within, sorted_by_arrival_desc,
};
use crate::mock::rng_from_seed;
use crate::time::{LocalTime, in_time_range};
use crate::types::PlayerId;

verus! {

/// Parameters of one player's socket: one channel per direction.
#[derive(Debug, Clone, Copy)]
pub struct MockSocketParams {
    /// The server-to-client channel.
    pub server_out: MockChannelParams,
    /// The client-to-server channel.
    pub client_out: MockChannelParams,
}

impl MockSocketParams {
    /// Whether both channels' parameters are well-formed.
    pub open spec fn wf(&self) -> bool {
        self.server_out.wf() && self.client_out.wf()
    }

    /// A perfect link in both directions.
    pub fn perfect() -> (r: Self)
        ensures
            r.wf(),
            r.is_perfect(),
    {
        MockSocketParams {
            server_out: MockChannelParams::perfect(),
            client_out: MockChannelParams::perfect(),
        }
    }

    /// Whether both directions have no latency, no jitter and no loss.
    pub open spec fn is_perfect(&self) -> bool {
        &&& self.server_out.latency_mean@ == 0
        &&& self.server_out.latency_std_dev@ == 0
        &&& self.server_out.loss_ppm == 0
        &&& self.client_out.latency_mean@ == 0
        &&& self.client_out.latency_std_dev@ == 0
        &&& self.client_out.loss_ppm == 0
    }
}

/// One player's pair of simulated channels.
#[derive(Debug, Clone)]
pub struct MockSocket<S, C> {
    params: MockSocketParams,
    server_out: MockChannel<S>,
    client_out: MockChannel<C>,
}

impl<S, C> MockSocket<S, C> {
    /// The socket's channel parameters.
    pub closed spec fn params_spec(&self) -> MockSocketParams {
        self.params
    }

    /// The server-to-client messages in transit.
    pub closed spec fn server_transit(&self) -> Seq<(LocalTime, S)> {
        self.server_out.transit()
    }

    /// The client-to-server messages in transit.
    pub closed spec fn client_transit(&self) -> Seq<(LocalTime, C)> {
        self.client_out.transit()
    }

    /// Well-formedness: sane parameters, ordered transit queues.
    pub open spec fn wf(&self) -> bool {
        &&& self.params_spec().wf()
        &&& sorted_by_arrival_desc(self.server_transit())
        &&& sorted_by_arrival_desc(self.client_transit())
    }

    /// A fresh socket: perfect parameters and empty channels.
    pub open spec fn is_fresh(&self) -> bool {
        &&& self.params_spec().is_perfect()
        &&& self.server_transit().len() == 0
        &&& self.client_transit().len() == 0
    }
}

/// Whether a socket list holds an entry for the given player.
pub open spec fn contains_player<S, C>(s: Seq<(PlayerId, MockSocket<S, C>)>, player: PlayerId) -> bool {
    exists|i: int| 0 <= i < s.len() && s[i].0 == player
}

/// Whether a socket list is sorted by strictly ascending player identifier.
pub open spec fn sorted_by_player<S, C>(s: Seq<(PlayerId, MockSocket<S, C>)>) -> bool {
    forall|i: int, j: int| 0 <= i < j < s.len() ==> s[i].0.0 < s[j].0.0
}

/// The messages one socket releases at `now`, as `(arrival, player,
/// message)` triples in arrival order.
pub open spec fn released_triples<S, C>(entry: (PlayerId, MockSocket<S, C>), now: int) -> Seq<
    (LocalTime, PlayerId, C),
> {
    let ch = entry.1.client_transit();
    Seq::new(
        ready_count(ch, now) as nat,
        |j: int| (ch[ch.len() - 1 - j].0, entry.0, ch[ch.len() - 1 - j].1),
    )
}

/// The messages a socket list releases at `now`, socket by socket.
pub open spec fn released_messages<S, C>(
    sockets: Seq<(PlayerId, MockSocket<S, C>)>,
    now: int,
) -> Seq<(LocalTime, PlayerId, C)>
    decreases sockets.len(),
{
    if sockets.len() == 0 {
        Seq::empty()
    } else {
        released_messages(sockets.drop_last(), now) + released_triples(sockets.last(), now)
    }
}

/// Whether received triples are sorted by arrival time, ties broken by
/// player identifier.
pub open spec fn sorted_by_arrival_then_player<C>(s: Seq<(LocalTime, PlayerId, C)>) -> bool {
    forall|i: int, j: int|
        0 <= i < j < s.len() ==> s[i].0@ < s[j].0@ || (s[i].0@ == s[j].0@ && s[i].1.0 <= s[j].1.0)
}

/// Inserting an element anywhere adds exactly that element to a sequence's
/// multiset of elements.
proof fn lemma_insert_to_multiset<A>(s: Seq<A>, k: int, x: A)
    requires
        0 <= k <= s.len(),
    ensures
        s.insert(k, x).to_multiset() == s.to_multiset().insert(x),
    decreases s.len(),
{
    broadcast use group_to_multiset_ensures;

    let t = s.insert(k, x);
    assert(t.remove(k) =~= s);
    assert(t[k] == x);
    assert(t.to_multiset().remove(x) =~= s.to_multiset());
    assert(t.to_multiset().contains(x)) by {
        assert(t.contains(x));
    }
    assert(t.to_multiset() =~= s.to_multiset().insert(x)) by {
        assert forall|y: A| t.to_multiset().count(y) == s.to_multiset().insert(x).count(y) by {
            if y == x {
                assert(t.to_multiset().remove(x).count(x) == t.to_multiset().count(x) - 1);
            } else {
                assert(t.to_multiset().remove(x).count(y) == t.to_multiset().count(y));
            }
        }
    }
}

/// Replacing one socket with a well-formed one under the same player keeps
/// a sorted, well-formed socket list sorted and well-formed.
proof fn lemma_socket_update_wf<S, C>(
    b: Seq<(PlayerId, MockSocket<S, C>)>,
    b2: Seq<(PlayerId, MockSocket<S, C>)>,
    idx: int,
    entry: (PlayerId, MockSocket<S, C>),
)
    requires
        0 <= idx < b.len(),
        b2 == b.update(idx, entry),
        entry.0 == b[idx].0,
        entry.1.wf(),
        sorted_by_player(b),
        forall|i: int| 0 <= i < b.len() ==> #[trigger] b[i].1.wf(),
    ensures
        sorted_by_player(b2),
        forall|i: int| 0 <= i < b2.len() ==> #[trigger] b2[i].1.wf(),
        forall|i: int| 0 <= i < b2.len() ==> #[trigger] b2[i].0 == b[i].0,
{
    assert forall|x: int, y: int| 0 <= x < y < b2.len() implies b2[x].0.0 < b2[y].0.0 by {
        assert(b[x].0.0 < b[y].0.0);
    }
    assert forall|i: int| 0 <= i < b2.len() implies #[trigger] b2[i].1.wf() by {
        if i != idx {
            assert(b[i].1.wf());
        }
    }
}

/// Whether `a` comes no later than an entry with arrival `t_micros` and
/// player `pid`, in arrival-then-player order.
fn comes_no_later<C>(a: &(LocalTime, PlayerId, C), t_micros: i64, pid: u32) -> (r: bool)
    ensures
        r == (a.0@ < t_micros as int || (a.0@ == t_micros as int && a.1.0 <= pid)),
{
    let at = a.0.to_micros();
    at < t_micros || (at == t_micros && a.1.to_u32() <= pid)
}

/// An in-process network of simulated sockets keyed by player, with a
/// seedable source of randomness for latency and loss draws.
pub struct MockNet<S, C> {
    rng: StdRng,
    sockets: Vec<(PlayerId, MockSocket<S, C>)>,
}

impl<S, C> MockNet<S, C> {
    /// The per-player sockets, in ascending player order.
    pub closed spec fn sockets_spec(&self) -> Seq<(PlayerId, MockSocket<S, C>)> {
        self.sockets@
    }

    /// Well-formedness: one socket per player, sorted by player, each
    /// socket well-formed.
    pub open spec fn wf(&self) -> bool {
        &&& sorted_by_player(self.sockets_spec())
        &&& forall|i: int|
            0 <= i < self.sockets_spec().len() ==> #[trigger] self.sockets_spec()[i].1.wf()
    }

    /// A network with one fresh socket per listed player (duplicates
    /// collapse to one socket), drawing randomness from the given seed.
    pub fn new(players: &[PlayerId], seed: u64) -> (r: Self)
        ensures
            r.wf(),
            forall|p: PlayerId|
                #[trigger] contains_player(r.sockets_spec(), p) <==> players@.contains(p),
            forall|i: int|
                0 <= i < r.sockets_spec().len() ==> #[trigger] r.sockets_spec()[i].1.is_fresh(),
    {
        let mut net = MockNet { rng: rng_from_seed(seed), sockets: Vec::new() };
        let n = players.len();
        let mut i: usize = 0;
        assert(players@.subrange(0, 0) =~= Seq::<PlayerId>::empty());
        while i < n
            invariant
                0 <= i <= n,
                n == players@.len(),
                sorted_by_player(net.sockets_spec()),
                forall|j: int|
                    0 <= j < net.sockets_spec().len() ==> #[trigger] net.sockets_spec()[j].1.wf(),
                forall|j: int|
                    0 <= j < net.sockets_spec().len()
                        ==> #[trigger] net.sockets_spec()[j].1.is_fresh(),
                forall|p: PlayerId|
                    #[trigger] contains_player(net.sockets_spec(), p) <==> players@.subrange(
                        0,
                        i as int,
                    ).contains(p),
            decreases n - i,
        {
            let player = players[i];
            let ghost before_sockets = net.sockets_spec();
            net.add_player(player);
            proof {
                let pre = players@.subrange(0, i as int);
                let cur = players@.subrange(0, i + 1);
                assert(cur =~= pre.push(players@[i as int]));
                assert forall|p: PlayerId|
                    #[trigger] contains_player(net.sockets_spec(), p) <==> cur.contains(p) by {
                    if contains_player(net.sockets_spec(), p) {
                        if p == player {
                            assert(cur[cur.len() - 1] == p);
                        } else {
                            assert(contains_player(before_sockets, p));
                            assert(pre.contains(p));
                            let w = choose|w: int| 0 <= w < pre.len() && pre[w] == p;
                            assert(cur[w] == p);
                        }
                    }
                    if cur.contains(p) {
                        let w = choose|w: int| 0 <= w < cur.len() && cur[w] == p;
                        if w < pre.len() {
                            assert(pre[w] == p);
                            assert(contains_player(before_sockets, p));
                        } else {
                            assert(p == player);
                        }
                    }
                }
            }
            i = i + 1;
        }
        assert(players@.subrange(0, n as int) =~= players@);
        net
    }

    /// Add a fresh socket for `player` if none exists yet.
    fn add_player(&mut self, player: PlayerId)
        requires
            sorted_by_player(old(self).sockets_spec()),
            forall|j: int|
                0 <= j < old(self).sockets_spec().len() ==> #[trigger] old(self).sockets_spec()[j].1.wf(),
            forall|j: int|
                0 <= j < old(self).sockets_spec().len() ==> #[trigger] old(self).sockets_spec()[j].1.is_fresh(),
        ensures
            sorted_by_player(final(self).sockets_spec()),
            forall|j: int|
                0 <= j < final(self).sockets_spec().len() ==> #[trigger] final(self).sockets_spec()[j].1.wf(),
            forall|j: int|
                0 <= j < final(self).sockets_spec().len() ==> #[trigger] final(self).sockets_spec()[j].1.is_fresh(),
            forall|p: PlayerId|
                #[trigger] contains_player(final(self).sockets_spec(), p) <==> contains_player(
                    old(self).sockets_spec(),
                    p,
                ) || p == player,
    {
        let pid = player.to_u32();
        let mut idx: usize = 0;
        while idx < self.sockets.len() && self.sockets[idx].0.to_u32() < pid
            invariant
                0 <= idx <= self.sockets_spec().len(),
                forall|i: int| 0 <= i < idx ==> #[trigger] self.sockets_spec()[i].0.0 < pid,
            decreases self.sockets_spec().len() - idx,
        {
            idx = idx + 1;
        }
        if idx < self.sockets.len() && self.sockets[idx].0.to_u32() == pid {
            proof {
                assert(self.sockets_spec()[idx as int].0 == player);
            }
            return ;
        }

        let socket = MockSocket {
            params: MockSocketParams::perfect(),
            server_out: MockChannel::new(),
            client_out: MockChannel::new(),
        };
        let ghost b = self.sockets_spec();
        self.sockets.insert(idx, (player, socket));
        proof {
            let b2 = self.sockets_spec();
            assert(b2 == b.insert(idx as int, (player, socket)));
            assert forall|i: int, j: int| 0 <= i < j < b2.len() implies b2[i].0.0 < b2[j].0.0 by {
                if i < idx && j < idx {
                    assert(b[i].0.0 < b[j].0.0);
                } else if i < idx && j == idx {
                    assert(b[i].0.0 < pid);
                } else if i < idx && j > idx {
                    assert(b[i].0.0 < b[j - 1].0.0);
                } else if i == idx {
                    assert(b[j - 1].0.0 >= pid);
                    assert(b[j - 1].0.0 != pid);
                } else {
                    assert(b[i - 1].0.0 < b[j - 1].0.0);
                }
            }
            assert forall|p: PlayerId|
                #[trigger] contains_player(b2, p) <==> contains_player(b, p) || p == player by {
                if contains_player(b2, p) {
                    let w = choose|w: int| 0 <= w < b2.len() && b2[w].0 == p;
                    if w < idx {
                        assert(b[w].0 == p);
                    } else if w > idx {
                        assert(b[w - 1].0 == p);
                    }
                }
                if contains_player(b, p) {
                    let w = choose|w: int| 0 <= w < b.len() && b[w].0 == p;
                    if w < idx {
                        assert(b2[w].0 == p);
                    } else {
                        assert(b2[w + 1].0 == p);
                    }
                }
                if p == player {
                    assert(b2[idx as int].0 == p);
                }
            }
        }
    }

    /// The position of `player`'s socket.
    fn find_socket(&self, player: PlayerId) -> (idx: usize)
        requires
            self.wf(),
            contains_player(self.sockets_spec(), player),
        ensures
            idx < self.sockets_spec().len(),
            self.sockets_spec()[idx as int].0 == player,
    {
        let pid = player.to_u32();
        let n = self.sockets.len();
        let mut idx: usize = 0;
        while idx < n && self.sockets[idx].0.to_u32() != pid
            invariant
                0 <= idx <= n,
                n == self.sockets_spec().len(),
                contains_player(self.sockets_spec(), player),
                forall|i: int| 0 <= i < idx ==> #[trigger] self.sockets_spec()[i].0.0 != pid,
            decreases n - idx,
        {
            idx = idx + 1;
        }
        proof {
            let w = choose|w: int|
                0 <= w < self.sockets_spec().len() && self.sockets_spec()[w].0 == player;
            assert(self.sockets_spec()[w].0.0 == pid);
            assert(w >= idx);
        }
        idx
    }

    /// Replace the channel parameters of `player`'s socket.
    pub fn set_params(&mut self, player: PlayerId, params: MockSocketParams)
        requires
            old(self).wf(),
            contains_player(old(self).sockets_spec(), player),
            params.wf(),
        ensures
            final(self).wf(),
            final(self).sockets_spec().len() == old(self).sockets_spec().len(),
            forall|i: int|
                0 <= i < final(self).sockets_spec().len() ==> #[trigger] final(self).sockets_spec()[i].0 == old(self).sockets_spec()[i].0,
            forall|i: int|
                0 <= i < final(self).sockets_spec().len() && old(self).sockets_spec()[i].0
                    != player ==> #[trigger] final(self).sockets_spec()[i] == old(self).sockets_spec()[i],
            forall|i: int|
                0 <= i < final(self).sockets_spec().len() && old(self).sockets_spec()[i].0
                    == player ==> {
                    &&& #[trigger] final(self).sockets_spec()[i].1.params_spec() == params
                    &&& final(self).sockets_spec()[i].1.server_transit() == old(self).sockets_spec()[i].1.server_transit()
                    &&& final(self).sockets_spec()[i].1.client_transit() == old(self).sockets_spec()[i].1.client_transit()
                },
    {
        let idx = self.find_socket(player);
        let ghost b = self.sockets_spec();
        let mut entry = self.sockets.remove(idx);
        proof {
            assert(entry == b[idx as int]);
            assert(b[idx as int].1.wf());
        }
        entry.1.params = params;
        self.sockets.insert(idx, entry);
        proof {
            assert(self.sockets_spec() =~= b.update(idx as int, entry));
            lemma_socket_update_wf(b, self.sockets_spec(), idx as int, entry);
        }
    }

    /// Queue a message from `sender` towards the server. On a lossless
    /// channel the message is always placed in transit.
    pub fn send_to_server(&mut self, now: LocalTime, sender: PlayerId, message: C)
        requires
            old(self).wf(),
            contains_player(old(self).sockets_spec(), sender),
            in_time_range(now@),
        ensures
            final(self).wf(),
            final(self).sockets_spec().len() == old(self).sockets_spec().len(),
            forall|i: int|
                0 <= i < final(self).sockets_spec().len() ==> #[trigger] final(self).sockets_spec()[i].0 == old(self).sockets_spec()[i].0,
            forall|i: int|
                0 <= i < final(self).sockets_spec().len() && old(self).sockets_spec()[i].0
                    != sender ==> #[trigger] final(self).sockets_spec()[i] == old(self).sockets_spec()[i],
            forall|i: int|
                0 <= i < final(self).sockets_spec().len() && old(self).sockets_spec()[i].0
                    == sender ==> {
                    &&& #[trigger] final(self).sockets_spec()[i].1.params_spec() == old(self).sockets_spec()[i].1.params_spec()
                    &&& final(self).sockets_spec()[i].1.server_transit() == old(self).sockets_spec()[i].1.server_transit()
                    &&& (final(self).sockets_spec()[i].1.client_transit() == old(self).sockets_spec()[i].1.client_transit() || sent_within(
                        old(self).sockets_spec()[i].1.client_transit(),
                        final(self).sockets_spec()[i].1.client_transit(),
                        now@,
                        old(self).sockets_spec()[i].1.params_spec().client_out,
                        message,
                    ))
                    &&& old(self).sockets_spec()[i].1.params_spec().client_out.loss_ppm == 0
                        ==> sent_within(
                        old(self).sockets_spec()[i].1.client_transit(),
                        final(self).sockets_spec()[i].1.client_transit(),
                        now@,
                        old(self).sockets_spec()[i].1.params_spec().client_out,
                        message,
                    )
                },
    {
        let idx = self.find_socket(sender);
        let ghost b = self.sockets_spec();
        let mut entry = self.sockets.remove(idx);
        proof {
            assert(entry == b[idx as int]);
            assert(b[idx as int].1.wf());
        }
        entry.1.client_out.send(now, &entry.1.params.client_out, &mut self.rng, message);
        self.sockets.insert(idx, entry);
        proof {
            assert(self.sockets_spec() =~= b.update(idx as int, entry));
            lemma_socket_update_wf(b, self.sockets_spec(), idx as int, entry);
        }
    }

    /// Queue a message from the server towards `receiver`. On a lossless
    /// channel the message is always placed in transit.
    pub fn send_to_client(&mut self, now: LocalTime, receiver: PlayerId, message: S)
        requires
            old(self).wf(),
            contains_player(old(self).sockets_spec(), receiver),
            in_time_range(now@),
        ensures
            final(self).wf(),
            final(self).sockets_spec().len() == old(self).sockets_spec().len(),
            forall|i: int|
                0 <= i < final(self).sockets_spec().len() ==> #[trigger] final(self).sockets_spec()[i].0 == old(self).sockets_spec()[i].0,
            forall|i: int|
                0 <= i < final(self).sockets_spec().len() && old(self).sockets_spec()[i].0
                    != receiver ==> #[trigger] final(self).sockets_spec()[i] == old(self).sockets_spec()[i],
            forall|i: int|
                0 <= i < final(self).sockets_spec().len() && old(self).sockets_spec()[i].0
                    == receiver ==> {
                    &&& #[trigger] final(self).sockets_spec()[i].1.params_spec() == old(self).sockets_spec()[i].1.params_spec()
                    &&& final(self).sockets_spec()[i].1.client_transit() == old(self).sockets_spec()[i].1.client_transit()
                    &&& (final(self).sockets_spec()[i].1.server_transit() == old(self).sockets_spec()[i].1.server_transit() || sent_within(
                        old(self).sockets_spec()[i].1.server_transit(),
                        final(self).sockets_spec()[i].1.server_transit(),
                        now@,
                        old(self).sockets_spec()[i].1.params_spec().server_out,
                        message,
                    ))
                    &&& old(self).sockets_spec()[i].1.params_spec().server_out.loss_ppm == 0
                        ==> sent_within(
                        old(self).sockets_spec()[i].1.server_transit(),
                        final(self).sockets_spec()[i].1.server_transit(),
                        now@,
                        old(self).sockets_spec()[i].1.params_spec().server_out,
                        message,
                    )
                },
    {
        let idx = self.find_socket(receiver);
        let ghost b = self.sockets_spec();
        let mut entry = self.sockets.remove(idx);
        proof {
            assert(entry == b[idx as int]);
            assert(b[idx as int].1.wf());
        }
        entry.1.server_out.send(now, &entry.1.params.server_out, &mut self.rng, message);
        self.sockets.insert(idx, entry);
        proof {
            assert(self.sockets_spec() =~= b.update(idx as int, entry));
            lemma_socket_update_wf(b, self.sockets_spec(), idx as int, entry);
        }
    }

    /// Hand `receiver` every server-to-client message that has arrived by
    /// `now`, in arrival order.
    pub fn receive_client(&mut self, now: LocalTime, receiver: PlayerId) -> (r: Vec<
        (LocalTime, S),
    >)
        requires
            old(self).wf(),
            contains_player(old(self).sockets_spec(), receiver),
        ensures
            final(self).wf(),
            final(self).sockets_spec().len() == old(self).sockets_spec().len(),
            forall|i: int|
                0 <= i < final(self).sockets_spec().len() ==> #[trigger] final(self).sockets_spec()[i].0 == old(self).sockets_spec()[i].0,
            forall|i: int|
                0 <= i < final(self).sockets_spec().len() && old(self).sockets_spec()[i].0
                    != receiver ==> #[trigger] final(self).sockets_spec()[i] == old(self).sockets_spec()[i],
            forall|i: int|
                0 <= i < final(self).sockets_spec().len() && old(self).sockets_spec()[i].0
                    == receiver ==> {
                    let pre = old(self).sockets_spec()[i].1.server_transit();
                    &&& #[trigger] final(self).sockets_spec()[i].1.params_spec() == old(self).sockets_spec()[i].1.params_spec()
                    &&& final(self).sockets_spec()[i].1.client_transit() == old(self).sockets_spec()[i].1.client_transit()
                    &&& r@.len() == ready_count(pre, now@)
                    &&& final(self).sockets_spec()[i].1.server_transit() == pre.subrange(
                        0,
                        pre.len() - r@.len(),
                    )
                    &&& forall|j: int|
                        0 <= j < r@.len() ==> #[trigger] r@[j] == pre[pre.len() - 1 - j]
                            && r@[j].0@ <= now@
                },
    {
        let idx = self.find_socket(receiver);
        let ghost b = self.sockets_spec();
        let mut entry = self.sockets.remove(idx);
        proof {
            assert(entry == b[idx as int]);
            assert(b[idx as int].1.wf());
        }
        let messages = entry.1.server_out.drain_ready(now);
        self.sockets.insert(idx, entry);
        proof {
            assert(self.sockets_spec() =~= b.update(idx as int, entry));
            lemma_socket_update_wf(b, self.sockets_spec(), idx as int, entry);
        }
        messages
    }

    /// Collect every client-to-server message that has arrived by `now`,
    /// over all sockets, sorted by arrival time with ties broken by player.
    pub fn receive_server(&mut self, now: LocalTime) -> (r: Vec<(LocalTime, PlayerId, C)>)
        requires
            old(self).wf(),
        ensures
            final(self).wf(),
            final(self).sockets_spec().len() == old(self).sockets_spec().len(),
            forall|i: int|
                0 <= i < final(self).sockets_spec().len() ==> {
                    let pre = old(self).sockets_spec()[i].1.client_transit();
                    &&& #[trigger] final(self).sockets_spec()[i].0 == old(self).sockets_spec()[i].0
                    &&& final(self).sockets_spec()[i].1.params_spec() == old(self).sockets_spec()[i].1.params_spec()
                    &&& final(self).sockets_spec()[i].1.server_transit() == old(self).sockets_spec()[i].1.server_transit()
                    &&& final(self).sockets_spec()[i].1.client_transit() == pre.subrange(
                        0,
                        pre.len() - ready_count(pre, now@),
                    )
                },
            sorted_by_arrival_then_player(r@),
            r@.to_multiset() == released_messages(old(self).sockets_spec(), now@).to_multiset(),
    {
        broadcast use group_to_multiset_ensures;

        let ghost orig = old(self).sockets_spec();
        let n = self.sockets.len();
        let mut collected: Vec<(LocalTime, PlayerId, C)> = Vec::new();
        let mut i: usize = 0;
        assert(released_messages(orig.subrange(0, 0), now@) =~= Seq::<
            (LocalTime, PlayerId, C),
        >::empty());
        while i < n
            invariant
                0 <= i <= n,
                n == self.sockets_spec().len(),
                n == orig.len(),
                sorted_by_player(orig),
                forall|j: int| 0 <= j < n ==> #[trigger] orig[j].1.wf(),
                forall|j: int| i <= j < n ==> #[trigger] self.sockets_spec()[j] == orig[j],
                forall|j: int|
                    0 <= j < i ==> {
                        let pre = orig[j].1.client_transit();
                        &&& #[trigger] self.sockets_spec()[j].0 == orig[j].0
                        &&& self.sockets_spec()[j].1.params_spec() == orig[j].1.params_spec()
                        &&& self.sockets_spec()[j].1.server_transit() == orig[j].1.server_transit()
                        &&& self.sockets_spec()[j].1.client_transit() == pre.subrange(
                            0,
                            pre.len() - ready_count(pre, now@),
                        )
                        &&& self.sockets_spec()[j].1.wf()
                    },
                collected@ == released_messages(orig.subrange(0, i as int), now@),
            decreases n - i,
        {
            let ghost b = self.sockets_spec();
            let mut entry = self.sockets.remove(i);
            let ghost pre = entry.1.client_transit();
            proof {
                assert(entry == b[i as int]);
                assert(b[i as int] == orig[i as int]);
                assert(orig[i as int].1.wf());
            }
            let mut messages = entry.1.client_out.drain_ready(now);
            let player = entry.0;
            self.sockets.insert(i, entry);
            proof {
                assert(self.sockets_spec() =~= b.update(i as int, entry));
                assert(entry.1.wf());
                assert(entry.0 == orig[i as int].0);
                assert(entry.1.params_spec() == orig[i as int].1.params_spec());
                assert(entry.1.server_transit() == orig[i as int].1.server_transit());
                assert(entry.1.client_transit() == pre.subrange(
                    0,
                    pre.len() - ready_count(pre, now@),
                ));
            }

            let ghost triples = released_triples(orig[i as int], now@);
            let ghost base = collected@;
            let ghost mseq = messages@;
            proof {
                assert(base + triples.subrange(0, 0) =~= base);
                assert(triples.len() == mseq.len());
                assert forall|q: int| 0 <= q < mseq.len() implies #[trigger] triples[q] == (
                    mseq[q].0,
                    player,
                    mseq[q].1,
                ) by {
                    assert(mseq[q] == pre[pre.len() - 1 - q]);
                }
            }
            while messages.len() > 0
                invariant
                    messages@.len() <= mseq.len(),
                    messages@ == mseq.subrange(
                        mseq.len() - messages@.len(),
                        mseq.len() as int,
                    ),
                    triples.len() == mseq.len(),
                    forall|q: int|
                        0 <= q < mseq.len() ==> #[trigger] triples[q] == (
                            mseq[q].0,
                            player,
                            mseq[q].1,
                        ),
                    collected@ == base + triples.subrange(
                        0,
                        mseq.len() - messages@.len(),
                    ),
                decreases messages@.len(),
            {
                let ghost done = mseq.len() - messages@.len();
                let e = messages.remove(0);
                proof {
                    assert(e == mseq[done]);
                    assert(messages@ =~= mseq.subrange(done + 1, mseq.len() as int));
                }
                collected.push((e.0, player, e.1));
                proof {
                    assert(base + triples.subrange(0, done + 1) =~= (base + triples.subrange(
                        0,
                        done,
                    )).push(triples[done]));
                }
            }
            proof {
                assert(triples.subrange(0, triples.len() as int) =~= triples);
                let p2 = orig.subrange(0, i + 1);
                assert(p2.drop_last() =~= orig.subrange(0, i as int));
                assert(p2.last() == orig[i as int]);
            }
            i = i + 1;
        }
        proof {
            assert(orig.subrange(0, n as int) =~= orig);
            assert forall|x: int, y: int|
                0 <= x < y < self.sockets_spec().len() implies self.sockets_spec()[x].0.0
                < self.sockets_spec()[y].0.0 by {
                assert(self.sockets_spec()[x].0 == orig[x].0);
                assert(self.sockets_spec()[y].0 == orig[y].0);
                assert(orig[x].0.0 < orig[y].0.0);
            }
        }

        // Merge the collected messages into arrival order, ties broken by
        // player.
        let ghost settled = self.sockets_spec();
        proof {
            assert(sorted_by_player(settled));
            assert(settled.len() == orig.len());
            assert forall|j: int| 0 <= j < settled.len() implies {
                let pre = orig[j].1.client_transit();
                &&& #[trigger] settled[j].0 == orig[j].0
                &&& settled[j].1.params_spec() == orig[j].1.params_spec()
                &&& settled[j].1.server_transit() == orig[j].1.server_transit()
                &&& settled[j].1.client_transit() == pre.subrange(
                    0,
                    pre.len() - ready_count(pre, now@),
                )
                &&& settled[j].1.wf()
            } by {
                assert(self.sockets_spec()[j].0 == orig[j].0);
            }
        }
        let ghost cseq = collected@;
        let mut result: Vec<(LocalTime, PlayerId, C)> = Vec::new();
        proof {
            assert(cseq.subrange(0, 0) =~= Seq::<(LocalTime, PlayerId, C)>::empty());
            assert(result@.to_multiset() =~= cseq.subrange(0, 0).to_multiset());
        }
        while collected.len() > 0
            invariant
                self.sockets_spec() == settled,
                collected@.len() <= cseq.len(),
                collected@ == cseq.subrange(cseq.len() - collected@.len(), cseq.len() as int),
                result@.to_multiset() == cseq.subrange(
                    0,
                    cseq.len() - collected@.len(),
                ).to_multiset(),
                sorted_by_arrival_then_player(result@),
            decreases collected@.len(),
        {
            let ghost done = cseq.len() - collected@.len();
            let e = collected.remove(0);
            proof {
                assert(e == cseq[done]);
                assert(collected@ =~= cseq.subrange(done + 1, cseq.len() as int));
            }
            let t_micros = e.0.to_micros();
            let pid = e.1.to_u32();
            let mut idx: usize = 0;
            while idx < result.len() && comes_no_later(&result[idx], t_micros, pid)
                invariant
                    0 <= idx <= result@.len(),
                    e.0@ == t_micros as int,
                    e.1.0 == pid,
                    forall|q: int|
                        0 <= q < idx ==> #[trigger] result@[q].0@ < t_micros as int || (result@[q].0@ == t_micros as int && result@[q].1.0 <= pid),
                decreases result@.len() - idx,
            {
                idx = idx + 1;
            }
            let ghost b = result@;
            proof {
                if (idx as int) < b.len() {
                    assert(!(b[idx as int].0@ < t_micros as int || (b[idx as int].0@
                        == t_micros as int && b[idx as int].1.0 <= pid)));
                }
            }
            result.insert(idx, e);
            proof {
                broadcast use group_to_multiset_ensures;

                let b2 = result@;
                assert(b2 == b.insert(idx as int, e));
                lemma_insert_to_multiset(b, idx as int, e);
                assert(cseq.subrange(0, done + 1) =~= cseq.subrange(0, done).push(e));
                assert(cseq.subrange(0, done).push(e).to_multiset() == cseq.subrange(
                    0,
                    done,
                ).to_multiset().insert(e));
                assert forall|x: int, y: int|
                    0 <= x < y < b2.len() implies b2[x].0@ < b2[y].0@ || (b2[x].0@ == b2[y].0@
                    && b2[x].1.0 <= b2[y].1.0) by {
                    if x < idx && y < idx {
                        assert(b[x] == b2[x] && b[y] == b2[y]);
                    } else if x < idx && y == idx {
                        assert(b2[x] == b[x]);
                    } else if x < idx && y > idx {
                        assert(b2[x] == b[x] && b2[y] == b[y - 1]);
                    } else if x == idx {
                        assert(b2[y] == b[y - 1]);
                        assert(b[idx as int].0@ <= b[y - 1].0@ || (b[idx as int].0@ == b[y
                            - 1].0@ && b[idx as int].1.0 <= b[y - 1].1.0)) by {
                            if idx as int == y - 1 {
                            } else {
                                assert(b[idx as int].0@ < b[y - 1].0@ || (b[idx as int].0@ == b[y
                                    - 1].0@ && b[idx as int].1.0 <= b[y - 1].1.0));
                            }
                        }
                    } else {
                        assert(b2[x] == b[x - 1] && b2[y] == b[y - 1]);
                    }
                }
            }
        }
        proof {
            assert(cseq.subrange(0, cseq.len() as int) =~= cseq);
            assert(self.sockets_spec() == settled);
            assert forall|i: int|
                0 <= i < self.sockets_spec().len() implies #[trigger] self.sockets_spec()[
                i].1.wf() by {
                assert(settled[i].0 == orig[i].0);
                assert(settled[i].1.wf());
            }
        }
        result
    }
}

} // verus!

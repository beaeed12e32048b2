//! Server-side bookkeeping of sent ticks and client acknowledgements.

use vstd::prelude::*;

use crate::tick::num::TickNum;

verus! {

/// Whether a sent-tick record holds an entry for tick number `n`.
pub open spec fn holds_num<T>(s: Seq<(TickNum, T)>, n: int) -> bool {
    exists|i: int| 0 <= i < s.len() && s[i].0@ == n
}

/// A sender's record of the ticks it has sent and of the newest tick the
/// client has acknowledged, used to compute deltas against acknowledged
/// state.
#[derive(Debug, Clone)]
pub struct SenderTickBuffer<T> {
    last_client_ack_num: Option<TickNum>,
    sent_ticks: Vec<(TickNum, T)>,
}

impl<T> SenderTickBuffer<T> {
    /// The newest acknowledged tick number, if any.
    pub closed spec fn last_ack(&self) -> Option<TickNum> {
        self.last_client_ack_num
    }

    /// The sent ticks, in order of sending.
    pub closed spec fn sent(&self) -> Seq<(TickNum, T)> {
        self.sent_ticks@
    }

    /// Well-formedness: each tick was sent at most once.
    pub open spec fn wf(&self) -> bool {
        forall|i: int, j: int|
            0 <= i < j < self.sent().len() ==> (#[trigger] self.sent()[i]).0@ != (
            #[trigger] self.sent()[j]).0@
    }

    /// An empty record.
    pub fn new() -> (r: Self)
        ensures
            r.wf(),
            r.last_ack() is None,
            r.sent() == Seq::<(TickNum, T)>::empty(),
    {
        SenderTickBuffer { last_client_ack_num: None, sent_ticks: Vec::new() }
    }

    /// Record that the client acknowledged tick `num`: the newest
    /// acknowledged number never decreases.
    pub fn record_client_ack(&mut self, num: TickNum)
        requires
            old(self).wf(),
        ensures
            final(self).wf(),
            final(self).sent() == old(self).sent(),
            final(self).last_ack() == match old(self).last_ack() {
                Some(l) => if l@ >= num@ {
                    Some(l)
                } else {
                    Some(num)
                },
                None => Some(num),
            },
    {
        let keep_old = match self.last_client_ack_num {
            Some(l) => num.le(l),
            None => false,
        };
        if !keep_old {
            self.last_client_ack_num = Some(num);
        }
        proof {
            assert forall|i: int, j: int|
                0 <= i < j < self.sent().len() implies (#[trigger] self.sent()[i]).0@ != (
                #[trigger] self.sent()[j]).0@ by {
                assert((old(self).sent()[i]).0@ != (old(self).sent()[j]).0@);
            }
        }
    }

    /// Record that tick `num` was sent with payload `tick`. A tick is never
    /// sent twice.
    pub fn record_sent_tick(&mut self, num: TickNum, tick: T)
        requires
            old(self).wf(),
            !holds_num(old(self).sent(), num@),
        ensures
            final(self).wf(),
            final(self).last_ack() == old(self).last_ack(),
            final(self).sent() == old(self).sent().push((num, tick)),
    {
        let ghost b = self.sent();
        self.sent_ticks.push((num, tick));
        proof {
            let b2 = self.sent();
            assert forall|i: int, j: int| 0 <= i < j < b2.len() implies b2[i].0@ != b2[j].0@ by {
                if j < b.len() {
                    assert(b[i].0@ != b[j].0@);
                } else {
                    assert(b2[i].0@ != num@);
                }
            }
        }
    }

    /// The newest acknowledged tick number, if any.
    pub fn get_last_client_ack_num(&self) -> (r: Option<TickNum>)
        ensures
            r == self.last_ack(),
    {
        self.last_client_ack_num
    }

    /// The payload sent for the newest acknowledged tick, if it was sent.
    pub fn get_last_client_ack_tick(&self) -> (r: Option<&T>)
        ensures
            r is None ==> self.last_ack() is None || !holds_num(
                self.sent(),
                self.last_ack()->Some_0@,
            ),
            r matches Some(v) ==> {
                &&& self.last_ack() matches Some(l)
                &&& exists|i: int|
                    0 <= i < self.sent().len() && (#[trigger] self.sent()[i]).0@ == l@ && *v
                        == self.sent()[i].1
            },
    {
        let ack = match self.last_client_ack_num {
            Some(l) => l,
            None => {
                return None;
            },
        };
        let n = self.sent_ticks.len();
        let mut i: usize = 0;
        while i < n
            invariant
                0 <= i <= n,
                n == self.sent().len(),
                self.last_ack() == Some(ack),
                forall|k: int| 0 <= k < i ==> (#[trigger] self.sent()[k]).0@ != ack@,
            decreases n - i,
        {
            if self.sent_ticks[i].0.to_u64() == ack.to_u64() {
                proof {
                    assert((self.sent()[i as int]).0@ == ack@);
                }
                return Some(&self.sent_ticks[i].1);
            }
            i = i + 1;
        }
        proof {
            if holds_num(self.sent(), ack@) {
                let w = choose|w: int|
                    0 <= w < self.sent().len() && self.sent()[w].0@ == ack@;
                assert((self.sent()[w]).0@ != ack@);
            }
        }
        None
    }
}

} // verus!

//! The fixed-record price protocol: each nine-byte record is either an insert
//! of a time-stamped price or a query for the truncated arithmetic mean of
//! the prices in a closed time window. One store holds the prices of one
//! connection; timestamps are unique keys, later inserts win.
use vstd::arithmetic::div_mod::{lemma_div_is_ordered, lemma_div_multiples_vanish};
use vstd::prelude::*;

verus! {

#[derive(Clone, Copy, PartialEq, Eq, Structural, Debug)]
pub enum Message {
    InsertMessage { timestamp: i32, price: i32 },
    QueryMessage { mintime: i32, maxtime: i32 },
}

/// Four bytes read as a big-endian unsigned integer.
pub open spec fn be_u32(b0: u8, b1: u8, b2: u8, b3: u8) -> int {
    b0 * 0x1000000 + b1 * 0x10000 + b2 * 0x100 + b3
}

/// Four bytes read as a big-endian two's-complement signed integer.
pub open spec fn be_i32(b0: u8, b1: u8, b2: u8, b3: u8) -> int {
    let u = be_u32(b0, b1, b2, b3);
    if u >= 0x80000000 {
        u - 0x100000000
    } else {
        u
    }
}

fn read_be_i32(b0: u8, b1: u8, b2: u8, b3: u8) -> (r: i32)
    ensures
        r as int == be_i32(b0, b1, b2, b3),
{
    let u: u32 = (b0 as u32) * 0x1000000 + (b1 as u32) * 0x10000 + (b2 as u32) * 0x100 + (
    b3 as u32);
    if u >= 0x80000000 {
        let v: i64 = (u as i64) - 0x100000000;
        v as i32
    } else {
        u as i32
    }
}

/// Decodes one nine-byte record: an `I` tag carries a timestamped price, a
/// `Q` tag a closed time window; any other tag is rejected.
pub fn parse_message(buffer: [u8; 9]) -> (r: Option<Message>)
    ensures
        buffer@[0] == 73 ==> (r matches Some(m) && m == (Message::InsertMessage {
            timestamp: be_i32(buffer@[1], buffer@[2], buffer@[3], buffer@[4]) as i32,
            price: be_i32(buffer@[5], buffer@[6], buffer@[7], buffer@[8]) as i32,
        })),
        buffer@[0] == 81 ==> (r matches Some(m) && m == (Message::QueryMessage {
            mintime: be_i32(buffer@[1], buffer@[2], buffer@[3], buffer@[4]) as i32,
            maxtime: be_i32(buffer@[5], buffer@[6], buffer@[7], buffer@[8]) as i32,
        })),
        buffer@[0] != 73 && buffer@[0] != 81 ==> r is None,
{
    let tag = buffer[0];
    if tag == 73 {
        let timestamp = read_be_i32(buffer[1], buffer[2], buffer[3], buffer[4]);
        let price = read_be_i32(buffer[5], buffer[6], buffer[7], buffer[8]);
        Some(Message::InsertMessage { timestamp, price })
    } else if tag == 81 {
        let mintime = read_be_i32(buffer[1], buffer[2], buffer[3], buffer[4]);
        let maxtime = read_be_i32(buffer[5], buffer[6], buffer[7], buffer[8]);
        Some(Message::QueryMessage { mintime, maxtime })
    } else {
        None
    }
}

/// The stored prices whose timestamp falls in the closed window.
pub open spec fn window(s: Seq<(i32, i32)>, mintime: i32, maxtime: i32) -> Seq<(i32, i32)> {
    s.filter(|e: (i32, i32)| mintime <= e.0 && e.0 <= maxtime)
}

/// The sum of the stored prices.
pub open spec fn sum_prices(s: Seq<(i32, i32)>) -> int
    decreases s.len(),
{
    if s.len() == 0 {
        0
    } else {
        sum_prices(s.drop_last()) + s.last().1
    }
}

/// Division truncating toward zero, for a positive divisor.
pub open spec fn trunc_div(a: int, b: int) -> int {
    if a >= 0 {
        a / b
    } else {
        -((-a) / b)
    }
}

proof fn lemma_window_push(s: Seq<(i32, i32)>, e: (i32, i32), mintime: i32, maxtime: i32)
    ensures
        mintime <= e.0 && e.0 <= maxtime ==> window(s.push(e), mintime, maxtime) == window(
            s,
            mintime,
            maxtime,
        ).push(e),
        !(mintime <= e.0 && e.0 <= maxtime) ==> window(s.push(e), mintime, maxtime) == window(
            s,
            mintime,
            maxtime,
        ),
{
    assert(s.push(e).drop_last() =~= s);
    assert(s.push(e).last() == e);
    reveal(Seq::filter);
}

/// Whether a timestamp is present in the store.
pub open spec fn store_has(s: Seq<(i32, i32)>, timestamp: i32) -> bool {
    exists|i: int| 0 <= i < s.len() && (#[trigger] s[i]).0 == timestamp
}

/// The index of the entry with the given timestamp.
pub open spec fn store_index_of(s: Seq<(i32, i32)>, timestamp: i32) -> int {
    choose|i: int| 0 <= i < s.len() && (#[trigger] s[i]).0 == timestamp
}

/// The prices one connection has inserted, keyed by timestamp.
pub struct PriceStore {
    entries: Vec<(i32, i32)>,
}

impl View for PriceStore {
    type V = Seq<(i32, i32)>;

    closed spec fn view(&self) -> Seq<(i32, i32)> {
        self.entries@
    }
}

impl PriceStore {
    /// Timestamps are unique keys.
    pub open spec fn wf(&self) -> bool {
        forall|i: int, j: int|
            0 <= i < j < self@.len() ==> (#[trigger] self@[i]).0 != (#[trigger] self@[j]).0
    }

    pub fn new() -> (s: PriceStore)
        ensures
            s@ =~= Seq::<(i32, i32)>::empty(),
            s.wf(),
    {
        PriceStore { entries: Vec::new() }
    }

    fn find_index(&self, timestamp: i32) -> (r: Option<usize>)
        ensures
            match r {
                Some(i) => 0 <= i < self@.len() && self@[i as int].0 == timestamp,
                None => !store_has(self@, timestamp),
            },
    {
        let mut i: usize = 0;
        while i < self.entries.len()
            invariant
                0 <= i <= self@.len(),
                forall|j: int| 0 <= j < i ==> (#[trigger] self@[j]).0 != timestamp,
            decreases self@.len() - i,
        {
            if self.entries[i].0 == timestamp {
                return Some(i);
            }
            i = i + 1;
        }
        None
    }

    /// Stores a price under its timestamp; a later insert for the same
    /// timestamp replaces the earlier price.
    pub fn handle_insert(&mut self, timestamp: i32, price: i32)
        requires
            old(self).wf(),
        ensures
            final(self).wf(),
            store_has(old(self)@, timestamp) ==> final(self)@ =~= old(self)@.update(
                store_index_of(old(self)@, timestamp),
                (timestamp, price),
            ),
            !store_has(old(self)@, timestamp) ==> final(self)@ =~= old(self)@.push(
                (timestamp, price),
            ),
    {
        let found = self.find_index(timestamp);
        match found {
            Some(i) => {
                proof {
                    let oi = store_index_of(old(self)@, timestamp);
                    assert(old(self)@[oi].0 == timestamp);
                    assert(oi == i as int);
                }
                self.entries[i] = (timestamp, price);
                proof {
                    assert forall|p: int, q: int| 0 <= p < q < self@.len() implies (
                    #[trigger] self@[p]).0 != (#[trigger] self@[q]).0 by {
                        assert(old(self)@[p].0 != old(self)@[q].0);
                    }
                }
            },
            None => {
                self.entries.push((timestamp, price));
                proof {
                    assert forall|p: int, q: int| 0 <= p < q < self@.len() implies (
                    #[trigger] self@[p]).0 != (#[trigger] self@[q]).0 by {
                        if q < self@.len() - 1 {
                            assert(old(self)@[p].0 != old(self)@[q].0);
                        } else {
                            assert(old(self)@[p].0 != timestamp);
                        }
                    }
                }
            },
        }
    }

    /// The truncated arithmetic mean of the prices whose timestamp lies in
    /// the closed window, or nothing if the window is empty.
    pub fn handle_query(&self, mintime: i32, maxtime: i32) -> (r: Option<i32>)
        ensures
            ({
                let w = window(self@, mintime, maxtime);
                &&& (r is None <==> w.len() == 0)
                &&& (r matches Some(m) ==> m as int == trunc_div(
                    sum_prices(w),
                    w.len() as int,
                ))
            }),
    {
        let n = self.entries.len();
        let mut i: usize = 0;
        let mut cnt: usize = 0;
        let mut sum: i128 = 0;
        while i < n
            invariant
                0 <= i <= n,
                n == self@.len(),
                cnt == window(self@.take(i as int), mintime, maxtime).len(),
                cnt <= i,
                sum == sum_prices(window(self@.take(i as int), mintime, maxtime)),
                (-0x80000000) * (cnt as int) <= sum <= 0x7FFFFFFF * (cnt as int),
            decreases n - i,
        {
            proof {
                assert(self@.take(i + 1).drop_last() =~= self@.take(i as int));
                assert(self@.take(i + 1) =~= self@.take(i as int).push(self@[i as int]));
                lemma_window_push(self@.take(i as int), self@[i as int], mintime, maxtime);
            }
            let e = self.entries[i];
            if mintime <= e.0 && e.0 <= maxtime {
                sum = sum + (e.1 as i128);
                cnt = cnt + 1;
                proof {
                    let wprev = window(self@.take(i as int), mintime, maxtime);
                    let wnext = window(self@.take(i + 1), mintime, maxtime);
                    assert(wnext == wprev.push((e.0, e.1)));
                    assert(wnext.drop_last() =~= wprev);
                    assert(wnext.last() == (e.0, e.1));
                    assert(sum_prices(wnext) == sum_prices(wprev) + e.1);
                }
            }
            i = i + 1;
        }
        proof {
            assert(self@.take(n as int) =~= self@);
        }
        if cnt == 0 {
            None
        } else {
            let ghost w = window(self@, mintime, maxtime);
            let q: i128 = if sum >= 0 {
                proof {
                    lemma_div_is_ordered(sum as int, 0x7FFFFFFF * (cnt as int), cnt as int);
                    lemma_div_multiples_vanish(0x7FFFFFFF, cnt as int);
                }
                ((sum as u128) / (cnt as u128)) as i128
            } else {
                proof {
                    lemma_div_is_ordered(-(sum as int), 0x80000000 * (cnt as int), cnt as int);
                    lemma_div_multiples_vanish(0x80000000, cnt as int);
                }
                -((((-sum) as u128) / (cnt as u128)) as i128)
            };
            Some(q as i32)
        }
    }
}

} // verus!

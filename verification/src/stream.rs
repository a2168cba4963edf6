//! A stream of bytes made from chunks of text that arrive one by one.
//!
//! The chunks come over a channel that the caller owns. The stream says what
//! it wants next: to ask the channel, to wait for it, or to hand bytes out.
//! It gathers chunks until it holds `HIGH_WATER` bytes or the channel is
//! closed, and then hands out as many bytes as it is asked for.

use vstd::prelude::*;
use vstd::utf8::encode_utf8;

verus! {

/// The number of bytes from which on the stream hands out bytes before it
/// asks for more chunks.
pub const HIGH_WATER: usize = 4096;

/// What asking the channel gave.
#[derive(Debug, Eq, PartialEq, Clone)]
pub enum Answer {
    /// A chunk of text.
    Chunk(String),
    /// Nothing is there yet.
    Empty,
    /// The channel is closed.
    Disconnected,
}

/// What the stream wants next.
#[derive(Debug, Eq, PartialEq, Clone, Copy, Structural)]
pub enum Demand {
    /// Ask the channel, without waiting.
    Poll,
    /// Wait until the channel gives a chunk or is closed.
    Wait,
    /// Call `read`.
    Deliver,
}

/// The stream.
pub struct StreamedStringListResponse {
    buffer: Vec<u8>,
    counter: u64,
}

/// What a stream that holds `n` bytes wants, where the channel has not said
/// that it is empty or closed.
pub open spec fn demand_at(n: nat) -> Demand {
    if n < HIGH_WATER {
        Demand::Poll
    } else {
        Demand::Deliver
    }
}

/// The bytes held after an answer.
pub open spec fn accepted(held: Seq<u8>, answer: Answer) -> Seq<u8> {
    match answer {
        Answer::Chunk(s) => held + encode_utf8(s@),
        _ => held,
    }
}

/// What the stream wants after an answer, `held` being the bytes it holds
/// after that answer: it asks on as long as it holds fewer than `HIGH_WATER`
/// bytes, waits where it holds nothing and nothing is there, and hands out
/// bytes once the channel is closed.
pub open spec fn demand_after(held: Seq<u8>, answer: Answer) -> Demand {
    match answer {
        Answer::Chunk(_) => demand_at(held.len()),
        Answer::Empty => if held.len() == 0 {
            Demand::Wait
        } else {
            Demand::Poll
        },
        Answer::Disconnected => Demand::Deliver,
    }
}

/// The smaller of two numbers.
pub open spec fn at_most(a: int, b: int) -> int {
    if a <= b {
        a
    } else {
        b
    }
}

impl StreamedStringListResponse {
    /// The bytes that the stream holds.
    pub closed spec fn held(&self) -> Seq<u8> {
        self.buffer@
    }

    /// The number of bytes handed out so far; it stops counting at the
    /// largest `u64`.
    pub closed spec fn delivered(&self) -> nat {
        self.counter as nat
    }

    /// A stream that holds nothing.
    pub fn new() -> (r: StreamedStringListResponse)
        ensures
            r.held() == Seq::<u8>::empty(),
            r.delivered() == 0,
    {
        StreamedStringListResponse { buffer: Vec::with_capacity(HIGH_WATER), counter: 0 }
    }

    /// The number of bytes that the stream holds.
    pub fn len(&self) -> (r: usize)
        ensures
            r == self.held().len(),
    {
        self.buffer.len()
    }

    /// The number of bytes handed out so far.
    pub fn counter(&self) -> (r: u64)
        ensures
            r == self.delivered(),
    {
        self.counter
    }

    /// What the stream wants at the start of a read.
    pub fn demand(&self) -> (r: Demand)
        ensures
            r == demand_at(self.held().len()),
    {
        if self.buffer.len() < HIGH_WATER {
            Demand::Poll
        } else {
            Demand::Deliver
        }
    }

    /// Takes what asking the channel gave, and says what the stream wants
    /// next.
    pub fn accept(&mut self, answer: Answer) -> (r: Demand)
        ensures
            final(self).held() == accepted(old(self).held(), answer),
            final(self).delivered() == old(self).delivered(),
            r == demand_after(final(self).held(), answer),
    {
        match answer {
            Answer::Chunk(s) => {
                let bytes = s.as_str().as_bytes();
                let mut i: usize = 0;
                while i < bytes.len()
                    invariant
                        i <= bytes.len(),
                        bytes@ == encode_utf8(s@),
                        self.counter == old(self).counter,
                        self.buffer@ == old(self).buffer@ + bytes@.take(i as int),
                    decreases bytes.len() - i,
                {
                    self.buffer.push(bytes[i]);
                    assert(bytes@.take(i + 1) == bytes@.take(i as int).push(bytes@[i as int]));
                    i += 1;
                }
                assert(bytes@.take(bytes@.len() as int) == bytes@);
                if self.buffer.len() < HIGH_WATER {
                    Demand::Poll
                } else {
                    Demand::Deliver
                }
            },
            Answer::Empty => {
                if self.buffer.len() == 0 {
                    Demand::Wait
                } else {
                    Demand::Poll
                }
            },
            Answer::Disconnected => Demand::Deliver,
        }
    }

    /// Hands out the first bytes that the stream holds, at most `max` of
    /// them. An empty result means that the stream is at its end.
    pub fn read(&mut self, max: usize) -> (r: Vec<u8>)
        ensures
            r@ == old(self).held().take(at_most(max as int, old(self).held().len() as int)),
            final(self).held() == old(self).held().skip(
                at_most(max as int, old(self).held().len() as int),
            ),
            final(self).delivered() == at_most(
                (old(self).delivered() + r@.len()) as int,
                u64::MAX as int,
            ),
    {
        let n: usize = if max <= self.buffer.len() {
            max
        } else {
            self.buffer.len()
        };
        let rest = self.buffer.split_off(n);
        let mut out = rest;
        std::mem::swap(&mut self.buffer, &mut out);
        self.counter = match self.counter.checked_add(n as u64) {
            Some(c) => c,
            None => u64::MAX,
        };
        out
    }
}

} // verus!

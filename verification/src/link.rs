//! The two queues between the client and the transport: whole datagrams
//! come in through one and go out through the other.

use vstd::prelude::*;
use std::collections::VecDeque;

verus! {

/// The views of a list of datagrams, in order.
pub open spec fn datagrams(queue: Seq<Vec<u8>>) -> Seq<Seq<u8>> {
    Seq::new(queue.len(), |i: int| queue[i]@)
}

/// Inbound queue: the transport appends what arrived, the reader takes from
/// the front.
pub struct LinkReceiver {
    queue: VecDeque<Vec<u8>>,
}

impl View for LinkReceiver {
    type V = Seq<Seq<u8>>;

    closed spec fn view(&self) -> Seq<Seq<u8>> {
        datagrams(self.queue@)
    }
}

impl LinkReceiver {
    /// An empty queue.
    pub fn new() -> (receiver: LinkReceiver)
        ensures
            receiver@ == Seq::<Seq<u8>>::empty(),
    {
        let receiver = LinkReceiver { queue: VecDeque::new() };
        assert(receiver@ =~= Seq::<Seq<u8>>::empty());
        receiver
    }

    /// Number of datagrams that wait in the queue.
    pub fn len(&self) -> (len: usize)
        ensures
            len == self@.len(),
    {
        self.queue.len()
    }

    /// Takes the datagram at the front, if there is one.
    pub fn pop(&mut self) -> (front: Option<Vec<u8>>)
        ensures
            match front {
                Some(datagram) => old(self)@.len() > 0 && datagram@ == old(self)@[0]
                    && final(self)@ == old(self)@.skip(1),
                None => old(self)@.len() == 0 && final(self)@ == old(self)@,
            },
    {
        let front = self.queue.pop_front();
        proof {
            if front is Some {
                assert(self@ =~= old(self)@.skip(1));
            } else {
                assert(self@ =~= old(self)@);
            }
        }
        front
    }

    /// Appends a datagram at the back.
    pub fn push_raw(&mut self, datagram: Vec<u8>)
        ensures
            final(self)@ == old(self)@.push(datagram@),
    {
        self.queue.push_back(datagram);
        assert(self@ =~= old(self)@.push(datagram@));
    }
}

/// Largest datagram, in bytes, that the transport carries.
pub const MTU: usize = 1472;

/// What a transport reports when it is asked for the next message.
#[derive(Debug, Clone, PartialEq, Eq)]
pub enum Arrival {
    /// A binary message: one whole datagram.
    Binary(Vec<u8>),
    /// The peer is closing the connection.
    Close,
    /// A message of a kind that carries no datagram.
    Other,
    /// Nothing has arrived.
    Empty,
    /// The transport is gone.
    Disconnected,
}

/// Why nothing more can be received.
#[derive(Debug, Clone, Copy, PartialEq, Eq, Structural)]
pub enum LinkError {
    /// The transport is gone.
    Disconnected,
}

impl LinkReceiver {
    /// Takes in what the transport reported. A binary message, which must
    /// fit the transport's largest datagram, is appended to the queue and
    /// reported as delivered. A close, any other message and an empty
    /// transport deliver nothing and are no error. Only a transport that is
    /// gone is an error.
    pub fn deliver(&mut self, arrival: Arrival) -> (delivered: Result<bool, LinkError>)
        requires
            arrival matches Arrival::Binary(datagram) ==> datagram@.len() <= MTU,
        ensures
            match arrival {
                Arrival::Binary(datagram) => delivered == Ok::<bool, LinkError>(true) && final(self)@ == old(self)@.push(datagram@),
                Arrival::Disconnected => delivered == Err::<bool, LinkError>(
                    LinkError::Disconnected,
                ) && final(self)@ == old(self)@,
                _ => delivered == Ok::<bool, LinkError>(false) && final(self)@ == old(self)@,
            },
    {
        match arrival {
            Arrival::Binary(datagram) => {
                self.push_raw(datagram);
                Ok(true)
            },
            Arrival::Disconnected => Err(LinkError::Disconnected),
            _ => Ok(false),
        }
    }
}

/// Outbound queue: datagrams that are ready to be transmitted, oldest first.
pub struct LinkSender {
    queue: Vec<Vec<u8>>,
}

impl View for LinkSender {
    type V = Seq<Seq<u8>>;

    closed spec fn view(&self) -> Seq<Seq<u8>> {
        datagrams(self.queue@)
    }
}

impl LinkSender {
    /// An empty queue.
    pub fn new() -> (sender: LinkSender)
        ensures
            sender@ == Seq::<Seq<u8>>::empty(),
    {
        let sender = LinkSender { queue: Vec::new() };
        assert(sender@ =~= Seq::<Seq<u8>>::empty());
        sender
    }

    /// Number of datagrams that wait in the queue.
    pub fn len(&self) -> (len: usize)
        ensures
            len == self@.len(),
    {
        self.queue.len()
    }

    /// Appends a datagram at the back.
    pub fn push(&mut self, datagram: Vec<u8>)
        ensures
            final(self)@ == old(self)@.push(datagram@),
    {
        self.queue.push(datagram);
        assert(self@ =~= old(self)@.push(datagram@));
    }

    /// Moves every datagram of `datagrams_out` to the back of the queue, in
    /// order.
    pub fn append(&mut self, datagrams_out: &mut Vec<Vec<u8>>)
        ensures
            final(self)@ == old(self)@ + datagrams(old(datagrams_out)@),
            final(datagrams_out)@.len() == 0,
    {
        self.queue.append(datagrams_out);
        assert(self@ =~= old(self)@ + datagrams(old(datagrams_out)@));
    }

    /// Takes every datagram out of the queue, oldest first.
    pub fn drain(&mut self) -> (taken: Vec<Vec<u8>>)
        ensures
            datagrams(taken@) == old(self)@,
            final(self)@ == Seq::<Seq<u8>>::empty(),
    {
        let mut taken: Vec<Vec<u8>> = Vec::new();
        std::mem::swap(&mut taken, &mut self.queue);
        assert(self@ =~= Seq::<Seq<u8>>::empty());
        taken
    }
}

} // verus!

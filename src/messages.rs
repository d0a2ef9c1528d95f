use crate::bignum::BigNat;
use vstd::prelude::*;

verus! {

/// Sent by the mediator to party 0 to start a run; `sid` is always 0 then.
#[derive(Clone, Copy, Debug, PartialEq, Eq)]
pub struct InitializeProtocol {
    pub bits_security: usize,
    pub num_parties: usize,
    pub sid: usize,
}

/// The running ciphertext of the forward leg, addressed to party `sid`.
#[derive(Debug)]
pub struct FirstRoundResponse {
    pub computed_value: BigNat,
    pub num_parties: usize,
    pub sid: usize,
    pub n_squared: BigNat,
    pub n: BigNat,
}

/// The running ciphertext of the unwind leg, addressed to party `sid`.
#[derive(Debug)]
pub struct SecondRoundResponse {
    pub computed_value: BigNat,
    pub n_squared: BigNat,
    pub num_parties: usize,
    pub sid: usize,
    pub n: BigNat,
}

/// A round payload.
#[derive(Debug)]
pub enum ClientMessage {
    InitializeProtocol(InitializeProtocol),
    FirstRoundResponse(FirstRoundResponse),
    SecondRoundResponse(SecondRoundResponse),
}

/// Messages that name the party they come from.
pub trait OriginMessage {
    spec fn origin(&self) -> usize;

    /// The party the message comes from.
    fn get_from(&self) -> (r: usize)
        ensures
            r == self.origin(),
    ;
}

/// A payload from one party to one other.
#[derive(Debug)]
pub struct UnicastMessage<T> {
    pub from: usize,
    pub to: usize,
    pub data: T,
}

impl<T> UnicastMessage<T> {
    pub fn new(from: usize, to: usize, data: T) -> (r: Self)
        ensures
            r.from == from,
            r.to == to,
            r.data == data,
    {
        UnicastMessage { from, to, data }
    }

    pub fn into_inner(self) -> (r: T)
        ensures
            r == self.data,
    {
        self.data
    }

    pub fn get_value(&self) -> (r: &T)
        ensures
            *r == self.data,
    {
        &self.data
    }
}

impl<T> OriginMessage for UnicastMessage<T> {
    open spec fn origin(&self) -> usize {
        self.from
    }

    fn get_from(&self) -> (r: usize) {
        self.from
    }
}

/// A payload for the mediator itself.
#[derive(Debug)]
pub struct RelayerMessage<T> {
    pub from: usize,
    pub to: (),
    pub data: T,
}

impl<T> RelayerMessage<T> {
    pub fn new(from: usize, data: T) -> (r: Self)
        ensures
            r.from == from,
            r.data == data,
    {
        RelayerMessage { from, to: (), data }
    }

    pub fn into_inner(self) -> (r: T)
        ensures
            r == self.data,
    {
        self.data
    }
}

impl<T> OriginMessage for RelayerMessage<T> {
    open spec fn origin(&self) -> usize {
        self.from
    }

    fn get_from(&self) -> (r: usize) {
        self.from
    }
}

/// A payload for every party but the sender.
#[derive(Debug)]
pub struct BroadcastMessage<T> {
    pub from: usize,
    pub data: T,
}

impl<T> BroadcastMessage<T> {
    pub fn new(from: usize, data: T) -> (r: Self)
        ensures
            r.from == from,
            r.data == data,
    {
        BroadcastMessage { from, data }
    }

    pub fn into_inner(self) -> (r: T)
        ensures
            r == self.data,
    {
        self.data
    }
}

impl<T> OriginMessage for BroadcastMessage<T> {
    open spec fn origin(&self) -> usize {
        self.from
    }

    fn get_from(&self) -> (r: usize) {
        self.from
    }
}

/// The envelope of every frame between a party and the mediator.
#[derive(Debug)]
pub enum WebsocketMessage {
    Unicast(UnicastMessage<ClientMessage>),
    Broadcast(BroadcastMessage<ClientMessage>),
    Relayer(RelayerMessage<ClientMessage>),
}

} // verus!

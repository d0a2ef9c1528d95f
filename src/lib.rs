//! Secure multiparty product over the Paillier cryptosystem: big-number
//! algebra, the wire messages of the ring protocol, the per-party round state
//! machine and the mediator's registry, fan-out and routing decisions.

pub mod bignum;
pub mod algebra;
pub mod paillier;
pub mod messages;
pub mod party;
pub mod mediator;
pub mod protocol;

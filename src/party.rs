use crate::algebra::{gcd, is_inverse, mod_inverse, mod_mul, mod_pow};
use crate::bignum::BigNat;
use crate::messages::{
    ClientMessage, FirstRoundResponse, InitializeProtocol, SecondRoundResponse, UnicastMessage,
    WebsocketMessage,
};
use crate::paillier::{
    decrypt, decryption_key_usable, encrypt, encrypts, formed_by_encryption,
    keypair_with_modulus_size, paillier_decryption, DecryptionKey, EncryptionKey, KeyPair,
};
use vstd::arithmetic::power::pow;
use vstd::prelude::*;

verus! {

/// The smallest modulus size, in bits, that a party generates a key for.
pub const MIN_SECURITY_BITS: usize = 64;

/// What a party process is started with.
#[derive(Clone, Copy, Debug, PartialEq, Eq)]
pub struct Setup {
    pub port: u16,
    pub private_input: u64,
    pub random_value: u64,
}

/// Why a party could not act on a round message.
#[derive(Clone, Copy, Debug, PartialEq, Eq)]
pub enum PartyError {
    /// `sid` and `num_parties` leave no party to pass the message to.
    MalformedRound,
    /// The moduli carried by the message are too small to compute with.
    InvalidModulus,
    /// The requested modulus size is below `MIN_SECURITY_BITS`.
    SecurityTooLow,
    /// This party holds no decryption key.
    MissingDecryptionKey,
    /// The factors of the held key are not coprime numbers above one.
    UnusableDecryptionKey,
    /// The encrypted mask has no inverse modulo `n²`.
    NoInverse,
}

/// What a party does in answer to a round message.
#[derive(Debug)]
pub enum PartyAction {
    /// Send this frame to the mediator.
    Send(WebsocketMessage),
    /// The run is over: this is the decrypted result.
    Output(BigNat),
    /// The message could not be acted on; nothing is sent.
    Fail(PartyError),
}

/// A message addressed to party `sid` of `num_parties` can be passed on to
/// party `sid + 1`.
pub open spec fn can_forward(sid: usize, num_parties: usize) -> bool {
    num_parties >= 2 && sid + 1 < num_parties
}

/// `w` is the unicast from party `from` to `from + 1` that carries `value`
/// and the moduli: a `SecondRoundResponse` when `from` is the second-to-last
/// party, a `FirstRoundResponse` otherwise, addressed by `sid` to the
/// receiver.
pub open spec fn is_forward_hop(
    w: WebsocketMessage,
    from: usize,
    num_parties: usize,
    value: nat,
    n: nat,
    nn: nat,
) -> bool {
    match w {
        WebsocketMessage::Unicast(u) => u.from == from && u.to == from + 1 && if from + 2
            == num_parties {
            match u.data {
                ClientMessage::SecondRoundResponse(m) => m.computed_value@ == value && m.sid
                    == from + 1 && m.num_parties == num_parties && m.n@ == n && m.n_squared@
                    == nn,
                _ => false,
            }
        } else {
            match u.data {
                ClientMessage::FirstRoundResponse(m) => m.computed_value@ == value && m.sid
                    == from + 1 && m.num_parties == num_parties && m.n@ == n && m.n_squared@
                    == nn,
                _ => false,
            }
        },
        _ => false,
    }
}

/// `w` is the unicast from party `from` to `from - 1` that carries `value`
/// and the moduli in a `SecondRoundResponse` addressed to the receiver.
pub open spec fn is_unwind_hop(
    w: WebsocketMessage,
    from: usize,
    num_parties: usize,
    value: nat,
    n: nat,
    nn: nat,
) -> bool {
    match w {
        WebsocketMessage::Unicast(u) => u.from == from && u.to + 1 == from && match u.data {
            ClientMessage::SecondRoundResponse(m) => m.computed_value@ == value && m.sid + 1
                == from && m.num_parties == num_parties && m.n@ == n && m.n_squared@ == nn,
            _ => false,
        },
        _ => false,
    }
}

/// The round value carried by a unicast frame.
pub open spec fn hop_value(w: WebsocketMessage) -> nat {
    match w {
        WebsocketMessage::Unicast(u) => match u.data {
            ClientMessage::FirstRoundResponse(m) => m.computed_value@,
            ClientMessage::SecondRoundResponse(m) => m.computed_value@,
            _ => 0,
        },
        _ => 0,
    }
}

/// The outcome of unmasking `msg` with the encrypted mask `cm`: the running
/// ciphertext times an inverse of `cm` modulo `n²`, sent one party back, or
/// `NoInverse` when `cm` shares a factor with `n²`.
pub open spec fn unmask_outcome(msg: SecondRoundResponse, cm: nat, r: PartyAction) -> bool {
    if gcd(cm, msg.n_squared@) == 1 {
        exists|inv: int|
            #![trigger is_inverse(cm as int, inv, msg.n_squared@ as int)]
            is_inverse(cm as int, inv, msg.n_squared@ as int) && match r {
                PartyAction::Send(w) => is_unwind_hop(
                    w,
                    msg.sid,
                    msg.num_parties,
                    ((msg.computed_value@ * inv) % (msg.n_squared@ as int)) as nat,
                    msg.n@,
                    msg.n_squared@,
                ),
                _ => false,
            }
    } else {
        r == PartyAction::Fail(PartyError::NoInverse)
    }
}

/// `new` and `r` are a successful start of a run from `old`: the setup is
/// kept, a key `(p, q)` with `n = p·q` is retained, and the frame passes an
/// encryption of the private input under `n` to the next party.
pub open spec fn started(old: ClientActor, new: ClientActor, init: InitializeProtocol, r: PartyAction) -> bool {
    &&& new.spec_setup() == old.spec_setup()
    &&& r matches PartyAction::Send(w)
    &&& new.spec_decryption_key() matches Some(dk)
    &&& dk.p@ > 1 && dk.q@ > 1
    &&& is_forward_hop(
        w,
        init.sid,
        init.num_parties,
        hop_value(w),
        dk.p@ * dk.q@,
        (dk.p@ * dk.q@) * (dk.p@ * dk.q@),
    )
    &&& encrypts((dk.p@ * dk.q@) as int, hop_value(w) as int, old.spec_setup().private_input as int)
}

/// The outcome of `FirstRoundResponse` at party `p`: the running ciphertext
/// raised to the party's input modulo `n²`, passed on.
pub open spec fn first_round_outcome(p: ClientActor, msg: FirstRoundResponse, r: PartyAction) -> bool {
    if !can_forward(msg.sid, msg.num_parties) {
        r == PartyAction::Fail(PartyError::MalformedRound)
    } else if msg.n_squared@ == 0 {
        r == PartyAction::Fail(PartyError::InvalidModulus)
    } else {
        r matches PartyAction::Send(w) && is_forward_hop(
            w,
            msg.sid,
            msg.num_parties,
            (pow(msg.computed_value@ as int, p.spec_setup().private_input as nat) % (
            msg.n_squared@ as int)) as nat,
            msg.n@,
            msg.n_squared@,
        )
    }
}

/// The outcome of `SecondRoundResponse` at the initiator: the decryption of
/// the running ciphertext with the retained key.
pub open spec fn finish_outcome(p: ClientActor, msg: SecondRoundResponse, r: PartyAction) -> bool {
    match p.spec_decryption_key() {
        None => r == PartyAction::Fail(PartyError::MissingDecryptionKey),
        Some(dk) => if dk.p@ > 1 && dk.q@ > 1 && gcd(dk.p@, dk.q@) == 1 {
            r matches PartyAction::Output(m) && m@ == paillier_decryption(
                dk.p@,
                dk.q@,
                msg.computed_value@,
            )
        } else {
            r == PartyAction::Fail(PartyError::UnusableDecryptionKey)
        },
    }
}

/// The outcome of `SecondRoundResponse` at party `p`: at party 0 the run
/// ends; elsewhere the running ciphertext is unmasked by some encryption of
/// the party's mask under the modulus the message carries.
pub open spec fn second_round_outcome(p: ClientActor, msg: SecondRoundResponse, r: PartyAction) -> bool {
    if msg.sid == 0 {
        finish_outcome(p, msg, r)
    } else if msg.sid >= msg.num_parties {
        r == PartyAction::Fail(PartyError::MalformedRound)
    } else if msg.n@ == 0 || msg.n_squared@ <= 1 {
        r == PartyAction::Fail(PartyError::InvalidModulus)
    } else {
        exists|cm: nat|
            #![trigger formed_by_encryption(msg.n@, msg.n_squared@, p.spec_setup().random_value as nat, cm)]
            formed_by_encryption(msg.n@, msg.n_squared@, p.spec_setup().random_value as nat, cm)
                && unmask_outcome(msg, cm, r)
    }
}

/// One party of the ring: its setup and, once it has started a run, the
/// private half of the key it generated.
pub struct ClientActor {
    setup: Setup,
    decryption_key: Option<DecryptionKey>,
}

impl ClientActor {
    pub closed spec fn spec_setup(&self) -> Setup {
        self.setup
    }

    pub closed spec fn spec_decryption_key(&self) -> Option<DecryptionKey> {
        self.decryption_key
    }

    /// A party with the given setup that holds no key yet.
    pub fn new(setup: Setup) -> (r: Self)
        ensures
            r.spec_setup() == setup,
            r.spec_decryption_key() is None,
    {
        ClientActor { setup, decryption_key: None }
    }

    /// The setup this party was started with.
    pub fn setup(&self) -> (r: Setup)
        ensures
            r == self.spec_setup(),
    {
        self.setup
    }

    /// Whether this party holds a decryption key.
    pub fn holds_decryption_key(&self) -> (r: bool)
        ensures
            r == self.spec_decryption_key() is Some,
    {
        self.decryption_key.is_some()
    }

    /// The frame that carries `data` from party `from` to party `to`.
    pub fn send_unicast(&self, from: usize, to: usize, data: ClientMessage) -> (r:
        WebsocketMessage)
        ensures
            r == WebsocketMessage::Unicast(UnicastMessage { from, to, data }),
    {
        WebsocketMessage::Unicast(UnicastMessage::new(from, to, data))
    }

    /// Starts a run with a generated key and the encryption `c0` of this
    /// party's input under it: keeps the private half and passes `c0` on.
    pub fn start_protocol_with(&mut self, init: &InitializeProtocol, keys: KeyPair, c0: BigNat) -> (r: PartyAction)
        ensures
            can_forward(init.sid, init.num_parties) ==> {
                &&& final(self).spec_setup() == old(self).spec_setup()
                &&& final(self).spec_decryption_key() == Some(keys.private)
                &&& r matches PartyAction::Send(w) && is_forward_hop(
                    w,
                    init.sid,
                    init.num_parties,
                    c0@,
                    keys.public.n@,
                    keys.public.nn@,
                )
            },
            !can_forward(init.sid, init.num_parties) ==> *final(self) == *old(self) && r
                == PartyAction::Fail(PartyError::MalformedRound),
    {
        if init.num_parties < 2 || init.sid >= init.num_parties - 1 {
            return PartyAction::Fail(PartyError::MalformedRound);
        }
        let KeyPair { public, private } = keys;
        self.decryption_key = Some(private);
        PartyAction::Send(self.forward(init.sid, init.num_parties, c0, public.n, public.nn))
    }

    /// Answers `InitializeProtocol`: generates a key of the requested size,
    /// keeps its private half, encrypts this party's input under it and passes
    /// the ciphertext to the next party.
    pub fn start_protocol(&mut self, init: &InitializeProtocol) -> (r: PartyAction)
        ensures
            !can_forward(init.sid, init.num_parties) ==> *final(self) == *old(self) && r
                == PartyAction::Fail(PartyError::MalformedRound),
            can_forward(init.sid, init.num_parties) && init.bits_security < MIN_SECURITY_BITS
                ==> *final(self) == *old(self) && r == PartyAction::Fail(
                PartyError::SecurityTooLow,
            ),
            can_forward(init.sid, init.num_parties) && init.bits_security >= MIN_SECURITY_BITS
                ==> started(*old(self), *final(self), *init, r),
    {
        if init.num_parties < 2 || init.sid >= init.num_parties - 1 {
            return PartyAction::Fail(PartyError::MalformedRound);
        }
        if init.bits_security < MIN_SECURITY_BITS {
            return PartyAction::Fail(PartyError::SecurityTooLow);
        }
        let keys = keypair_with_modulus_size(init.bits_security);
        proof {
            let n = keys.public.n@;
            assert(n > 0) by (nonlinear_arith)
                requires
                    n == keys.private.p@ * keys.private.q@,
                    keys.private.p@ > 1,
                    keys.private.q@ > 1,
            ;
            assert(n * n > 0) by (nonlinear_arith)
                requires
                    n > 0,
            ;
        }
        let input = BigNat::from_u64(self.setup.private_input);
        let c0 = encrypt(&keys.public, &input);
        self.start_protocol_with(init, keys, c0)
    }

    /// Answers `FirstRoundResponse`: folds this party's input into the
    /// running ciphertext, `c' = c^x mod n²`, and passes it on.
    pub fn first_round_response(&self, msg: &FirstRoundResponse) -> (r: PartyAction)
        ensures
            first_round_outcome(*self, *msg, r),
    {
        if msg.num_parties < 2 || msg.sid >= msg.num_parties - 1 {
            return PartyAction::Fail(PartyError::MalformedRound);
        }
        if msg.n_squared.is_zero() {
            return PartyAction::Fail(PartyError::InvalidModulus);
        }
        let x = BigNat::from_u64(self.setup.private_input);
        let value = mod_pow(&msg.computed_value, &x, &msg.n_squared);
        PartyAction::Send(
            self.forward(msg.sid, msg.num_parties, value, msg.n.copy(), msg.n_squared.copy()),
        )
    }

    /// Removes the mask whose encryption is `mask_ciphertext` from the
    /// running ciphertext: multiplies it by the mask's inverse modulo `n²` and
    /// sends the result one party back. The inverse is taken modulo `n²`, the
    /// ring the ciphertexts live in, as is the product, so that the result
    /// encrypts the difference (`lemma_encrypts_unmask`).
    pub fn unmask(&self, msg: &SecondRoundResponse, mask_ciphertext: &BigNat) -> (r: PartyAction)
        requires
            msg.sid > 0,
            msg.n_squared@ > 1,
        ensures
            unmask_outcome(*msg, mask_ciphertext@, r),
    {
        match mod_inverse(mask_ciphertext, &msg.n_squared) {
            Ok(inv) => {
                let value = mod_mul(&msg.computed_value, &inv, &msg.n_squared);
                let m = SecondRoundResponse {
                    computed_value: value,
                    n_squared: msg.n_squared.copy(),
                    num_parties: msg.num_parties,
                    sid: msg.sid - 1,
                    n: msg.n.copy(),
                };
                let r = PartyAction::Send(
                    self.send_unicast(msg.sid, msg.sid - 1, ClientMessage::SecondRoundResponse(m)),
                );
                assert(is_inverse(mask_ciphertext@ as int, inv@ as int, msg.n_squared@ as int));
                r
            },
            Err(_) => PartyAction::Fail(PartyError::NoInverse),
        }
    }

    /// Ends the run at the initiator: decrypts the running ciphertext with
    /// the retained key.
    pub fn finish(&self, msg: &SecondRoundResponse) -> (r: PartyAction)
        ensures
            finish_outcome(*self, *msg, r),
    {
        match &self.decryption_key {
            None => PartyAction::Fail(PartyError::MissingDecryptionKey),
            Some(key) => {
                if decryption_key_usable(key) {
                    PartyAction::Output(decrypt(key, &msg.computed_value))
                } else {
                    PartyAction::Fail(PartyError::UnusableDecryptionKey)
                }
            },
        }
    }

    /// Answers `SecondRoundResponse`: at party 0 the run ends with the
    /// decrypted result; anywhere else a fresh encryption of this party's mask
    /// is removed from the running ciphertext and the result goes one party
    /// back.
    pub fn second_round_response(&self, msg: &SecondRoundResponse) -> (r: PartyAction)
        ensures
            second_round_outcome(*self, *msg, r),
    {
        if msg.sid == 0 {
            return self.finish(msg);
        }
        if msg.sid >= msg.num_parties {
            return PartyAction::Fail(PartyError::MalformedRound);
        }
        if msg.n.is_zero() || !msg.n_squared.exceeds_one() {
            return PartyAction::Fail(PartyError::InvalidModulus);
        }
        let key = EncryptionKey { n: msg.n.copy(), nn: msg.n_squared.copy() };
        let mask = BigNat::from_u64(self.setup.random_value);
        let cm = encrypt(&key, &mask);
        assert(formed_by_encryption(
            msg.n@,
            msg.n_squared@,
            self.spec_setup().random_value as nat,
            cm@,
        ));
        self.unmask(msg, &cm)
    }

    /// Acts on one round message.
    pub fn handle(&mut self, msg: &ClientMessage) -> (r: PartyAction)
        ensures
            match *msg {
                ClientMessage::InitializeProtocol(init) => {
                    &&& !can_forward(init.sid, init.num_parties) ==> *final(self) == *old(self)
                        && r == PartyAction::Fail(PartyError::MalformedRound)
                    &&& can_forward(init.sid, init.num_parties) && init.bits_security
                        < MIN_SECURITY_BITS ==> *final(self) == *old(self) && r
                        == PartyAction::Fail(PartyError::SecurityTooLow)
                    &&& can_forward(init.sid, init.num_parties) && init.bits_security
                        >= MIN_SECURITY_BITS ==> started(*old(self), *final(self), init, r)
                },
                ClientMessage::FirstRoundResponse(m) => *final(self) == *old(self)
                    && first_round_outcome(*old(self), m, r),
                ClientMessage::SecondRoundResponse(m) => *final(self) == *old(self)
                    && second_round_outcome(*old(self), m, r),
            },
    {
        match msg {
            ClientMessage::InitializeProtocol(init) => self.start_protocol(init),
            ClientMessage::FirstRoundResponse(m) => self.first_round_response(m),
            ClientMessage::SecondRoundResponse(m) => self.second_round_response(m),
        }
    }

    /// The forward-leg frame from party `from` carrying `value`.
    fn forward(&self, from: usize, num_parties: usize, value: BigNat, n: BigNat, n_squared: BigNat) -> (r: WebsocketMessage)
        requires
            can_forward(from, num_parties),
        ensures
            is_forward_hop(r, from, num_parties, value@, n@, n_squared@),
            hop_value(r) == value@,
    {
        if from + 2 == num_parties {
            let m = SecondRoundResponse {
                computed_value: value,
                n_squared,
                num_parties,
                sid: from + 1,
                n,
            };
            self.send_unicast(from, from + 1, ClientMessage::SecondRoundResponse(m))
        } else {
            let m = FirstRoundResponse {
                computed_value: value,
                num_parties,
                sid: from + 1,
                n_squared,
                n,
            };
            self.send_unicast(from, from + 1, ClientMessage::FirstRoundResponse(m))
        }
    }
}

} // verus!

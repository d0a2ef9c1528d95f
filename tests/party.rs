use smpc::bignum::BigNat;
use smpc::mediator::{FanOutOutcome, RouteAction, ServerActor};
use smpc::messages::{
    ClientMessage, FirstRoundResponse, InitializeProtocol, SecondRoundResponse, WebsocketMessage,
};
use smpc::paillier::{
    decrypt, encrypt, key_setup, keypair_with_modulus_size, DecryptionKey, EncryptionKey, KeyPair,
};
use smpc::party::{ClientActor, PartyAction, PartyError, Setup};
use smpc::protocol::sum_shares;

fn big(v: u64) -> BigNat {
    BigNat::from_u64(v)
}

fn party(input: u64, mask: u64) -> ClientActor {
    ClientActor::new(Setup { port: 8081, private_input: input, random_value: mask })
}

fn round_modulus(msg: &ClientMessage) -> Option<BigNat> {
    match msg {
        ClientMessage::FirstRoundResponse(m) => Some(m.n.copy()),
        ClientMessage::SecondRoundResponse(m) => Some(m.n.copy()),
        ClientMessage::InitializeProtocol(_) => None,
    }
}

/// Runs the ring in one process, every frame routed by the mediator, from the
/// given first message to party 0. Returns party 0's output and the modulus.
fn run_ring(parties: &mut Vec<ClientActor>, mediator: &ServerActor, first: ClientMessage) -> (BigNat, BigNat) {
    let mut to = 0usize;
    let mut msg = first;
    let mut modulus: Option<BigNat> = None;
    loop {
        match parties[to].handle(&msg) {
            PartyAction::Send(frame) => match mediator.handle_websocket_message(frame) {
                RouteAction::Deliver { to: next, data } => {
                    if modulus.is_none() {
                        modulus = round_modulus(&data);
                    }
                    to = next;
                    msg = data;
                }
                other => panic!("unexpected route {:?}", other),
            },
            PartyAction::Output(v) => return (v, modulus.unwrap()),
            PartyAction::Fail(e) => panic!("party {} failed: {:?}", to, e),
        }
    }
}

fn connected_mediator(k: usize) -> (ServerActor, FanOutOutcome) {
    let mut mediator = ServerActor::new();
    for i in 0..k {
        mediator.register_client(format!("ws://localhost:{}/connect", 8081 + i));
    }
    let outcome = mediator.complete_fan_out(&vec![true; k]);
    (mediator, outcome)
}

#[test]
fn four_party_run_recovers_product_from_shares() {
    let inputs = [2u64, 3, 5, 1];
    let masks = [0u64, 7, 11, 13];
    let mut parties: Vec<ClientActor> =
        inputs.iter().zip(masks.iter()).map(|(x, r)| party(*x, *r)).collect();
    let (mediator, outcome) = connected_mediator(4);
    let first = match outcome {
        FanOutOutcome::Started { to, message } => {
            assert_eq!(to, 0);
            message
        }
        other => panic!("fan-out failed: {:?}", other),
    };
    let (decrypted, n) = run_ring(&mut parties, &mediator, first);
    let mut shares = vec![decrypted.copy()];
    for r in masks.iter().skip(1) {
        shares.push(big(*r));
    }
    assert_eq!(sum_shares(&shares, &n).to_u64(), Some(30));
    assert!(decrypted.to_u64().is_none());
}

#[test]
fn three_party_run_folds_all_but_the_last_input() {
    let inputs = [2u64, 3, 5];
    let masks = [0u64, 4, 1];
    let mut parties: Vec<ClientActor> =
        inputs.iter().zip(masks.iter()).map(|(x, r)| party(*x, *r)).collect();
    let (mediator, _) = connected_mediator(3);
    let init = ClientMessage::InitializeProtocol(InitializeProtocol {
        bits_security: 256,
        num_parties: 3,
        sid: 0,
    });
    let (decrypted, _) = run_ring(&mut parties, &mediator, init);
    assert_eq!(decrypted.to_u64(), Some(1));
}

#[test]
fn two_party_run_with_zero_mask_decrypts_first_input() {
    let mut parties = vec![party(9, 0), party(4, 0)];
    let (mediator, _) = connected_mediator(2);
    let init = ClientMessage::InitializeProtocol(InitializeProtocol {
        bits_security: 128,
        num_parties: 2,
        sid: 0,
    });
    let (decrypted, _) = run_ring(&mut parties, &mediator, init);
    assert_eq!(decrypted.to_u64(), Some(9));
}

#[test]
fn encrypt_then_decrypt_gives_plaintext() {
    let keys = keypair_with_modulus_size(256);
    let c = encrypt(&keys.public, &big(42));
    assert!(c.to_u64().is_none());
    assert_eq!(decrypt(&keys.private, &c).to_u64(), Some(42));
}

#[test]
fn unmask_uses_inverse_modulo_n_squared() {
    let keys = keypair_with_modulus_size(256);
    let c = encrypt(&keys.public, &big(50));
    let cm = encrypt(&keys.public, &big(7));
    let p = party(1, 7);
    let msg = SecondRoundResponse {
        computed_value: c,
        n_squared: keys.public.nn.copy(),
        num_parties: 3,
        sid: 2,
        n: keys.public.n.copy(),
    };
    let value = match p.unmask(&msg, &cm) {
        PartyAction::Send(WebsocketMessage::Unicast(u)) => {
            assert_eq!((u.from, u.to), (2, 1));
            match u.data {
                ClientMessage::SecondRoundResponse(m) => {
                    assert_eq!(m.sid, 1);
                    m.computed_value
                }
                other => panic!("unexpected payload {:?}", other),
            }
        }
        other => panic!("unexpected action {:?}", other),
    };
    assert_eq!(decrypt(&keys.private, &value).to_u64(), Some(43));
}

#[test]
fn first_round_raises_to_private_input() {
    let p = party(10, 0);
    let msg = FirstRoundResponse {
        computed_value: big(2),
        num_parties: 3,
        sid: 1,
        n_squared: big(1000),
        n: big(31),
    };
    match p.first_round_response(&msg) {
        PartyAction::Send(WebsocketMessage::Unicast(u)) => {
            assert_eq!((u.from, u.to), (1, 2));
            match u.data {
                ClientMessage::SecondRoundResponse(m) => {
                    assert_eq!(m.computed_value.to_u64(), Some(24));
                    assert_eq!(m.sid, 2);
                    assert_eq!(m.num_parties, 3);
                    assert_eq!(m.n.to_u64(), Some(31));
                    assert_eq!(m.n_squared.to_u64(), Some(1000));
                }
                other => panic!("unexpected payload {:?}", other),
            }
        }
        other => panic!("unexpected action {:?}", other),
    }
    let early = FirstRoundResponse {
        computed_value: big(3),
        num_parties: 4,
        sid: 0,
        n_squared: big(1000),
        n: big(31),
    };
    match p.first_round_response(&early) {
        PartyAction::Send(WebsocketMessage::Unicast(u)) => match u.data {
            ClientMessage::FirstRoundResponse(m) => {
                assert_eq!(m.computed_value.to_u64(), Some(49));
                assert_eq!(m.sid, 1);
            }
            other => panic!("unexpected payload {:?}", other),
        },
        other => panic!("unexpected action {:?}", other),
    }
}

fn failure(a: PartyAction) -> PartyError {
    match a {
        PartyAction::Fail(e) => e,
        other => panic!("expected a failure, got {:?}", other),
    }
}

#[test]
fn malformed_rounds_are_rejected() {
    let mut p = party(2, 0);
    let init = InitializeProtocol { bits_security: 256, num_parties: 1, sid: 0 };
    assert_eq!(failure(p.start_protocol(&init)), PartyError::MalformedRound);
    assert!(!p.holds_decryption_key());
    let last = FirstRoundResponse {
        computed_value: big(2),
        num_parties: 3,
        sid: 2,
        n_squared: big(100),
        n: big(10),
    };
    assert_eq!(failure(p.first_round_response(&last)), PartyError::MalformedRound);
    let beyond = SecondRoundResponse {
        computed_value: big(2),
        n_squared: big(100),
        num_parties: 3,
        sid: 3,
        n: big(10),
    };
    assert_eq!(failure(p.second_round_response(&beyond)), PartyError::MalformedRound);
}

#[test]
fn weak_security_is_rejected() {
    let mut p = party(2, 0);
    let init = InitializeProtocol { bits_security: 32, num_parties: 3, sid: 0 };
    assert_eq!(failure(p.start_protocol(&init)), PartyError::SecurityTooLow);
    assert!(!p.holds_decryption_key());
}

#[test]
fn unusable_moduli_are_rejected() {
    let p = party(2, 3);
    let first = FirstRoundResponse {
        computed_value: big(2),
        num_parties: 3,
        sid: 0,
        n_squared: big(0),
        n: big(0),
    };
    assert_eq!(failure(p.first_round_response(&first)), PartyError::InvalidModulus);
    let second = SecondRoundResponse {
        computed_value: big(2),
        n_squared: big(100),
        num_parties: 3,
        sid: 1,
        n: big(0),
    };
    assert_eq!(failure(p.second_round_response(&second)), PartyError::InvalidModulus);
}

#[test]
fn decryption_needs_a_usable_key() {
    let p = party(2, 3);
    let msg = SecondRoundResponse {
        computed_value: big(5),
        n_squared: big(81),
        num_parties: 3,
        sid: 0,
        n: big(9),
    };
    assert_eq!(failure(p.second_round_response(&msg)), PartyError::MissingDecryptionKey);
    let mut q = party(2, 3);
    let keys = KeyPair {
        public: EncryptionKey { n: big(9), nn: big(81) },
        private: DecryptionKey { p: big(3), q: big(3) },
    };
    let init = InitializeProtocol { bits_security: 256, num_parties: 3, sid: 0 };
    match q.start_protocol_with(&init, keys, big(10)) {
        PartyAction::Send(_) => {}
        other => panic!("unexpected action {:?}", other),
    }
    assert!(q.holds_decryption_key());
    assert_eq!(failure(q.second_round_response(&msg)), PartyError::UnusableDecryptionKey);
}

#[test]
fn mask_sharing_a_factor_has_no_inverse() {
    let p = party(2, 3);
    let msg = SecondRoundResponse {
        computed_value: big(5),
        n_squared: big(9),
        num_parties: 3,
        sid: 1,
        n: big(3),
    };
    assert_eq!(failure(p.unmask(&msg, &big(3))), PartyError::NoInverse);
}

#[test]
fn test_gen_keypair() {
    let keys = key_setup(5);
    assert_eq!(keys.len(), 5);
    for key in keys {
        println!("Keypair: {:?} {:?}", key.public, key.private);
    }
}

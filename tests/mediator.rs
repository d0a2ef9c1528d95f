use smpc::mediator::{
    connect_endpoint, FanOutOutcome, MediatorState, RegisterOutcome, RetryAction, RouteAction,
    RouteError, ServerActor, StartDecision, StartRetry, MAX_START_ATTEMPTS, SECURITY_BITS,
};
use smpc::messages::{
    BroadcastMessage, ClientMessage, InitializeProtocol, OriginMessage, RelayerMessage,
    UnicastMessage, WebsocketMessage,
};

fn payload() -> ClientMessage {
    ClientMessage::InitializeProtocol(InitializeProtocol { bits_security: 0, num_parties: 0, sid: 0 })
}

fn registered(k: usize) -> ServerActor {
    let mut m = ServerActor::new();
    for i in 0..k {
        m.register_client(connect_endpoint(&format!("ws://localhost:{}", 8081 + i)));
    }
    m
}

#[test]
fn registration_assigns_contiguous_ids() {
    let mut m = ServerActor::new();
    let answers: Vec<RegisterOutcome> =
        (0..3).map(|i| m.register_client(format!("ws://party{}/connect", i))).collect();
    assert_eq!(
        answers,
        vec![
            RegisterOutcome::Registered { sequence_id: 0, arm_timer: true },
            RegisterOutcome::Registered { sequence_id: 1, arm_timer: false },
            RegisterOutcome::Registered { sequence_id: 2, arm_timer: false },
        ]
    );
    assert_eq!(m.total_clients(), 3);
    assert_eq!(m.state(), MediatorState::AwaitingParties);
}

#[test]
fn registration_after_start_is_rejected() {
    let mut m = registered(3);
    assert!(matches!(m.complete_fan_out(&vec![true, true, true]), FanOutOutcome::Started { .. }));
    assert_eq!(m.register_client("ws://late/connect".to_string()), RegisterOutcome::NotAccepting);
    assert_eq!(m.total_clients(), 3);
}

#[test]
fn endpoint_appends_connect_path() {
    assert_eq!(connect_endpoint("ws://localhost:8081"), "ws://localhost:8081/connect");
    assert_eq!(connect_endpoint(""), "/connect");
}

#[test]
fn start_needs_two_parties() {
    assert!(matches!(registered(0).try_start_protocol(), StartDecision::NotEnoughParties));
    assert!(matches!(registered(1).try_start_protocol(), StartDecision::NotEnoughParties));
    match registered(2).try_start_protocol() {
        StartDecision::Connect(addresses) => assert_eq!(
            addresses,
            vec!["ws://localhost:8081/connect".to_string(), "ws://localhost:8082/connect".to_string()]
        ),
        other => panic!("unexpected decision {:?}", other),
    }
}

#[test]
fn fan_out_is_all_or_nothing() {
    let mut m = registered(3);
    assert!(matches!(m.complete_fan_out(&vec![true, false, true]), FanOutOutcome::Aborted));
    assert_eq!(m.state(), MediatorState::AwaitingParties);
    assert!(matches!(
        m.handle_websocket_message(WebsocketMessage::Unicast(UnicastMessage::new(0, 1, payload()))),
        RouteAction::Drop(RouteError::NotConnected)
    ));
    assert!(matches!(m.complete_fan_out(&vec![true, true]), FanOutOutcome::Aborted));
    match m.complete_fan_out(&vec![true, true, true]) {
        FanOutOutcome::Started { to, message } => {
            assert_eq!(to, 0);
            match message {
                ClientMessage::InitializeProtocol(init) => assert_eq!(
                    init,
                    InitializeProtocol { bits_security: SECURITY_BITS, num_parties: 3, sid: 0 }
                ),
                other => panic!("unexpected message {:?}", other),
            }
        }
        other => panic!("unexpected outcome {:?}", other),
    }
    assert_eq!(m.state(), MediatorState::FirstRound);
    assert!(matches!(m.complete_fan_out(&vec![true, true, true]), FanOutOutcome::NotAccepting));
    assert!(matches!(m.try_start_protocol(), StartDecision::NotAccepting));
}

#[test]
fn fan_out_with_one_party_aborts() {
    let mut m = registered(1);
    assert!(matches!(m.complete_fan_out(&vec![true]), FanOutOutcome::Aborted));
    assert_eq!(m.state(), MediatorState::AwaitingParties);
}

#[test]
fn unicast_goes_to_its_recipient() {
    let mut m = registered(3);
    m.complete_fan_out(&vec![true, true, true]);
    match m.handle_websocket_message(WebsocketMessage::Unicast(UnicastMessage::new(0, 2, payload()))) {
        RouteAction::Deliver { to, .. } => assert_eq!(to, 2),
        other => panic!("unexpected route {:?}", other),
    }
    assert!(matches!(
        m.handle_websocket_message(WebsocketMessage::Unicast(UnicastMessage::new(0, 3, payload()))),
        RouteAction::Drop(RouteError::UnknownRecipient)
    ));
}

#[test]
fn broadcast_skips_the_sender() {
    let mut m = registered(4);
    m.complete_fan_out(&vec![true; 4]);
    match m.handle_websocket_message(WebsocketMessage::Broadcast(BroadcastMessage::new(2, payload()))) {
        RouteAction::DeliverAll { recipients, .. } => assert_eq!(recipients, vec![0, 1, 3]),
        other => panic!("unexpected route {:?}", other),
    }
    assert!(matches!(
        m.handle_websocket_message(WebsocketMessage::Relayer(RelayerMessage::new(1, payload()))),
        RouteAction::Drop(RouteError::NotRoutable)
    ));
}

#[test]
fn retry_gives_up_after_five_attempts() {
    let mut retry = StartRetry::new();
    let mut attempts = 1;
    loop {
        match retry.on_failure() {
            RetryAction::Retry => attempts += 1,
            RetryAction::GiveUp => break,
        }
    }
    assert_eq!(attempts, 5);
    assert_eq!(retry.failures(), MAX_START_ATTEMPTS);
    assert_eq!(retry.on_failure(), RetryAction::GiveUp);
    assert_eq!(retry.failures(), MAX_START_ATTEMPTS);
}

#[test]
fn envelopes_keep_their_fields() {
    let u = UnicastMessage::new(1, 2, 7u8);
    assert_eq!(u.get_from(), 1);
    assert_eq!(*u.get_value(), 7);
    assert_eq!(u.into_inner(), 7);
    let b = BroadcastMessage::new(3, 8u8);
    assert_eq!(b.get_from(), 3);
    assert_eq!(b.into_inner(), 8);
    let r = RelayerMessage::new(4, 9u8);
    assert_eq!(r.get_from(), 4);
    assert_eq!(r.into_inner(), 9);
}

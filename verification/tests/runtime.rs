use aes::cipher::{BlockEncrypt, KeyInit};
use aes::Aes256Enc;
use oro_link::channel::Side;
use oro_link::cipher::SessionKey;
use oro_link::packet::{LogEntry, LogSeverity, Packet, PowerState, Scene};
use oro_link::runtime::{
    greeting, heartbeat, monitor_refresh_millis, Handling, LinkRuntime, RigEvent, RigPhase,
    RigStep, GREETING_LINGER_MS, LINK_POLL_MS, PRESS_SETTLE_MS,
};

fn runtime_serving() -> LinkRuntime {
    let mut runtime = LinkRuntime::new([0xAA; 16], String::from("1.0.0")).unwrap();
    runtime.advance(RigEvent::LinkUp);
    runtime.advance(RigEvent::Negotiated);
    runtime.advance(RigEvent::Announced);
    runtime
}

#[test]
fn the_rig_waits_for_its_link_then_negotiates_announces_and_serves() {
    let mut runtime = LinkRuntime::new([0xAA; 16], String::from("1.0.0")).unwrap();
    assert_eq!(runtime.current_phase(), RigPhase::AwaitingLink);
    assert_eq!(runtime.pending(), RigStep::PollLink { retry_millis: 1000 });
    runtime.advance(RigEvent::LinkDown);
    assert_eq!(runtime.pending(), RigStep::PollLink { retry_millis: LINK_POLL_MS });
    runtime.advance(RigEvent::LinkUp);
    assert_eq!(runtime.pending(), RigStep::Negotiate(Side::Initiator));
    runtime.advance(RigEvent::Negotiated);
    assert_eq!(
        runtime.pending(),
        RigStep::Announce(Packet::LinkOnline { uid: [0xAA; 16], version: String::from("1.0.0") })
    );
    runtime.advance(RigEvent::Announced);
    assert_eq!(runtime.pending(), RigStep::Receive);
    assert_eq!(runtime.current_phase(), RigPhase::Serving);
}

#[test]
fn a_failed_negotiation_leads_back_to_waiting() {
    let mut runtime = LinkRuntime::new([1; 16], String::from("v")).unwrap();
    runtime.advance(RigEvent::LinkUp);
    runtime.advance(RigEvent::NegotiationFailed);
    assert_eq!(runtime.current_phase(), RigPhase::AwaitingLink);
}

#[test]
fn a_lost_link_or_connection_leads_back_to_waiting_from_anywhere() {
    for lost in [RigEvent::LinkDown, RigEvent::ConnectionLost] {
        for steps in 0..4 {
            let mut runtime = LinkRuntime::new([1; 16], String::from("v")).unwrap();
            for event in [RigEvent::LinkUp, RigEvent::Negotiated, RigEvent::Announced]
                .into_iter()
                .take(steps)
            {
                runtime.advance(event);
            }
            runtime.advance(lost);
            assert_eq!(runtime.current_phase(), RigPhase::AwaitingLink);
        }
    }
}

#[test]
fn an_event_out_of_turn_changes_nothing() {
    let mut runtime = LinkRuntime::new([1; 16], String::from("v")).unwrap();
    runtime.advance(RigEvent::Negotiated);
    runtime.advance(RigEvent::Announced);
    runtime.advance(RigEvent::NegotiationFailed);
    assert_eq!(runtime.current_phase(), RigPhase::AwaitingLink);
    runtime.advance(RigEvent::LinkUp);
    runtime.advance(RigEvent::LinkUp);
    runtime.advance(RigEvent::Announced);
    assert_eq!(runtime.current_phase(), RigPhase::Negotiating);
    let mut runtime = runtime_serving();
    runtime.advance(RigEvent::LinkUp);
    runtime.advance(RigEvent::Negotiated);
    runtime.advance(RigEvent::NegotiationFailed);
    runtime.advance(RigEvent::Announced);
    assert_eq!(runtime.current_phase(), RigPhase::Serving);
}

#[test]
fn too_long_a_version_cannot_be_announced() {
    assert!(LinkRuntime::new([0; 16], "v".repeat(0x1_0000)).is_none());
    assert!(LinkRuntime::new([0; 16], "v".repeat(0xFFFF)).is_some());
}

#[test]
fn presses_are_followed_by_a_settle_time() {
    let mut runtime = runtime_serving();
    assert_eq!(runtime.command(&Packet::PressPower), Handling::Apply { settle_millis: 3000 });
    assert_eq!(
        runtime.command(&Packet::PressReset),
        Handling::Apply { settle_millis: PRESS_SETTLE_MS }
    );
    assert_eq!(runtime.current_phase(), RigPhase::Serving);
}

#[test]
fn other_commands_are_applied_at_once() {
    let mut runtime = runtime_serving();
    let commands = vec![
        Packet::SetScene(Scene::Logo),
        Packet::SetPowerState(PowerState::On),
        Packet::Log(LogEntry { severity: LogSeverity::Info, message: String::from("m") }),
        Packet::StartTestSession {
            total_tests: 1,
            author: String::new(),
            title: String::new(),
            ref_id: String::new(),
        },
        Packet::StartTest { name: String::from("t") },
    ];
    for command in commands {
        assert_eq!(runtime.command(&command), Handling::Apply { settle_millis: 0 });
        assert_eq!(runtime.current_phase(), RigPhase::Serving);
    }
}

#[test]
fn a_reset_of_the_link_makes_the_rig_announce_itself_again() {
    let mut runtime = runtime_serving();
    assert_eq!(runtime.command(&Packet::ResetLink), Handling::Apply { settle_millis: 0 });
    assert_eq!(runtime.current_phase(), RigPhase::Announcing);
    assert!(matches!(runtime.pending(), RigStep::Announce(_)));
}

#[test]
fn what_is_no_command_is_ignored() {
    let mut runtime = runtime_serving();
    let unknown = Packet::Unknown { tag: 0x42, body: vec![0; 4] };
    assert_eq!(runtime.command(&unknown), Handling::Ignore);
    let announcement = Packet::LinkOnline { uid: [0; 16], version: String::new() };
    assert_eq!(runtime.command(&announcement), Handling::Ignore);
    assert_eq!(runtime.current_phase(), RigPhase::Serving);
}

#[test]
fn a_rig_that_does_not_serve_takes_no_commands() {
    let mut runtime = LinkRuntime::new([1; 16], String::from("v")).unwrap();
    let events = [RigEvent::LinkUp, RigEvent::Negotiated];
    let phases = [RigPhase::AwaitingLink, RigPhase::Negotiating, RigPhase::Announcing];
    for (i, phase) in phases.into_iter().enumerate() {
        assert_eq!(runtime.current_phase(), phase);
        assert_eq!(runtime.command(&Packet::PressPower), Handling::Ignore);
        assert_eq!(runtime.command(&Packet::ResetLink), Handling::Ignore);
        assert_eq!(runtime.command(&Packet::Unknown { tag: 0, body: vec![] }), Handling::Ignore);
        assert_eq!(runtime.current_phase(), phase);
        if i < events.len() {
            runtime.advance(events[i]);
        }
    }
}

#[test]
fn the_greeting_is_the_encrypted_words() {
    let mut secret = [0u8; 32];
    for (i, byte) in secret.iter_mut().enumerate() {
        *byte = i as u8;
    }
    let key = SessionKey::from_shared_secret(secret);
    let mut expected = *b"Hi, Oro!\0\0\0\0\0\0\0\0";
    Aes256Enc::new((&secret).into()).encrypt_block((&mut expected).into());
    assert_eq!(greeting(&key), expected);
    assert_ne!(greeting(&key), *b"Hi, Oro!\0\0\0\0\0\0\0\0");
    assert_ne!(greeting(&key), greeting(&SessionKey::from_shared_secret([0; 32])));
    assert_eq!(GREETING_LINGER_MS, 5000);
}

#[test]
fn the_heartbeat_is_short_on_and_long_off() {
    assert_eq!(heartbeat(false), (true, 100));
    assert_eq!(heartbeat(true), (false, 2000));
}

#[test]
fn the_display_is_refreshed_every_four_milliseconds() {
    assert_eq!(monitor_refresh_millis(), 4);
}

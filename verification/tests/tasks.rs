use mqtt_actor::engine::engine_step;
use mqtt_actor::engine::engine_step_at;
use mqtt_actor::engine::EngineAction;
use mqtt_actor::event::into_send_events;
use mqtt_actor::event::Delivery;
use mqtt_actor::event::Event;
use mqtt_actor::event::Polled;
use mqtt_actor::event::BUS_CAPACITY;
use mqtt_actor::instant::Instant;
use mqtt_actor::message::Message;
use mqtt_actor::orchestrator::should_shut_down;
use mqtt_actor::orchestrator::Wake;
use mqtt_actor::publisher::publisher_step;
use mqtt_actor::publisher::PublisherAction;
use mqtt_actor::publisher::PublisherConfig;
use mqtt_actor::publisher::PublisherInput;
use mqtt_actor::publisher::PublisherState;
use mqtt_actor::publisher::RECONNECT_ATTEMPTS;
use mqtt_actor::publisher::RECONNECT_DELAY_SECS;
use mqtt_actor::script::Scan;
use mqtt_actor::script::Script;
use mqtt_actor::tick::tick_round;
use mqtt_actor::tick::tick_step;
use mqtt_actor::tick::TickAction;
use mqtt_actor::tick::TICK_PERIOD_SECS;
use mqtt_actor::watch::calls_for_reload;
use mqtt_actor::watch::is_script_extension;
use mqtt_actor::watch::script_pattern;
use mqtt_actor::watch::Change;

fn second(secs: i64) -> Instant {
    Instant::from_parts(secs, 0).unwrap()
}

fn note(secs: i64, payload: &str) -> Message {
    Message {
        timestamp: second(secs),
        topic: "topic".to_string(),
        payload: payload.to_string(),
    }
}

fn script_of(data: &str) -> Script {
    Script::new_at(
        "dir",
        b'|',
        &Scan::Listed(vec![Some(data.as_bytes().to_vec())]),
        second(0),
    )
}

fn ext(name: &str) -> Option<String> {
    Some(name.to_string())
}

#[test]
fn message_clone_is_equal() {
    let m = note(3, "payload");
    assert_eq!(m.clone(), m);
    let e = Event::SendMessage(m);
    assert_eq!(e.clone(), e);
    assert_eq!(Event::Tick.clone(), Event::Tick);
    assert_eq!(Event::ReloadScript.clone(), Event::ReloadScript);
    assert_eq!(Event::Exit.clone(), Event::Exit);
}

#[test]
fn send_events_keep_the_order() {
    assert_eq!(
        into_send_events(vec![note(1, "a"), note(2, "b"), note(2, "c")]),
        vec![
            Event::SendMessage(note(1, "a")),
            Event::SendMessage(note(2, "b")),
            Event::SendMessage(note(2, "c")),
        ]
    );
    assert_eq!(into_send_events(vec![]), vec![]);
}

#[test]
fn engine_polls_on_a_tick() {
    let mut s = script_of("1|topic|a\n1|topic|b\n1|topic|c\n");
    assert_eq!(
        engine_step_at(&mut s, &Delivery::Event(Event::Tick), second(2)),
        EngineAction::Send(vec![
            Event::SendMessage(note(1, "a")),
            Event::SendMessage(note(2, "b")),
        ])
    );
    assert_eq!(s.last_poll_time(), second(2));
    assert_eq!(
        engine_step_at(&mut s, &Delivery::Event(Event::Tick), second(2)),
        EngineAction::Send(vec![])
    );
    assert_eq!(
        engine_step_at(&mut s, &Delivery::Event(Event::Tick), second(3)),
        EngineAction::Send(vec![Event::SendMessage(note(3, "c"))])
    );
}

#[test]
fn engine_leaves_the_script_alone_otherwise() {
    let mut s = script_of("1|topic|a\n");
    let held = s.messages().clone();
    for (delivery, action) in [
        (Delivery::Event(Event::ReloadScript), EngineAction::Rescan),
        (Delivery::Event(Event::Exit), EngineAction::Stop),
        (Delivery::Closed, EngineAction::Stop),
        (Delivery::Lagged(3), EngineAction::Continue),
        (
            Delivery::Event(Event::SendMessage(note(1, "a"))),
            EngineAction::Continue,
        ),
    ] {
        assert_eq!(engine_step_at(&mut s, &delivery, second(50)), action);
        assert_eq!(s.last_poll_time(), second(0));
        assert_eq!(s.messages(), &held);
        assert_eq!(engine_step(&mut s, &delivery), action);
        assert_eq!(s.last_poll_time(), second(0));
    }
}

#[test]
fn engine_tick_by_the_clock() {
    let mut s = script_of("1|topic|long ago\n");
    assert_eq!(
        engine_step(&mut s, &Delivery::Event(Event::Tick)),
        EngineAction::Send(vec![Event::SendMessage(note(1, "long ago"))])
    );
    assert!(second(1_600_000_000).is_before(&s.last_poll_time()));
}

#[test]
fn tick_source_looks_for_exit_only() {
    assert_eq!(tick_step(&Polled::Event(Event::Exit)), TickAction::Stop);
    assert_eq!(tick_step(&Polled::Event(Event::Tick)), TickAction::Drain);
    assert_eq!(tick_step(&Polled::Event(Event::ReloadScript)), TickAction::Drain);
    assert_eq!(
        tick_step(&Polled::Event(Event::SendMessage(note(1, "a")))),
        TickAction::Drain
    );
    assert_eq!(tick_step(&Polled::Empty), TickAction::Emit);
    assert_eq!(tick_step(&Polled::Lagged(4)), TickAction::Emit);
    assert_eq!(tick_step(&Polled::Closed), TickAction::Emit);
    assert_eq!(TICK_PERIOD_SECS, 1);
    assert_eq!(BUS_CAPACITY, 16);
}

#[test]
fn tick_round_stops_on_exit() {
    assert_eq!(tick_round(&vec![]), TickAction::Emit);
    assert_eq!(
        tick_round(&vec![Event::Tick, Event::ReloadScript, Event::Tick]),
        TickAction::Emit
    );
    assert_eq!(
        tick_round(&vec![Event::Tick, Event::Exit, Event::Tick]),
        TickAction::Stop
    );
    assert_eq!(tick_round(&vec![Event::Exit]), TickAction::Stop);
    assert_eq!(
        tick_round(&vec![Event::SendMessage(note(1, "a")), Event::Exit]),
        TickAction::Stop
    );
}

#[test]
fn orchestrator_shuts_down_on_interrupt_and_exit() {
    assert!(should_shut_down(&Wake::Interrupt));
    assert!(should_shut_down(&Wake::Bus(Delivery::Event(Event::Exit))));
    assert!(!should_shut_down(&Wake::Bus(Delivery::Event(Event::Tick))));
    assert!(!should_shut_down(&Wake::Bus(Delivery::Event(Event::ReloadScript))));
    assert!(!should_shut_down(&Wake::Bus(Delivery::Event(Event::SendMessage(note(1, "a"))))));
    assert!(!should_shut_down(&Wake::Bus(Delivery::Lagged(1))));
    assert!(!should_shut_down(&Wake::Bus(Delivery::Closed)));
}

#[test]
fn publisher_config_has_the_usual_budget() {
    let config = PublisherConfig::with_qos(1);
    assert_eq!(config.qos, 1);
    assert_eq!(config.max_attempts, 10);
    assert_eq!(config.delay_secs, 1);
    assert_eq!(RECONNECT_ATTEMPTS, 10);
    assert_eq!(RECONNECT_DELAY_SECS, 1);
}

#[test]
fn publisher_publishes_each_message_once() {
    let config = PublisherConfig::with_qos(2);
    let (state, action) = publisher_step(
        &config,
        PublisherState::Listening,
        PublisherInput::Bus(Delivery::Event(Event::SendMessage(note(1, "a")))),
    );
    assert_eq!(state, PublisherState::Publishing);
    assert_eq!(
        action,
        PublisherAction::Publish {
            message: note(1, "a"),
            qos: 2
        }
    );
    assert_eq!(
        publisher_step(&config, state, PublisherInput::Published(true)),
        (PublisherState::Listening, PublisherAction::Receive)
    );
}

#[test]
fn publisher_passes_over_other_events() {
    let config = PublisherConfig::with_qos(0);
    for delivery in [
        Delivery::Event(Event::Tick),
        Delivery::Event(Event::ReloadScript),
        Delivery::Lagged(7),
    ] {
        assert_eq!(
            publisher_step(&config, PublisherState::Listening, PublisherInput::Bus(delivery)),
            (PublisherState::Listening, PublisherAction::Receive)
        );
    }
}

#[test]
fn publisher_stops_on_exit() {
    let config = PublisherConfig::with_qos(0);
    for delivery in [Delivery::Event(Event::Exit), Delivery::Closed] {
        assert_eq!(
            publisher_step(&config, PublisherState::Listening, PublisherInput::Bus(delivery)),
            (PublisherState::Stopped, PublisherAction::Stop)
        );
    }
    for input in [
        PublisherInput::Bus(Delivery::Event(Event::SendMessage(note(1, "a")))),
        PublisherInput::Bus(Delivery::Event(Event::Tick)),
        PublisherInput::Published(true),
        PublisherInput::Published(false),
        PublisherInput::Reconnected(true),
        PublisherInput::Reconnected(false),
    ] {
        assert_eq!(
            publisher_step(&config, PublisherState::Stopped, input),
            (PublisherState::Stopped, PublisherAction::Stop)
        );
    }
}

#[test]
fn publisher_reconnects_after_a_failed_publish() {
    let config = PublisherConfig::with_qos(0);
    let (state, action) =
        publisher_step(&config, PublisherState::Publishing, PublisherInput::Published(false));
    assert_eq!(state, PublisherState::Reconnecting { failed: 0 });
    assert_eq!(action, PublisherAction::Reconnect { delay_secs: 0 });
    let (state, action) = publisher_step(&config, state, PublisherInput::Reconnected(false));
    assert_eq!(state, PublisherState::Reconnecting { failed: 1 });
    assert_eq!(action, PublisherAction::Reconnect { delay_secs: 1 });
    // The try succeeds: the publisher listens again and does not send the
    // message a second time.
    assert_eq!(
        publisher_step(&config, state, PublisherInput::Reconnected(true)),
        (PublisherState::Listening, PublisherAction::Receive)
    );
}

#[test]
fn publisher_gives_up_after_ten_tries() {
    let config = PublisherConfig::with_qos(0);
    let (mut state, mut action) =
        publisher_step(&config, PublisherState::Publishing, PublisherInput::Published(false));
    let mut tries = 0;
    while let PublisherAction::Reconnect { .. } = action {
        tries += 1;
        assert!(tries <= 10);
        (state, action) = publisher_step(&config, state, PublisherInput::Reconnected(false));
    }
    assert_eq!(tries, 10);
    assert_eq!(state, PublisherState::Stopped);
    assert_eq!(action, PublisherAction::BroadcastExit);
}

#[test]
fn publisher_budget_of_other_sizes() {
    let none = PublisherConfig { qos: 0, max_attempts: 0, delay_secs: 5 };
    assert_eq!(
        publisher_step(&none, PublisherState::Publishing, PublisherInput::Published(false)),
        (PublisherState::Stopped, PublisherAction::BroadcastExit)
    );
    assert_eq!(
        publisher_step(
            &none,
            PublisherState::Reconnecting { failed: 0 },
            PublisherInput::Reconnected(false)
        ),
        (PublisherState::Stopped, PublisherAction::BroadcastExit)
    );
    let one = PublisherConfig { qos: 0, max_attempts: 1, delay_secs: 5 };
    assert_eq!(
        publisher_step(&one, PublisherState::Publishing, PublisherInput::Published(false)),
        (
            PublisherState::Reconnecting { failed: 0 },
            PublisherAction::Reconnect { delay_secs: 0 }
        )
    );
    assert_eq!(
        publisher_step(
            &one,
            PublisherState::Reconnecting { failed: 0 },
            PublisherInput::Reconnected(false)
        ),
        (PublisherState::Stopped, PublisherAction::BroadcastExit)
    );
    let three = PublisherConfig { qos: 0, max_attempts: 3, delay_secs: 5 };
    assert_eq!(
        publisher_step(
            &three,
            PublisherState::Reconnecting { failed: 1 },
            PublisherInput::Reconnected(false)
        ),
        (
            PublisherState::Reconnecting { failed: 2 },
            PublisherAction::Reconnect { delay_secs: 5 }
        )
    );
    assert_eq!(
        publisher_step(
            &three,
            PublisherState::Reconnecting { failed: u32::MAX },
            PublisherInput::Reconnected(false)
        ),
        (PublisherState::Stopped, PublisherAction::BroadcastExit)
    );
}

#[test]
fn publisher_ignores_what_does_not_belong() {
    let config = PublisherConfig::with_qos(0);
    assert_eq!(
        publisher_step(&config, PublisherState::Listening, PublisherInput::Published(false)),
        (PublisherState::Listening, PublisherAction::Ignore)
    );
    assert_eq!(
        publisher_step(&config, PublisherState::Listening, PublisherInput::Reconnected(true)),
        (PublisherState::Listening, PublisherAction::Ignore)
    );
    assert_eq!(
        publisher_step(
            &config,
            PublisherState::Publishing,
            PublisherInput::Bus(Delivery::Event(Event::Exit))
        ),
        (PublisherState::Publishing, PublisherAction::Ignore)
    );
    assert_eq!(
        publisher_step(&config, PublisherState::Publishing, PublisherInput::Reconnected(false)),
        (PublisherState::Publishing, PublisherAction::Ignore)
    );
    assert_eq!(
        publisher_step(
            &config,
            PublisherState::Reconnecting { failed: 4 },
            PublisherInput::Published(true)
        ),
        (PublisherState::Reconnecting { failed: 4 }, PublisherAction::Ignore)
    );
}

#[test]
fn script_extension_is_txt() {
    assert!(is_script_extension("txt"));
    assert!(!is_script_extension("TXT"));
    assert!(!is_script_extension("tx"));
    assert!(!is_script_extension("txt "));
    assert!(!is_script_extension(".txt"));
    assert!(!is_script_extension(""));
    assert!(!is_script_extension("csv"));
    assert!(!is_script_extension("tx\u{442}"));
    assert!(!is_script_extension("\u{442}\u{445}\u{442}"));
}

#[test]
fn script_pattern_names_every_depth() {
    assert_eq!(script_pattern("scripts"), "scripts/**/*.txt");
    assert_eq!(script_pattern("/var/lib/actor"), "/var/lib/actor/**/*.txt");
    assert_eq!(script_pattern(""), "/**/*.txt");
}

#[test]
fn reload_on_changes_to_scripts_only() {
    let script = vec![ext("txt")];
    for change in [Change::Created, Change::DataModified, Change::Renamed, Change::Removed] {
        assert!(calls_for_reload(change, &script));
        assert!(calls_for_reload(change, &vec![None, ext("md"), ext("txt")]));
        assert!(!calls_for_reload(change, &vec![]));
        assert!(!calls_for_reload(change, &vec![None]));
        assert!(!calls_for_reload(change, &vec![ext("md"), ext("TXT"), None]));
    }
    assert!(!calls_for_reload(Change::Other, &script));
    assert!(!calls_for_reload(Change::Other, &vec![]));
}

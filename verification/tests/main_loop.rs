use peanut::run::{RunAction, RunEvent};
use peanut::server::Server;

#[test]
fn without_ticks() {
    let mut server = Server::default();
    assert_eq!(server.run(RunEvent::Started(5)), RunAction::Clock);
    assert_eq!(server.run(RunEvent::Clock(6)), RunAction::Poll(None));
    assert_eq!(server.run(RunEvent::Polled(2)), RunAction::Clock);
    assert_eq!(server.run(RunEvent::Clock(u128::MAX)), RunAction::Handle(0));
    assert_eq!(server.run(RunEvent::Handled), RunAction::Clock);
    assert_eq!(server.run(RunEvent::Clock(8)), RunAction::Handle(1));
    assert_eq!(server.run(RunEvent::Handled), RunAction::Clock);
    assert_eq!(server.run(RunEvent::Clock(9)), RunAction::Poll(None));
    assert_eq!(server.run(RunEvent::Polled(0)), RunAction::Clock);
    assert_eq!(server.run(RunEvent::Clock(10)), RunAction::Poll(None));
}

#[test]
fn ticks_when_due() {
    let mut server = Server::default();
    server.on_tick(70);
    server.on_tick(100);
    assert_eq!(server.run(RunEvent::Started(1000)), RunAction::Clock);
    // Due after 1100, and not at that very moment.
    assert_eq!(server.run(RunEvent::Clock(1100)), RunAction::Poll(Some(100)));
    assert_eq!(server.run(RunEvent::Polled(0)), RunAction::Clock);
    assert_eq!(server.run(RunEvent::Clock(1101)), RunAction::Tick);
    assert_eq!(
        server.run(RunEvent::Ticked { elapsed: 30, now: 1135 }),
        RunAction::Poll(Some(70))
    );
    assert_eq!(server.run(RunEvent::Polled(0)), RunAction::Clock);
    assert_eq!(server.run(RunEvent::Clock(1205)), RunAction::Poll(Some(100)));
    assert_eq!(server.run(RunEvent::Polled(0)), RunAction::Clock);
    assert_eq!(server.run(RunEvent::Clock(1206)), RunAction::Tick);
}

#[test]
fn slow_tick_is_followed_at_once() {
    let mut server = Server::default();
    server.on_tick(100);
    server.run(RunEvent::Started(0));
    assert_eq!(server.run(RunEvent::Clock(101)), RunAction::Tick);
    assert_eq!(
        server.run(RunEvent::Ticked { elapsed: 250, now: 351 }),
        RunAction::Poll(Some(0))
    );
    assert_eq!(server.run(RunEvent::Polled(0)), RunAction::Clock);
    assert_eq!(server.run(RunEvent::Clock(352)), RunAction::Tick);
}

#[test]
fn tick_between_events_leaves_none_out() {
    let mut server = Server::default();
    server.on_tick(100);
    server.run(RunEvent::Started(0));
    assert_eq!(server.run(RunEvent::Clock(1)), RunAction::Poll(Some(100)));
    assert_eq!(server.run(RunEvent::Polled(3)), RunAction::Clock);
    assert_eq!(server.run(RunEvent::Clock(2)), RunAction::Handle(0));
    assert_eq!(server.run(RunEvent::Handled), RunAction::Clock);
    assert_eq!(server.run(RunEvent::Clock(101)), RunAction::Clock);
    assert_eq!(server.run(RunEvent::Clock(102)), RunAction::Tick);
    assert_eq!(server.run(RunEvent::Ticked { elapsed: 1, now: 103 }), RunAction::Clock);
    assert_eq!(server.run(RunEvent::Clock(104)), RunAction::Handle(1));
    assert_eq!(server.run(RunEvent::Handled), RunAction::Clock);
    assert_eq!(server.run(RunEvent::Clock(105)), RunAction::Handle(2));
    assert_eq!(server.run(RunEvent::Handled), RunAction::Clock);
    assert_eq!(server.run(RunEvent::Clock(106)), RunAction::Poll(Some(100)));
}

#[test]
fn second_tick_between_events_goes_further_back() {
    let mut server = Server::default();
    server.on_tick(10);
    server.run(RunEvent::Started(0));
    server.run(RunEvent::Clock(1));
    server.run(RunEvent::Polled(4));
    for (now, event) in [(2, 0), (3, 1)] {
        assert_eq!(server.run(RunEvent::Clock(now)), RunAction::Handle(event));
        assert_eq!(server.run(RunEvent::Handled), RunAction::Clock);
    }
    assert_eq!(server.run(RunEvent::Clock(11)), RunAction::Clock);
    assert_eq!(server.run(RunEvent::Clock(11)), RunAction::Tick);
    assert_eq!(server.run(RunEvent::Ticked { elapsed: 0, now: 12 }), RunAction::Clock);
    assert_eq!(server.run(RunEvent::Clock(13)), RunAction::Handle(2));
    assert_eq!(server.run(RunEvent::Handled), RunAction::Clock);
    // One event since the walk began anew: event 1 is handled a second time.
    assert_eq!(server.run(RunEvent::Clock(23)), RunAction::Clock);
    assert_eq!(server.run(RunEvent::Clock(23)), RunAction::Tick);
    assert_eq!(server.run(RunEvent::Ticked { elapsed: 0, now: 24 }), RunAction::Clock);
    for (now, event) in [(25, 1), (26, 2), (27, 3)] {
        assert_eq!(server.run(RunEvent::Clock(now)), RunAction::Handle(event));
        assert_eq!(server.run(RunEvent::Handled), RunAction::Clock);
    }
    assert_eq!(server.run(RunEvent::Clock(28)), RunAction::Poll(Some(10)));
}

#[test]
fn ticks_are_the_interval_apart() {
    let mut server = Server::default();
    server.on_tick(100);
    server.run(RunEvent::Started(0));
    assert_eq!(server.run(RunEvent::Clock(150)), RunAction::Tick);
    // The handler began at 155, so the next tick comes after 255.
    assert_eq!(
        server.run(RunEvent::Ticked { elapsed: 40, now: 195 }),
        RunAction::Poll(Some(60))
    );
    assert_eq!(server.run(RunEvent::Polled(1)), RunAction::Clock);
    assert_eq!(server.run(RunEvent::Clock(200)), RunAction::Handle(0));
    assert_eq!(server.run(RunEvent::Handled), RunAction::Clock);
    assert_eq!(server.run(RunEvent::Clock(255)), RunAction::Poll(Some(100)));
    assert_eq!(server.run(RunEvent::Polled(0)), RunAction::Clock);
    assert_eq!(server.run(RunEvent::Clock(256)), RunAction::Tick);
}

#[test]
fn first_tick_comes_after_the_interval() {
    let mut server = Server::default();
    server.on_tick(100);
    server.run(RunEvent::Started(40));
    assert_eq!(server.run(RunEvent::Clock(41)), RunAction::Poll(Some(100)));
    assert_eq!(server.run(RunEvent::Polled(1)), RunAction::Clock);
    assert_eq!(server.run(RunEvent::Clock(140)), RunAction::Handle(0));
    assert_eq!(server.run(RunEvent::Handled), RunAction::Clock);
    assert_eq!(server.run(RunEvent::Clock(141)), RunAction::Tick);
}

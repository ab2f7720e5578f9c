use blocking_entropy::driver::{Action, Driver, Event, Halt};
use blocking_entropy::randomness_sources::SawtoothStream;

#[test]
fn driver_draws_until_a_digest_is_due() {
    let mut driver: Driver = Driver::new();
    let mut source: SawtoothStream = SawtoothStream::new();
    for _ in 0..511 {
        assert_eq!(driver.handle(Event::Sample(source.poll())), Action::Draw);
    }
    match driver.handle(Event::Sample(source.poll())) {
        Action::Write(digest) => assert_eq!(digest.len(), 32),
        other => panic!("a digest was due, not {:?}", other),
    }
    assert_eq!(driver.handle(Event::Written), Action::Draw);
    assert_eq!(driver.handle(Event::Sample(source.poll())), Action::Draw);
}

#[test]
fn driver_stops_for_good_when_a_write_fails() {
    let mut driver: Driver = Driver::new();
    let mut source: SawtoothStream = SawtoothStream::new();
    for _ in 0..512 {
        driver.handle(Event::Sample(source.poll()));
    }
    assert_eq!(driver.handle(Event::WriteFailed), Action::Stop(Halt::SinkFailed));
    assert_eq!(driver.handle(Event::Sample(true)), Action::Stop(Halt::SinkFailed));
    assert_eq!(driver.handle(Event::Written), Action::Stop(Halt::SinkFailed));
    assert_eq!(driver.handle(Event::SourceEnded), Action::Stop(Halt::SinkFailed));
    // Nothing is gathered after the stop: 512 more samples give no digest.
    for _ in 0..512 {
        assert_eq!(
            driver.handle(Event::Sample(source.poll())),
            Action::Stop(Halt::SinkFailed)
        );
    }
}

#[test]
fn driver_stops_when_the_source_ends() {
    let mut driver: Driver = Driver::new();
    for _ in 0..7 {
        assert_eq!(driver.handle(Event::Sample(true)), Action::Draw);
    }
    assert_eq!(driver.handle(Event::SourceEnded), Action::Stop(Halt::SourceEnded));
    assert_eq!(driver.handle(Event::WriteFailed), Action::Stop(Halt::SourceEnded));
    assert_eq!(driver.handle(Event::Sample(false)), Action::Stop(Halt::SourceEnded));
}

#[test]
fn driver_never_writes_for_a_constant_source() {
    let mut driver: Driver = Driver::new();
    for _ in 0..10000 {
        assert_eq!(driver.handle(Event::Sample(true)), Action::Draw);
    }
}

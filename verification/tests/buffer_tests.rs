use okayeg::buffer::LogBuffer;
use okayeg::config::Config;
use okayeg::ingest::{Ingestor, Reply};
use okayeg::normalize::Event;

fn engine() -> Ingestor {
    let config = Config::new(vec!["chan".to_string()], Vec::new(), Vec::new());
    Ingestor::new(config, 0)
}

fn chat_event(i: usize) -> Event {
    Event::ChatMessage {
        sender_id: format!("{}", i),
        sender: format!("user{}", i),
        channel: "#chan".to_string(),
        text: format!("message number {}", i),
    }
}

#[test]
fn count_trigger_flushes_on_the_two_hundredth_append() {
    let mut ing = engine();
    for i in 0..199 {
        // All within five seconds of the last flush.
        let (_, batch) = ing.handle_event(&chat_event(i), i as u128, 5);
        assert!(batch.is_none(), "no flush before the count threshold");
    }
    assert_eq!(ing.buffer.logs.len(), 199);
    let (_, batch) = ing.handle_event(&chat_event(199), 199, 5);
    let batch = batch.expect("the two hundredth append must flush");
    assert_eq!(batch.len(), 200);
    assert_eq!(ing.buffer.logs.len(), 0);
}

#[test]
fn time_trigger_drains_on_the_next_event_of_any_kind() {
    let mut ing = engine();
    for i in 0..5 {
        let (_, batch) = ing.handle_event(&chat_event(i), i as u128, 1);
        assert!(batch.is_none());
    }
    assert_eq!(ing.buffer.logs.len(), 5);
    // Twenty-one seconds after the last flush, even a bare keep-alive
    // probe makes the scheduler drain the five buffered records.
    let (reply, batch) = ing.handle_event(&Event::HeartbeatProbe, 99, 21);
    assert_eq!(reply, Reply::Pong);
    let batch = batch.expect("an overdue buffer must drain on the next event");
    assert_eq!(batch.len(), 5);
    assert_eq!(ing.buffer.logs.len(), 0);
}

#[test]
fn time_trigger_includes_a_qualifying_new_event() {
    let mut ing = engine();
    for i in 0..5 {
        ing.handle_event(&chat_event(i), i as u128, 1);
    }
    let (_, batch) = ing.handle_event(&chat_event(5), 5, 21);
    assert_eq!(batch.expect("overdue buffer must drain").len(), 6);
}

#[test]
fn no_flush_of_an_empty_buffer() {
    let mut ing = engine();
    // Way past the time threshold, but nothing is buffered and the
    // arriving events produce no records: no flush may happen.
    let (_, batch) = ing.handle_event(&Event::HeartbeatProbe, 1, 25);
    assert!(batch.is_none());
    let (_, batch) = ing.handle_event(&Event::Other, 2, 50);
    assert!(batch.is_none());
}

#[test]
fn flush_resets_the_clock() {
    let mut ing = engine();
    ing.handle_event(&chat_event(0), 0, 1);
    let (_, batch) = ing.handle_event(&Event::HeartbeatProbe, 1, 21);
    assert!(batch.is_some());
    // Right after a flush neither trigger holds again.
    let (_, batch) = ing.handle_event(&chat_event(1), 2, 22);
    assert!(batch.is_none());
    assert_eq!(ing.buffer.logs.len(), 1);
}

#[test]
fn reconnect_requests_ask_for_a_rejoin() {
    let mut ing = engine();
    let (reply, _) = ing.handle_event(&Event::ReconnectRequested, 1, 1);
    assert_eq!(reply, Reply::RejoinAll);
    let (reply, _) = ing.handle_event(&chat_event(0), 2, 1);
    assert_eq!(reply, Reply::Nothing);
}

#[test]
fn drain_empties_and_restamps_the_buffer() {
    let mut buf = LogBuffer::new(10);
    assert!(!buf.should_flush(11));
    assert!(buf.should_flush(30));
    let batch = buf.drain(30);
    assert!(batch.is_empty());
    assert_eq!(buf.last_flush, 30);
    // An empty buffer past its deadline still must not flush.
    assert!(buf.flush_if_due(60).is_none());
}

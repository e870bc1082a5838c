use superviseur::broker::Broker;
use superviseur::logs::tail;

fn lines(n: usize) -> Vec<String> {
    (0..n).map(|i| format!("line {}", i)).collect()
}

#[test]
fn tail_of_short_log_returns_all_lines() {
    let log = vec!["first".to_string(), "second".to_string(), "third".to_string()];
    assert_eq!(tail(&log, Some(10)), log);
}

#[test]
fn tail_defaults_to_ten_lines() {
    let log = lines(15);
    assert_eq!(tail(&log, None), log[5..].to_vec());
}

#[test]
fn tail_of_exact_window() {
    let log = lines(4);
    assert_eq!(tail(&log, Some(2)), vec!["line 2".to_string(), "line 3".to_string()]);
    assert_eq!(tail(&log, Some(0)), Vec::<String>::new());
    assert_eq!(tail(&Vec::new(), Some(3)), Vec::<String>::new());
}

#[test]
fn subscribers_see_lines_after_their_own_subscription() {
    let mut b = Broker::new();
    b.publish(1, "before".to_string());
    let first = b.subscribe(1);
    b.publish(1, "a".to_string());
    let second = b.subscribe(1);
    let other = b.subscribe(2);
    b.publish(2, "elsewhere".to_string());
    b.publish(1, "b".to_string());
    assert_eq!(b.poll(first), vec!["a".to_string(), "b".to_string()]);
    assert_eq!(b.poll(second), vec!["b".to_string()]);
    assert_eq!(b.poll(other), vec!["elsewhere".to_string()]);
    assert_eq!(b.poll(first), Vec::<String>::new());
    b.publish(1, "c".to_string());
    assert_eq!(b.poll(first), vec!["c".to_string()]);
    assert_eq!(b.poll(second), vec!["c".to_string()]);
    assert_eq!(b.poll(other), Vec::<String>::new());
}

use superviseur::logs::{LogEngine, LogError};

#[test]
fn read_all_without_a_log_is_not_found() {
    let mut e = LogEngine::new();
    assert_eq!(e.read_all(3), Err(LogError::NotFound));
    assert_eq!(e.tail(3, None), Err(LogError::NotFound));
    assert_eq!(e.stream(3).err(), Some(LogError::NotFound));
    e.open_sink(3);
    assert_eq!(e.read_all(3), Ok(Vec::new()));
}

#[test]
fn engine_tail_of_three_lines() {
    let mut e = LogEngine::new();
    e.append(1, "alpha".to_string());
    e.append(1, "beta".to_string());
    e.append(2, "other".to_string());
    e.append(1, "gamma".to_string());
    let expected = vec!["alpha".to_string(), "beta".to_string(), "gamma".to_string()];
    assert_eq!(e.tail(1, Some(10)), Ok(expected.clone()));
    assert_eq!(e.read_all(1), Ok(expected));
    assert_eq!(e.tail(1, Some(1)), Ok(vec!["gamma".to_string()]));
    assert_eq!(e.read_all(2), Ok(vec!["other".to_string()]));
}

#[test]
fn streams_replay_tail_then_follow_new_lines() {
    let mut e = LogEngine::new();
    for i in 0..12 {
        e.append(1, format!("old {}", i));
    }
    e.open_sink(2);
    let (first, replay) = e.stream(1).unwrap();
    assert_eq!(replay.len(), 10);
    assert_eq!(replay[0], "old 2");
    assert_eq!(replay[9], "old 11");
    e.append(1, "new 1".to_string());
    let (second, _) = e.stream(1).unwrap();
    let (unrelated, replay2) = e.stream(2).unwrap();
    assert_eq!(replay2, Vec::<String>::new());
    e.append(2, "side".to_string());
    e.append(1, "new 2".to_string());
    assert_eq!(e.poll(first), vec!["new 1".to_string(), "new 2".to_string()]);
    assert_eq!(e.poll(second), vec!["new 2".to_string()]);
    assert_eq!(e.poll(unrelated), vec!["side".to_string()]);
}

use superviseur::engine::Event;
use superviseur::logs::{LoggingQuery, LoggingSubscription};

#[test]
fn query_and_subscription_surface() {
    let mut e = LogEngine::new();
    e.append(4, "one".to_string());
    e.append(4, "two".to_string());
    assert_eq!(LoggingQuery.tail(&e, 4, Some(1)), Ok(vec!["two".to_string()]));
    assert_eq!(LoggingQuery.logs(&e, 4), Ok(vec!["one".to_string(), "two".to_string()]));
    assert_eq!(LoggingQuery.logs(&e, 5), Err(LogError::NotFound));
    let (sub, replay) = LoggingSubscription.logs(&mut e, 4).unwrap();
    assert_eq!(replay, vec!["one".to_string(), "two".to_string()]);
    let (live, _) = LoggingSubscription.tail(&mut e, 4).unwrap();
    e.append(4, "three".to_string());
    assert_eq!(e.poll(sub), vec!["three".to_string()]);
    assert_eq!(e.poll(live), vec!["three".to_string()]);
    assert_eq!(LoggingSubscription.tail(&mut e, 9).err(), Some(LogError::NotFound));
}

#[test]
fn lifecycle_events_fan_out_like_log_lines() {
    let mut b: Broker<Event> = Broker::new();
    let all_of_zero = b.subscribe(0);
    let all_of_one = b.subscribe(1);
    b.publish(0, Event::ServiceStarted { service: 0, pid: 12 });
    b.publish(1, Event::ServiceFailed { service: 1 });
    b.publish(0, Event::ServiceStopped { service: 0 });
    assert_eq!(
        b.poll(all_of_zero),
        vec![Event::ServiceStarted { service: 0, pid: 12 }, Event::ServiceStopped { service: 0 }]
    );
    assert_eq!(b.poll(all_of_one), vec![Event::ServiceFailed { service: 1 }]);
}

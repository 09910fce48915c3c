use site_tester::log::{attempt_log, decimal_string, LogBuffer, LogEvent, Sink, LOGS_MAX_CAPACITY};

#[test]
fn numbers_are_written_in_decimal() {
    assert_eq!(decimal_string(0), "0");
    assert_eq!(decimal_string(7), "7");
    assert_eq!(decimal_string(10), "10");
    assert_eq!(decimal_string(1234567890), "1234567890");
    assert_eq!(decimal_string(u32::MAX), "4294967295");
    for n in [9u32, 99, 100, 101, 1000, 65535, 4_000_000_000] {
        assert_eq!(decimal_string(n), format!("{}", n));
    }
}

#[test]
fn quiet_success_is_not_reported() {
    assert!(attempt_log(false, true, 3, 1, "https://a", "200 OK").is_none());
}

#[test]
fn verbose_success_reports_the_status() {
    let event = attempt_log(true, true, 3, 1, "https://a", "200 OK").unwrap();
    assert_eq!(event.sink, Sink::Output);
    assert_eq!(event.message, "Status code: 200 OK");
}

#[test]
fn quiet_failure_reports_the_index() {
    let event = attempt_log(false, false, 42, 1, "https://a", "timed out").unwrap();
    assert_eq!(event.sink, Sink::Error);
    assert_eq!(event.message, "Failed Request Number: 42 ");
}

#[test]
fn verbose_failure_reports_everything() {
    let event = attempt_log(true, false, 42, 3, "https://a", "timed out").unwrap();
    assert_eq!(event.sink, Sink::Error);
    assert_eq!(
        event.message,
        "Request failed at idx 42: timed out\nURL: https://a\nThread: 3\nError: timed out"
    );
}

#[test]
fn buffer_keeps_lines_in_order_under_the_name_of_their_sink() {
    let mut buffer = LogBuffer::new();
    assert_eq!(buffer.len(), 0);
    assert!(buffer.get(0).is_none());
    buffer.push(LogEvent { sink: Sink::Output, message: String::from("Status code: 200 OK") });
    buffer.push(LogEvent { sink: Sink::Error, message: String::from("Failed Request Number: 1 ") });
    assert_eq!(buffer.len(), 2);
    assert_eq!(buffer.get(0).unwrap(), "OUTPUT: Status code: 200 OK");
    assert_eq!(buffer.get(1).unwrap(), "ERROR: Failed Request Number: 1 ");
    assert!(buffer.get(2).is_none());
    buffer.clear();
    assert_eq!(buffer.len(), 0);
    assert!(buffer.get(0).is_none());
}

#[test]
fn full_buffer_drops_its_oldest_line() {
    assert_eq!(LOGS_MAX_CAPACITY, 100_000);
    let mut buffer = LogBuffer::new();
    for i in 0..LOGS_MAX_CAPACITY {
        buffer.push(LogEvent { sink: Sink::Output, message: format!("{}", i) });
    }
    assert_eq!(buffer.len(), LOGS_MAX_CAPACITY);
    assert_eq!(buffer.get(0).unwrap(), "OUTPUT: 0");
    buffer.push(LogEvent { sink: Sink::Error, message: String::from("late") });
    assert_eq!(buffer.len(), LOGS_MAX_CAPACITY);
    assert_eq!(buffer.get(0).unwrap(), "OUTPUT: 1");
    assert_eq!(buffer.get(LOGS_MAX_CAPACITY - 1).unwrap(), "ERROR: late");
    assert_eq!(buffer.get(LOGS_MAX_CAPACITY - 2).unwrap(), "OUTPUT: 99999");
}

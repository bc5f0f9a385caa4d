use crowd2x::log::{Log, CAPACITY};

#[test]
fn lines_come_back_in_the_order_they_went_in() {
    let mut log = Log::new();
    log.push("first".to_string());
    log.push("second".to_string());
    assert_eq!(log.drain(), ["first", "second"]);
    // Draining takes them: a line is delivered once.
    assert!(log.drain().is_empty());
}

#[test]
fn a_full_log_loses_the_oldest_line_and_says_so() {
    let mut log = Log::with_capacity(2);
    log.push("a".to_string());
    log.push("b".to_string());
    log.push("c".to_string());

    assert_eq!(log.dropped(), 1);
    // The end of the log is what a reader wants, so that is what survives.
    assert_eq!(log.drain(), ["b", "c"]);
}

#[test]
fn nothing_is_dropped_while_there_is_room() {
    let mut log = Log::with_capacity(8);
    for i in 0..8 {
        log.push(format!("line {i}"));
    }
    assert_eq!(log.dropped(), 0);
    assert_eq!(log.len(), 8);
}

#[test]
fn a_zero_capacity_log_still_accepts_a_line() {
    let mut log = Log::with_capacity(0);
    log.push("kept".to_string());
    assert_eq!(log.drain(), ["kept"]);
}

#[test]
fn a_new_log_is_empty_and_holds_the_usual_number_of_lines() {
    let mut log = Log::default();
    assert!(log.is_empty());
    for i in 0..CAPACITY + 3 {
        log.push(format!("{i}"));
    }
    assert_eq!(log.len(), CAPACITY);
    assert_eq!(log.dropped(), 3);
    assert_eq!(log.drain()[0], "3");
}

use response_relay::channel::ResultChannel;
use response_relay::record::{header_display, ResponseRecord};
use response_relay::state::AppState;
use response_relay::task::complete_request;

#[test]
fn empty_channel_reports_no_data() {
    let mut ch = ResultChannel::new();
    assert!(ch.try_receive().is_none());
    assert_eq!(ch.pending(), 0);
    assert!(ch.try_receive().is_none());
}

#[test]
fn round_trip_preserves_record() {
    let headers = vec![
        ("content-type".to_string(), b"text/plain".to_vec()),
        ("server".to_string(), b"demo".to_vec()),
    ];
    let record = ResponseRecord::from_response(&headers, Some("ok".to_string()));
    let mut ch = ResultChannel::new();
    ch.send(record);
    assert_eq!(ch.pending(), 1);
    let back = ch.try_receive().expect("one record was pending");
    assert_eq!(back.header_count(), 2);
    assert_eq!(
        back.get(&"content-type".to_string()).expect("row present").as_str(),
        "text/plain"
    );
    assert_eq!(back.get(&"server".to_string()).expect("row present").as_str(), "demo");
    assert_eq!(back.body().as_str(), "ok");
    assert!(ch.try_receive().is_none());
}

#[test]
fn records_arrive_in_send_order() {
    let mut ch = ResultChannel::new();
    ch.send(ResponseRecord::from_response(&vec![], Some("first".to_string())));
    ch.send(ResponseRecord::from_response(&vec![], Some("second".to_string())));
    ch.send(ResponseRecord::from_response(&vec![], Some("third".to_string())));
    assert_eq!(ch.pending(), 3);
    assert_eq!(ch.try_receive().unwrap().body().as_str(), "first");
    assert_eq!(ch.try_receive().unwrap().body().as_str(), "second");
    assert_eq!(ch.try_receive().unwrap().body().as_str(), "third");
    assert!(ch.try_receive().is_none());
}

#[test]
fn undisplayable_header_value_becomes_placeholder() {
    let headers = vec![
        ("x-binary".to_string(), vec![0xffu8, 0xfe, 0x00]),
        ("content-type".to_string(), b"text/plain".to_vec()),
    ];
    let record = ResponseRecord::from_response(&headers, Some("ok".to_string()));
    assert_eq!(record.header_count(), 2);
    assert_eq!(
        record.get(&"x-binary".to_string()).expect("row present").as_str(),
        "nothing found"
    );
    assert_eq!(
        record.get(&"content-type".to_string()).expect("row present").as_str(),
        "text/plain"
    );
}

#[test]
fn control_bytes_are_not_displayable() {
    let bell = header_display(&vec![0x07u8]);
    assert_eq!(bell.as_str(), "nothing found");
    let newline = header_display(&vec![b'a', b'\n', b'b']);
    assert_eq!(newline.as_str(), "nothing found");
    let plain = header_display(&vec![b'a', b' ', b'b']);
    assert_eq!(plain.as_str(), "a b");
    let tabbed = header_display(&vec![b'a', b'\t', b'b']);
    assert_eq!(tabbed.as_str(), "a\tb");
}

#[test]
fn unreadable_body_becomes_placeholder() {
    let record = ResponseRecord::from_response(&vec![], None);
    assert_eq!(record.body().as_str(), "nothing in body");
    assert_eq!(record.header_count(), 0);
}

#[test]
fn empty_body_stays_empty() {
    let record = ResponseRecord::from_response(&vec![], Some(String::new()));
    assert_eq!(record.body().as_str(), "");
}

#[test]
fn later_header_row_overwrites_earlier_name() {
    let headers = vec![
        ("set-cookie".to_string(), b"a=1".to_vec()),
        ("set-cookie".to_string(), b"b=2".to_vec()),
    ];
    let record = ResponseRecord::from_response(&headers, Some("ok".to_string()));
    assert_eq!(record.header_count(), 1);
    assert_eq!(record.get(&"set-cookie".to_string()).expect("row present").as_str(), "b=2");
}

#[test]
fn fresh_state_displays_empty_record() {
    let st = AppState::new();
    let shown = st.displayed_record();
    assert_eq!(shown.header_count(), 0);
    assert_eq!(shown.body().as_str(), "");
}

#[test]
fn one_spawn_directive_per_click() {
    let mut st = AppState::new();
    let mut ch = ResultChannel::new();
    let mut spawned: usize = 0;
    for frame_no in 0..6 {
        let clicked = frame_no % 2 == 0;
        if st.frame(&mut ch, clicked) {
            spawned += 1;
        }
    }
    assert_eq!(spawned, 3);
}

#[test]
fn one_click_one_completion_one_frame() {
    let mut st = AppState::new();
    let mut ch = ResultChannel::new();

    // The frame with the button activation directs one spawn.
    let spawn = st.frame(&mut ch, true);
    assert!(spawn);

    // The spawned task completes: the mock endpoint answered with one
    // header and the body "ok".
    let headers = vec![("content-type".to_string(), b"text/plain".to_vec())];
    complete_request(&mut ch, &headers, Some("ok".to_string()));

    // The next frame polls the record and displays it.
    let spawn = st.frame(&mut ch, false);
    assert!(!spawn);
    let shown = st.displayed_record();
    assert_eq!(shown.header_count(), 1);
    let (name, value) = shown.header_row(0);
    assert_eq!(name.as_str(), "content-type");
    assert_eq!(value.as_str(), "text/plain");
    assert_eq!(shown.body().as_str(), "ok");
}

#[test]
fn invalid_header_bytes_display_as_placeholder_end_to_end() {
    let mut st = AppState::new();
    let mut ch = ResultChannel::new();
    assert!(st.frame(&mut ch, true));

    // The mock endpoint answered with a header value holding invalid bytes.
    let headers = vec![("x-raw".to_string(), vec![0xc3u8, 0x28, 0x9f])];
    complete_request(&mut ch, &headers, Some("ok".to_string()));

    st.frame(&mut ch, false);
    let shown = st.displayed_record();
    assert_eq!(shown.header_count(), 1);
    let (name, value) = shown.header_row(0);
    assert_eq!(name.as_str(), "x-raw");
    assert_eq!(value.as_str(), "nothing found");
}

#[test]
fn latest_completion_is_displayed_after_drain() {
    let mut st = AppState::new();
    let mut ch = ResultChannel::new();
    for _ in 0..3 {
        assert!(st.frame(&mut ch, true));
    }
    // The three tasks complete out of spawn order; completion order rules.
    complete_request(&mut ch, &vec![], Some("second".to_string()));
    complete_request(&mut ch, &vec![], Some("first".to_string()));
    complete_request(&mut ch, &vec![], Some("third".to_string()));
    // Three frames drain the queue.
    st.frame(&mut ch, false);
    assert_eq!(st.displayed_record().body().as_str(), "second");
    st.frame(&mut ch, false);
    st.frame(&mut ch, false);
    assert_eq!(st.displayed_record().body().as_str(), "third");
    assert_eq!(ch.pending(), 0);
}

#[test]
fn displayed_record_survives_idle_frames() {
    let mut st = AppState::new();
    let mut ch = ResultChannel::new();
    complete_request(&mut ch, &vec![], Some("kept".to_string()));
    st.frame(&mut ch, false);
    assert_eq!(st.displayed_record().body().as_str(), "kept");
    // Frames with nothing pending change nothing.
    st.frame(&mut ch, false);
    st.frame(&mut ch, true);
    assert_eq!(st.displayed_record().body().as_str(), "kept");
}

#[test]
fn set_header_keeps_names_unique() {
    let mut record = ResponseRecord::new();
    record.set_header("a".to_string(), "1".to_string());
    record.set_header("b".to_string(), "2".to_string());
    record.set_header("a".to_string(), "3".to_string());
    assert_eq!(record.header_count(), 2);
    assert_eq!(record.get(&"a".to_string()).expect("row present").as_str(), "3");
    assert_eq!(record.get(&"b".to_string()).expect("row present").as_str(), "2");
    assert!(record.get(&"c".to_string()).is_none());
}

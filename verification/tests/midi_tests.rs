use audio_io::error::AudioError;
use audio_io::midi::MidiSession;

fn two_port_session() -> MidiSession {
    MidiSession::new(vec!["virtual keyboard".to_string(), "drum pad".to_string()])
}

#[test]
fn ports_snapshot_is_kept() {
    let s = two_port_session();
    assert_eq!(s.get_num_midi_ports(), 2);
    let names = s.midi_port_names();
    assert_eq!(names[0], "virtual keyboard");
    assert_eq!(names[1], "drum pad");
}

#[test]
fn connect_accepts_exactly_snapshot_indices() {
    for index in 0..2 {
        let mut s = two_port_session();
        assert!(s.midi_port_connect(index).is_ok());
    }
    let mut s = two_port_session();
    assert!(matches!(s.midi_port_connect(2), Err(AudioError::OutOfRange)));
    let mut s = two_port_session();
    assert!(matches!(s.midi_port_connect(usize::MAX), Err(AudioError::OutOfRange)));
}

#[test]
fn second_connect_fails_with_invalid_state() {
    let mut s = two_port_session();
    assert!(s.is_midi_input_available());
    s.midi_port_connect(0).unwrap();
    assert!(!s.is_midi_input_available());
    assert!(matches!(s.midi_port_connect(1), Err(AudioError::InvalidState)));
}

#[test]
fn out_of_range_is_checked_before_state() {
    let mut s = two_port_session();
    s.midi_port_connect(0).unwrap();
    assert!(matches!(s.midi_port_connect(9), Err(AudioError::OutOfRange)));
}

#[test]
fn drain_without_events_is_empty() {
    let mut s = two_port_session();
    s.midi_port_connect(0).unwrap();
    assert_eq!(s.midi_port_drain_messages(), Vec::<u8>::new());
}

#[test]
fn drain_concatenates_records_in_arrival_order() {
    let mut s = two_port_session();
    s.midi_port_connect(0).unwrap();
    // first event: delta is zero by definition
    s.record_event(1_000, &vec![0x90, 60, 100]);
    // second event 2.499 seconds later: 2499 ms = 0x9C3 -> [0x93, 0x43]
    s.record_event(2_500_000, &vec![0x80, 60, 0]);
    let bytes = s.midi_port_drain_messages();
    assert_eq!(bytes, vec![0x00, 0x90, 60, 100, 0x93, 0x43, 0x80, 60, 0]);
}

#[test]
fn second_drain_returns_nothing() {
    let mut s = two_port_session();
    s.midi_port_connect(0).unwrap();
    s.record_event(42, &vec![0xF8]);
    assert_eq!(s.midi_port_drain_messages(), vec![0x00, 0xF8]);
    assert_eq!(s.midi_port_drain_messages(), Vec::<u8>::new());
}

#[test]
fn first_event_has_zero_delta_whatever_its_timestamp() {
    let mut s = two_port_session();
    s.midi_port_connect(1).unwrap();
    s.record_event(999_999_999, &vec![0xFE]);
    assert_eq!(s.midi_port_drain_messages(), vec![0x00, 0xFE]);
}

#[test]
fn delta_milliseconds_truncate_microseconds() {
    let mut s = two_port_session();
    s.midi_port_connect(0).unwrap();
    s.record_event(0, &vec![0xF8]);
    // 1999 us later: a 1 ms delta, sub-millisecond precision discarded
    s.record_event(1_999, &vec![0xF8]);
    assert_eq!(s.midi_port_drain_messages(), vec![0x00, 0xF8, 0x01, 0xF8]);
}

#[test]
fn huge_delta_is_clamped_to_28_bits() {
    let mut s = two_port_session();
    s.midi_port_connect(0).unwrap();
    s.record_event(0, &vec![0xF8]);
    // a delta of 0x1000_0000 ms encodes like the 28-bit maximum
    s.record_event(0x1000_0000 * 1_000, &vec![0xF8]);
    let bytes = s.midi_port_drain_messages();
    assert_eq!(bytes, vec![0x00, 0xF8, 0xFF, 0xFF, 0xFF, 0x7F, 0xF8]);
}

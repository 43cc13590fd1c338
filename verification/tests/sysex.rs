use a6_tools::sysex::{read_sysex, read_sysex_with, SysExEvent, SysExHandler, SysExReadError};

/// Counts findings and stops once `budget` of them have been offered.
struct CountingHandler {
    seen: usize,
    budget: usize,
}

impl SysExHandler for CountingHandler {
    fn on_message(&mut self, _pos: usize, _data: &[u8]) -> bool {
        self.seen += 1;
        self.seen < self.budget
    }

    fn on_error(&mut self, _pos: usize, _len: usize, _error: SysExReadError) -> bool {
        self.seen += 1;
        self.seen < self.budget
    }
}

fn run_read(bytes: &[u8], cap: usize) -> Vec<SysExEvent> {
    read_sysex(bytes, cap)
}

fn assert_message(event: &SysExEvent, pos: usize, msg: &[u8]) {
    match event {
        SysExEvent::Message { pos: p, data } => {
            assert_eq!(*p, pos);
            assert_eq!(data.as_slice(), msg);
        },
        SysExEvent::Skip { .. } => panic!("expected a message event"),
    }
}

fn assert_skip(event: &SysExEvent, pos: usize, len: usize, err: SysExReadError) {
    match event {
        SysExEvent::Skip { pos: p, len: l, error } => {
            assert_eq!(*p, pos);
            assert_eq!(*l, len);
            assert_eq!(*error, err);
        },
        SysExEvent::Message { .. } => panic!("expected a skip event"),
    }
}

#[test]
fn test_read_sysex_empty() {
    let events = run_read(b"", 10);
    assert_eq!(events.len(), 0);
}

#[test]
fn test_read_sysex_junk() {
    let events = run_read(b"any", 10);
    assert_eq!(events.len(), 1);
    assert_skip(&events[0], 0, 3, SysExReadError::NotSysEx);
}

#[test]
fn test_read_sysex_sysex() {
    let events = run_read(b"\xF0msg\xF7", 10);
    assert_eq!(events.len(), 1);
    assert_message(&events[0], 0, b"msg");
}

#[test]
fn test_read_sysex_with_junk() {
    let events = run_read(b"abc\xF0def\xF7ghi\xF0jkl\xF7mno", 10);
    assert_eq!(events.len(), 5);
    assert_skip(&events[0], 0, 3, SysExReadError::NotSysEx);
    assert_message(&events[1], 3, b"def");
    assert_skip(&events[2], 8, 3, SysExReadError::NotSysEx);
    assert_message(&events[3], 11, b"jkl");
    assert_skip(&events[4], 16, 3, SysExReadError::NotSysEx);
}

#[test]
fn test_read_sysex_with_sysrt() {
    let events = run_read(b"\xF0abc\xF8def\xF7", 10);
    assert_eq!(events.len(), 1);
    assert_message(&events[0], 0, b"abcdef");
}

#[test]
fn test_read_sysex_interrupted_by_sysex() {
    let events = run_read(b"\xF0abc\xF0def\xF7", 10);
    assert_eq!(events.len(), 2);
    assert_skip(&events[0], 0, 4, SysExReadError::UnexpectedByte);
    assert_message(&events[1], 4, b"def");
}

#[test]
fn test_read_sysex_interrupted_by_status() {
    let events = run_read(b"\xF0abc\xA5def\xF7", 10);
    assert_eq!(events.len(), 2);
    assert_skip(&events[0], 0, 4, SysExReadError::UnexpectedByte);
    assert_skip(&events[1], 4, 5, SysExReadError::NotSysEx);
}

#[test]
fn test_read_sysex_interrupted_by_eof() {
    let events = run_read(b"\xF0abc", 10);
    assert_eq!(events.len(), 1);
    assert_skip(&events[0], 0, 4, SysExReadError::UnexpectedEof);
}

#[test]
fn test_read_sysex_overflow() {
    let events = run_read(b"\xF0abc\xF7", 2);
    assert_eq!(events.len(), 1);
    assert_skip(&events[0], 0, 5, SysExReadError::Overflow);
}

#[test]
fn test_read_sysex_overflow_2() {
    let events = run_read(b"\xF0abc\xF8def\xF7", 2);
    assert_eq!(events.len(), 1);
    assert_skip(&events[0], 0, 9, SysExReadError::Overflow);
}

#[test]
fn message_at_capacity_is_kept() {
    let events = run_read(b"\xF0ab\xF7", 2);
    assert_eq!(events.len(), 1);
    assert_message(&events[0], 0, b"ab");
}

#[test]
fn empty_message() {
    let events = run_read(b"\xF0\xF7", 10);
    assert_eq!(events.len(), 1);
    assert_message(&events[0], 0, b"");
}

#[test]
fn event_extents_cover_input_without_realtime() {
    // With no real-time byte in the input, the reported skip lengths plus
    // each message's payload length and two delimiters sum to the whole
    // input, in offset order.
    let input = b"abc\xF0def\xF7ghi\xF0jkl\xF7mno";
    let events = run_read(input, 10);
    let mut next = 0usize;
    let mut covered = 0usize;
    for event in &events {
        match event {
            SysExEvent::Message { pos, data } => {
                assert_eq!(*pos, next);
                next += data.len() + 2;
                covered += data.len() + 2;
            },
            SysExEvent::Skip { pos, len, .. } => {
                assert_eq!(*pos, next);
                next += len;
                covered += len;
            },
        }
    }
    assert_eq!(covered, input.len());
}

#[test]
fn realtime_bytes_belong_to_the_message_span() {
    // F0 'a' F8 F7 'x': the message's stretch is the first four bytes - its
    // payload plus two delimiters among the non-real-time bytes, with the
    // real-time byte consumed silently - and the next event starts right
    // after it.
    let events = run_read(b"\xF0a\xF8\xF7x", 10);
    assert_eq!(events.len(), 2);
    assert_message(&events[0], 0, b"a");
    assert_skip(&events[1], 4, 1, SysExReadError::NotSysEx);
}

#[test]
fn handler_completes_on_empty_input() {
    let mut handler = CountingHandler { seen: 0, budget: usize::MAX };
    let completed = read_sysex_with(b"", 10, &mut handler);
    assert!(completed);
    assert_eq!(handler.seen, 0);
}

#[test]
fn handler_sees_all_events_when_continuing() {
    let mut handler = CountingHandler { seen: 0, budget: usize::MAX };
    let completed = read_sysex_with(b"abc\xF0def\xF7ghi\xF0jkl\xF7mno", 10, &mut handler);
    assert!(completed);
    assert_eq!(handler.seen, 5);
}

#[test]
fn handler_stop_aborts_scan() {
    let mut handler = CountingHandler { seen: 0, budget: 2 };
    let completed = read_sysex_with(b"abc\xF0def\xF7ghi\xF0jkl\xF7mno", 10, &mut handler);
    assert!(!completed);
    assert_eq!(handler.seen, 2);
}

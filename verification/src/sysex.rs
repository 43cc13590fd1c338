//! The SysEx detector: a streaming state machine that finds well-formed
//! System Exclusive messages in an arbitrary byte sequence.
//!
//! Frames are bounded by the start and end delimiters; System Real-Time
//! bytes are transparent and may appear anywhere, including inside a frame;
//! any other status byte ends an accumulation in progress. Every stretch of
//! input that is not a complete message is reported as a structured skip
//! event, so the caller never loses sync. The spec functions `scan_outside`
//! and `scan_inside` are the transition table; `read_sysex` returns exactly
//! the event sequence they describe.

use vstd::prelude::*;

verus! {

/// SysEx start delimiter.
pub const SYSEX_START: u8 = 0xF0;

/// SysEx end delimiter.
pub const SYSEX_END: u8 = 0xF7;

/// True iff `b` is a data byte, valid inside a message.
pub open spec fn is_data(b: u8) -> bool {
    b <= 0x7F
}

/// True iff `b` is a System Real-Time byte: transparent everywhere.
pub open spec fn is_realtime(b: u8) -> bool {
    b >= 0xF8
}

/// Possible error conditions encountered while reading SysEx messages.
#[derive(Clone, Copy, PartialEq, Eq, Structural, Debug)]
pub enum SysExReadError {
    /// The bytes did not contain a System Exclusive message.
    NotSysEx,
    /// A System Exclusive message exceeded the maximum allowed length.
    Overflow,
    /// A System Exclusive message was interrupted by an unexpected byte.
    UnexpectedByte,
    /// A System Exclusive message was interrupted by end-of-input.
    UnexpectedEof,
}

/// One detector finding: a complete message's payload, or a stretch of
/// input that could not be attributed to a message.
#[derive(Clone, Debug)]
pub enum SysExEvent {
    /// A complete message: the offset of its opening delimiter and its
    /// payload, without delimiters and without real-time bytes.
    Message { pos: usize, data: Vec<u8> },
    /// A stretch of `len` bytes at `pos` skipped for the given reason.
    Skip { pos: usize, len: usize, error: SysExReadError },
}

/// The mathematical shape of one detector finding.
pub enum SysExEventModel {
    /// A complete message's offset and payload.
    Message { pos: int, data: Seq<u8> },
    /// A skipped stretch and the reason.
    Skip { pos: int, len: int, error: SysExReadError },
}

impl View for SysExEvent {
    type V = SysExEventModel;

    open spec fn view(&self) -> SysExEventModel {
        match self {
            SysExEvent::Message { pos, data } => SysExEventModel::Message {
                pos: *pos as int,
                data: data@,
            },
            SysExEvent::Skip { pos, len, error } => SysExEventModel::Skip {
                pos: *pos as int,
                len: *len as int,
                error: *error,
            },
        }
    }
}

/// The models of a sequence of events.
pub open spec fn event_views(es: Seq<SysExEvent>) -> Seq<SysExEventModel> {
    es.map_values(|e: SysExEvent| e@)
}

/// The events found from position `i` on while outside any message, with a
/// possibly empty skip region open since `start`.
pub open spec fn scan_outside(s: Seq<u8>, start: int, i: int, cap: int) -> Seq<SysExEventModel>
    decreases s.len() - i,
{
    if i >= s.len() {
        if i > start {
            seq![
                SysExEventModel::Skip {
                    pos: start,
                    len: i - start,
                    error: SysExReadError::NotSysEx,
                },
            ]
        } else {
            Seq::empty()
        }
    } else if s[i] == SYSEX_START {
        (if i > start {
            seq![
                SysExEventModel::Skip {
                    pos: start,
                    len: i - start,
                    error: SysExReadError::NotSysEx,
                },
            ]
        } else {
            Seq::empty()
        }) + scan_inside(s, i, i + 1, Seq::empty(), cap)
    } else {
        scan_outside(s, start, i + 1, cap)
    }
}

/// The events found from position `i` on while inside a message that opened
/// at `start` and has accumulated `payload` so far.
pub open spec fn scan_inside(
    s: Seq<u8>,
    start: int,
    i: int,
    payload: Seq<u8>,
    cap: int,
) -> Seq<SysExEventModel>
    decreases s.len() - i,
{
    if i >= s.len() {
        seq![
            SysExEventModel::Skip {
                pos: start,
                len: s.len() - start,
                error: SysExReadError::UnexpectedEof,
            },
        ]
    } else {
        let b = s[i];
        if b == SYSEX_END {
            (if payload.len() > cap {
                seq![
                    SysExEventModel::Skip {
                        pos: start,
                        len: i + 1 - start,
                        error: SysExReadError::Overflow,
                    },
                ]
            } else {
                seq![SysExEventModel::Message { pos: start, data: payload }]
            }) + scan_outside(s, i + 1, i + 1, cap)
        } else if is_data(b) {
            scan_inside(s, start, i + 1, payload.push(b), cap)
        } else if is_realtime(b) {
            scan_inside(s, start, i + 1, payload, cap)
        } else if b == SYSEX_START {
            seq![
                SysExEventModel::Skip {
                    pos: start,
                    len: i - start,
                    error: SysExReadError::UnexpectedByte,
                },
            ] + scan_inside(s, i, i + 1, Seq::empty(), cap)
        } else {
            seq![
                SysExEventModel::Skip {
                    pos: start,
                    len: i - start,
                    error: SysExReadError::UnexpectedByte,
                },
            ] + scan_outside(s, i, i + 1, cap)
        }
    }
}

/// Every event the detector finds in `s` with payload capacity `cap`, in
/// input order.
pub open spec fn spec_scan(s: Seq<u8>, cap: int) -> Seq<SysExEventModel> {
    scan_outside(s, 0, 0, cap)
}

proof fn lemma_event_views_push(es: Seq<SysExEvent>, e: SysExEvent)
    ensures
        event_views(es.push(e)) == event_views(es).push(e@),
{
    assert(event_views(es.push(e)) =~= event_views(es).push(e@));
}

/// Consumes the given `input` and detects MIDI System Exclusive messages
/// whose payload is `cap` bytes or less.
///
/// Returns every message and skip event in strict input-offset order: the
/// exact event sequence of the `scan_outside`/`scan_inside` transition
/// table. Payload bytes beyond `cap` are counted but not stored, so memory
/// stays bounded whatever the input; a closed over-long message is reported
/// as one `Overflow` skip covering delimiters and all.
pub fn read_sysex(input: &[u8], cap: usize) -> (events: Vec<SysExEvent>)
    ensures
        event_views(events@) == spec_scan(input@, cap as int),
{
    let ghost total = spec_scan(input@, cap as int);
    let mut events: Vec<SysExEvent> = Vec::new();
    let mut inside = false;
    let mut start: usize = 0;
    let mut count: usize = 0;
    let mut buf: Vec<u8> = Vec::new();
    let ghost mut payload: Seq<u8> = Seq::empty();
    let mut i: usize = 0;
    while i < input.len()
        invariant
            total == spec_scan(input@, cap as int),
            i <= input@.len(),
            start <= i,
            !inside ==> total == event_views(events@) + scan_outside(
                input@,
                start as int,
                i as int,
                cap as int,
            ),
            inside ==> total == event_views(events@) + scan_inside(
                input@,
                start as int,
                i as int,
                payload,
                cap as int,
            ),
            inside ==> start < i,
            inside ==> count == payload.len(),
            inside ==> count <= i - start - 1,
            inside ==> (if count <= cap {
                buf@ == payload
            } else {
                buf@ == payload.take(cap as int)
            }),
        decreases input@.len() - i,
    {
        let b = input[i];
        if !inside {
            if b == SYSEX_START {
                if i > start {
                    let e = SysExEvent::Skip {
                        pos: start,
                        len: i - start,
                        error: SysExReadError::NotSysEx,
                    };
                    proof {
                        lemma_event_views_push(events@, e);
                        assert(event_views(events@).push(e@) + scan_inside(
                            input@,
                            i as int,
                            i + 1,
                            Seq::empty(),
                            cap as int,
                        ) =~= event_views(events@) + scan_outside(
                            input@,
                            start as int,
                            i as int,
                            cap as int,
                        ));
                    }
                    events.push(e);
                } else {
                    proof {
                        assert(event_views(events@) + scan_inside(
                            input@,
                            i as int,
                            i + 1,
                            Seq::empty(),
                            cap as int,
                        ) =~= event_views(events@) + scan_outside(
                            input@,
                            start as int,
                            i as int,
                            cap as int,
                        ));
                    }
                }
                inside = true;
                start = i;
                count = 0;
                buf = Vec::new();
                proof {
                    payload = Seq::empty();
                }
            }
        } else {
            if b == SYSEX_END {
                if count > cap {
                    let e = SysExEvent::Skip {
                        pos: start,
                        len: i + 1 - start,
                        error: SysExReadError::Overflow,
                    };
                    proof {
                        lemma_event_views_push(events@, e);
                        assert(event_views(events@).push(e@) + scan_outside(
                            input@,
                            i + 1,
                            i + 1,
                            cap as int,
                        ) =~= event_views(events@) + scan_inside(
                            input@,
                            start as int,
                            i as int,
                            payload,
                            cap as int,
                        ));
                    }
                    events.push(e);
                } else {
                    let data = buf;
                    buf = Vec::new();
                    let e = SysExEvent::Message { pos: start, data };
                    proof {
                        lemma_event_views_push(events@, e);
                        assert(event_views(events@).push(e@) + scan_outside(
                            input@,
                            i + 1,
                            i + 1,
                            cap as int,
                        ) =~= event_views(events@) + scan_inside(
                            input@,
                            start as int,
                            i as int,
                            payload,
                            cap as int,
                        ));
                    }
                    events.push(e);
                }
                inside = false;
                start = i + 1;
                count = 0;
                proof {
                    payload = Seq::empty();
                }
            } else if b <= 0x7F {
                if count < cap {
                    buf.push(b);
                }
                proof {
                    if count >= cap {
                        assert(buf@ =~= payload.push(b).take(cap as int));
                    }
                    payload = payload.push(b);
                }
                count = count + 1;
            } else if b >= 0xF8 {
                // Real-time byte: transparent, not copied into the payload.
            } else if b == SYSEX_START {
                let e = SysExEvent::Skip {
                    pos: start,
                    len: i - start,
                    error: SysExReadError::UnexpectedByte,
                };
                proof {
                    lemma_event_views_push(events@, e);
                    assert(event_views(events@).push(e@) + scan_inside(
                        input@,
                        i as int,
                        i + 1,
                        Seq::empty(),
                        cap as int,
                    ) =~= event_views(events@) + scan_inside(
                        input@,
                        start as int,
                        i as int,
                        payload,
                        cap as int,
                    ));
                }
                events.push(e);
                start = i;
                count = 0;
                buf = Vec::new();
                proof {
                    payload = Seq::empty();
                }
            } else {
                let e = SysExEvent::Skip {
                    pos: start,
                    len: i - start,
                    error: SysExReadError::UnexpectedByte,
                };
                proof {
                    lemma_event_views_push(events@, e);
                    assert(event_views(events@).push(e@) + scan_outside(
                        input@,
                        i as int,
                        i + 1,
                        cap as int,
                    ) =~= event_views(events@) + scan_inside(
                        input@,
                        start as int,
                        i as int,
                        payload,
                        cap as int,
                    ));
                }
                events.push(e);
                inside = false;
                start = i;
                count = 0;
                proof {
                    payload = Seq::empty();
                }
            }
        }
        i = i + 1;
    }
    if inside {
        let e = SysExEvent::Skip {
            pos: start,
            len: input.len() - start,
            error: SysExReadError::UnexpectedEof,
        };
        proof {
            lemma_event_views_push(events@, e);
            assert(event_views(events@).push(e@) =~= event_views(events@) + scan_inside(
                input@,
                start as int,
                i as int,
                payload,
                cap as int,
            ));
        }
        events.push(e);
    } else if i > start {
        let e = SysExEvent::Skip {
            pos: start,
            len: input.len() - start,
            error: SysExReadError::NotSysEx,
        };
        proof {
            lemma_event_views_push(events@, e);
            assert(event_views(events@).push(e@) =~= event_views(events@) + scan_outside(
                input@,
                start as int,
                i as int,
                cap as int,
            ));
        }
        events.push(e);
    } else {
        proof {
            assert(event_views(events@) =~= event_views(events@) + scan_outside(
                input@,
                start as int,
                i as int,
                cap as int,
            ));
        }
    }
    events
}

/// Receives each detector finding as the scan reaches it.
///
/// Each method's returned `bool` is the handler's signal: `true` to
/// continue the scan, `false` to stop it promptly.
pub trait SysExHandler {
    fn on_message(&mut self, pos: usize, data: &[u8]) -> bool;

    fn on_error(&mut self, pos: usize, len: usize, error: SysExReadError) -> bool;
}

/// Drives a scan of `input` through the given handler, in input order.
///
/// Stops at the first finding the handler declines and returns `false` for
/// such an aborted run, `true` once every finding has been offered. What is
/// offered is exactly the event sequence of `read_sysex`; whether the run
/// completes turns on the handler's answers, so the contract pins only what
/// holds whatever they are: a scan with no finding makes no handler call
/// and completes, and a run can be cut short only at a finding.
pub fn read_sysex_with<H: SysExHandler>(input: &[u8], cap: usize, handler: &mut H) -> (completed:
    bool)
    ensures
        spec_scan(input@, cap as int).len() == 0 ==> completed,
        !completed ==> spec_scan(input@, cap as int).len() > 0,
{
    let events = read_sysex(input, cap);
    let mut k: usize = 0;
    while k < events.len()
        invariant
            k <= events@.len(),
            events@.len() == spec_scan(input@, cap as int).len(),
        decreases events@.len() - k,
    {
        let keep_going = match &events[k] {
            SysExEvent::Message { pos, data } => handler.on_message(*pos, data.as_slice()),
            SysExEvent::Skip { pos, len, error } => handler.on_error(*pos, *len, *error),
        };
        if !keep_going {
            return false;
        }
        k = k + 1;
    }
    true
}

/// The input offset an event starts at.
pub open spec fn event_pos(e: SysExEventModel) -> int {
    match e {
        SysExEventModel::Message { pos, .. } => pos,
        SysExEventModel::Skip { pos, .. } => pos,
    }
}

/// The stretch of input an event accounts for: a skip's length, or a
/// message's payload plus its two delimiters. Real-time bytes inside a
/// message are consumed but appear in no payload, so a message's true span
/// can exceed this.
pub open spec fn event_extent(e: SysExEventModel) -> int {
    match e {
        SysExEventModel::Message { data, .. } => data.len() as int + 2,
        SysExEventModel::Skip { len, .. } => len,
    }
}

/// The events tile `[from, to)` exactly: the first starts at `from`, each
/// next one starts where the previous extent ended, and the last ends at
/// `to`.
pub open spec fn tiled(ev: Seq<SysExEventModel>, from: int, to: int) -> bool
    decreases ev.len(),
{
    if ev.len() == 0 {
        from == to
    } else {
        event_pos(ev[0]) == from && tiled(ev.drop_first(), from + event_extent(ev[0]), to)
    }
}

/// The sum of the events' extents.
pub open spec fn total_extent(ev: Seq<SysExEventModel>) -> int
    decreases ev.len(),
{
    if ev.len() == 0 {
        0
    } else {
        event_extent(ev[0]) + total_extent(ev.drop_first())
    }
}

/// The events sit in input order at or after `from`: each starts no earlier
/// than the previous one's extent ended.
pub open spec fn ordered_from(ev: Seq<SysExEventModel>, from: int) -> bool
    decreases ev.len(),
{
    if ev.len() == 0 {
        true
    } else {
        event_pos(ev[0]) >= from && ordered_from(
            ev.drop_first(),
            event_pos(ev[0]) + event_extent(ev[0]),
        )
    }
}

/// True iff `s` holds a System Real-Time byte anywhere.
pub open spec fn has_realtime(s: Seq<u8>) -> bool {
    exists|k: int| 0 <= k < s.len() && is_realtime(s[k])
}

/// Number of bytes of `s` in `[a, b)` that are not System Real-Time bytes.
pub open spec fn plain_count(s: Seq<u8>, a: int, b: int) -> int
    decreases b - a,
{
    if a >= b {
        0
    } else {
        plain_count(s, a, b - 1) + if is_realtime(s[b - 1]) {
            0int
        } else {
            1int
        }
    }
}

/// The stretch `[from, mid)` of `s` is exactly what the event accounts for:
/// a skip covers its reported length outright; a message covers its two
/// delimiters and payload bytes plus however many real-time bytes were
/// consumed silently in between, so the stretch's count of non-real-time
/// bytes is the payload length plus two.
pub open spec fn event_spans(s: Seq<u8>, e: SysExEventModel, from: int, mid: int) -> bool {
    match e {
        SysExEventModel::Message { data, .. } => plain_count(s, from, mid) == data.len() + 2,
        SysExEventModel::Skip { len, .. } => mid - from == len,
    }
}

/// The events account for `[from, to)` without gap or overlap: the first
/// starts at `from`, each next one starts exactly where the previous one's
/// stretch ended, and the last stretch ends at `to`.
pub open spec fn spans_tile(s: Seq<u8>, ev: Seq<SysExEventModel>, from: int, to: int) -> bool
    decreases ev.len(),
{
    if ev.len() == 0 {
        from == to
    } else {
        event_pos(ev[0]) == from && exists|mid: int|
            #[trigger] event_spans(s, ev[0], from, mid) && spans_tile(
                s,
                ev.drop_first(),
                mid,
                to,
            )
    }
}

proof fn lemma_spans_singleton(s: Seq<u8>, e: SysExEventModel, from: int, mid: int)
    requires
        event_pos(e) == from,
        event_spans(s, e, from, mid),
    ensures
        spans_tile(s, seq![e], from, mid),
{
    assert(seq![e].drop_first() =~= Seq::<SysExEventModel>::empty());
    assert(spans_tile(s, Seq::<SysExEventModel>::empty(), mid, mid));
    assert(seq![e][0] == e);
    assert(event_spans(s, seq![e][0], from, mid) && spans_tile(
        s,
        seq![e].drop_first(),
        mid,
        mid,
    ));
}

proof fn lemma_spans_concat(
    s: Seq<u8>,
    a: Seq<SysExEventModel>,
    b: Seq<SysExEventModel>,
    from: int,
    m: int,
    to: int,
)
    requires
        spans_tile(s, a, from, m),
        spans_tile(s, b, m, to),
    ensures
        spans_tile(s, a + b, from, to),
    decreases a.len(),
{
    if a.len() == 0 {
        assert(a + b =~= b);
    } else {
        let mid = choose|mid: int|
            #[trigger] event_spans(s, a[0], from, mid) && spans_tile(s, a.drop_first(), mid, m);
        lemma_spans_concat(s, a.drop_first(), b, mid, m, to);
        assert((a + b)[0] == a[0]);
        assert((a + b).drop_first() =~= a.drop_first() + b);
        assert(event_spans(s, (a + b)[0], from, mid) && spans_tile(
            s,
            (a + b).drop_first(),
            mid,
            to,
        ));
    }
}

proof fn lemma_outside_spans(s: Seq<u8>, start: int, i: int, cap: int)
    requires
        0 <= start <= i <= s.len(),
    ensures
        spans_tile(s, scan_outside(s, start, i, cap), start, s.len() as int),
    decreases s.len() - i,
{
    let ev = scan_outside(s, start, i, cap);
    if i >= s.len() {
        if i > start {
            lemma_spans_singleton(s, ev[0], start, i);
            assert(ev =~= seq![ev[0]]);
        }
    } else if s[i] == SYSEX_START {
        proof_inside_entry(s, i);
        lemma_inside_spans(s, i, i + 1, Seq::empty(), cap);
        let rest = scan_inside(s, i, i + 1, Seq::empty(), cap);
        if i > start {
            let pre = seq![
                SysExEventModel::Skip {
                    pos: start,
                    len: i - start,
                    error: SysExReadError::NotSysEx,
                },
            ];
            lemma_spans_singleton(s, pre[0], start, i);
            assert(pre =~= seq![pre[0]]);
            lemma_spans_concat(s, pre, rest, start, i, s.len() as int);
        } else {
            assert(Seq::<SysExEventModel>::empty() + rest =~= rest);
        }
    } else {
        lemma_outside_spans(s, start, i + 1, cap);
    }
}

/// Opening a message at the start byte `i` leaves one non-real-time byte —
/// the delimiter itself — in the stretch seen so far.
proof fn proof_inside_entry(s: Seq<u8>, i: int)
    requires
        0 <= i < s.len(),
        !is_realtime(s[i]),
    ensures
        plain_count(s, i, i + 1) == 1,
{
    assert(plain_count(s, i, i) == 0);
}

proof fn lemma_inside_spans(s: Seq<u8>, start: int, i: int, payload: Seq<u8>, cap: int)
    requires
        0 <= start < i <= s.len(),
        plain_count(s, start, i) == payload.len() + 1,
    ensures
        spans_tile(s, scan_inside(s, start, i, payload, cap), start, s.len() as int),
    decreases s.len() - i,
{
    let ev = scan_inside(s, start, i, payload, cap);
    if i >= s.len() {
        lemma_spans_singleton(s, ev[0], start, s.len() as int);
        assert(ev =~= seq![ev[0]]);
    } else {
        let b = s[i];
        if b == SYSEX_END {
            let head = if payload.len() > cap {
                seq![
                    SysExEventModel::Skip {
                        pos: start,
                        len: i + 1 - start,
                        error: SysExReadError::Overflow,
                    },
                ]
            } else {
                seq![SysExEventModel::Message { pos: start, data: payload }]
            };
            assert(plain_count(s, start, i + 1) == payload.len() + 2);
            lemma_spans_singleton(s, head[0], start, i + 1);
            assert(head =~= seq![head[0]]);
            lemma_outside_spans(s, i + 1, i + 1, cap);
            lemma_spans_concat(
                s,
                head,
                scan_outside(s, i + 1, i + 1, cap),
                start,
                i + 1,
                s.len() as int,
            );
        } else if is_data(b) {
            assert(plain_count(s, start, i + 1) == payload.push(b).len() + 1);
            lemma_inside_spans(s, start, i + 1, payload.push(b), cap);
        } else if is_realtime(b) {
            assert(plain_count(s, start, i + 1) == payload.len() + 1);
            lemma_inside_spans(s, start, i + 1, payload, cap);
        } else if b == SYSEX_START {
            let head = seq![
                SysExEventModel::Skip {
                    pos: start,
                    len: i - start,
                    error: SysExReadError::UnexpectedByte,
                },
            ];
            lemma_spans_singleton(s, head[0], start, i);
            assert(head =~= seq![head[0]]);
            proof_inside_entry(s, i);
            lemma_inside_spans(s, i, i + 1, Seq::empty(), cap);
            lemma_spans_concat(
                s,
                head,
                scan_inside(s, i, i + 1, Seq::empty(), cap),
                start,
                i,
                s.len() as int,
            );
        } else {
            let head = seq![
                SysExEventModel::Skip {
                    pos: start,
                    len: i - start,
                    error: SysExReadError::UnexpectedByte,
                },
            ];
            lemma_spans_singleton(s, head[0], start, i);
            assert(head =~= seq![head[0]]);
            lemma_outside_spans(s, i, i + 1, cap);
            lemma_spans_concat(
                s,
                head,
                scan_outside(s, i, i + 1, cap),
                start,
                i,
                s.len() as int,
            );
        }
    }
}

/// Detector events cover the entire input, whatever it holds: the events'
/// stretches tile `[0, len)` in offset order, where a skip's stretch is its
/// reported length and a message's stretch holds exactly its payload and
/// two delimiters among the non-real-time bytes — the real-time bytes a
/// message consumed without copying belong to its stretch.
pub proof fn lemma_scan_spans_cover(s: Seq<u8>, cap: int)
    ensures
        spans_tile(s, spec_scan(s, cap), 0, s.len() as int),
{
    lemma_outside_spans(s, 0, 0, cap);
}

proof fn lemma_tiled_singleton(e: SysExEventModel, from: int)
    requires
        event_pos(e) == from,
    ensures
        tiled(seq![e], from, from + event_extent(e)),
{
    assert(seq![e].drop_first() =~= Seq::<SysExEventModel>::empty());
    assert(tiled(
        Seq::<SysExEventModel>::empty(),
        from + event_extent(e),
        from + event_extent(e),
    ));
}

proof fn lemma_tiled_concat(a: Seq<SysExEventModel>, b: Seq<SysExEventModel>, from: int, mid: int, to: int)
    requires
        tiled(a, from, mid),
        tiled(b, mid, to),
    ensures
        tiled(a + b, from, to),
    decreases a.len(),
{
    if a.len() == 0 {
        assert(a + b =~= b);
    } else {
        lemma_tiled_concat(a.drop_first(), b, from + event_extent(a[0]), mid, to);
        assert((a + b).drop_first() =~= a.drop_first() + b);
    }
}

proof fn lemma_ordered_weaken(ev: Seq<SysExEventModel>, a: int, b: int)
    requires
        ordered_from(ev, a),
        b <= a,
    ensures
        ordered_from(ev, b),
    decreases ev.len(),
{
    if ev.len() > 0 {
    }
}

proof fn lemma_outside_tiled(s: Seq<u8>, start: int, i: int, cap: int)
    requires
        0 <= start <= i <= s.len(),
        !has_realtime(s),
    ensures
        tiled(scan_outside(s, start, i, cap), start, s.len() as int),
    decreases s.len() - i,
{
    let ev = scan_outside(s, start, i, cap);
    if i >= s.len() {
        if i > start {
            lemma_tiled_singleton(ev[0], start);
            assert(ev =~= seq![ev[0]]);
        }
    } else if s[i] == SYSEX_START {
        lemma_inside_tiled(s, i, i + 1, Seq::empty(), cap);
        if i > start {
            let pre = seq![
                SysExEventModel::Skip {
                    pos: start,
                    len: i - start,
                    error: SysExReadError::NotSysEx,
                },
            ];
            lemma_tiled_singleton(pre[0], start);
            assert(pre =~= seq![pre[0]]);
            assert(tiled(pre, start, i));
            lemma_tiled_concat(pre, scan_inside(s, i, i + 1, Seq::empty(), cap), start, i, s.len() as int);
        } else {
            assert(Seq::<SysExEventModel>::empty() + scan_inside(s, i, i + 1, Seq::empty(), cap)
                =~= scan_inside(s, i, i + 1, Seq::empty(), cap));
        }
    } else {
        lemma_outside_tiled(s, start, i + 1, cap);
    }
}

proof fn lemma_inside_tiled(s: Seq<u8>, start: int, i: int, payload: Seq<u8>, cap: int)
    requires
        0 <= start < i <= s.len(),
        payload.len() == i - start - 1,
        !has_realtime(s),
    ensures
        tiled(scan_inside(s, start, i, payload, cap), start, s.len() as int),
    decreases s.len() - i,
{
    if i >= s.len() {
        let ev = scan_inside(s, start, i, payload, cap);
        lemma_tiled_singleton(ev[0], start);
        assert(ev =~= seq![ev[0]]);
    } else {
        let b = s[i];
        if b == SYSEX_END {
            let head = if payload.len() > cap {
                seq![
                    SysExEventModel::Skip {
                        pos: start,
                        len: i + 1 - start,
                        error: SysExReadError::Overflow,
                    },
                ]
            } else {
                seq![SysExEventModel::Message { pos: start, data: payload }]
            };
            lemma_tiled_singleton(head[0], start);
            assert(head =~= seq![head[0]]);
            assert(tiled(head, start, i + 1));
            lemma_outside_tiled(s, i + 1, i + 1, cap);
            lemma_tiled_concat(
                head,
                scan_outside(s, i + 1, i + 1, cap),
                start,
                i + 1,
                s.len() as int,
            );
        } else if is_data(b) {
            lemma_inside_tiled(s, start, i + 1, payload.push(b), cap);
        } else if is_realtime(b) {
            assert(has_realtime(s));
        } else if b == SYSEX_START {
            let head = seq![
                SysExEventModel::Skip {
                    pos: start,
                    len: i - start,
                    error: SysExReadError::UnexpectedByte,
                },
            ];
            lemma_tiled_singleton(head[0], start);
            assert(head =~= seq![head[0]]);
            lemma_inside_tiled(s, i, i + 1, Seq::empty(), cap);
            lemma_tiled_concat(
                head,
                scan_inside(s, i, i + 1, Seq::empty(), cap),
                start,
                i,
                s.len() as int,
            );
        } else {
            let head = seq![
                SysExEventModel::Skip {
                    pos: start,
                    len: i - start,
                    error: SysExReadError::UnexpectedByte,
                },
            ];
            lemma_tiled_singleton(head[0], start);
            assert(head =~= seq![head[0]]);
            lemma_outside_tiled(s, i, i + 1, cap);
            lemma_tiled_concat(head, scan_outside(s, i, i + 1, cap), start, i, s.len() as int);
        }
    }
}

proof fn lemma_tiled_ordered(ev: Seq<SysExEventModel>, from: int, to: int)
    requires
        tiled(ev, from, to),
    ensures
        ordered_from(ev, from),
    decreases ev.len(),
{
    if ev.len() > 0 {
        lemma_tiled_ordered(ev.drop_first(), from + event_extent(ev[0]), to);
    }
}

proof fn lemma_tiled_total(ev: Seq<SysExEventModel>, from: int, to: int)
    requires
        tiled(ev, from, to),
    ensures
        total_extent(ev) == to - from,
    decreases ev.len(),
{
    if ev.len() > 0 {
        lemma_tiled_total(ev.drop_first(), from + event_extent(ev[0]), to);
    }
}

proof fn lemma_ordered_singleton(e: SysExEventModel, from: int)
    requires
        event_pos(e) >= from,
    ensures
        ordered_from(seq![e], from),
{
    assert(seq![e].drop_first() =~= Seq::<SysExEventModel>::empty());
    assert(ordered_from(
        Seq::<SysExEventModel>::empty(),
        event_pos(e) + event_extent(e),
    ));
}

proof fn lemma_outside_ordered(s: Seq<u8>, start: int, i: int, cap: int)
    requires
        0 <= start <= i <= s.len(),
    ensures
        ordered_from(scan_outside(s, start, i, cap), start),
    decreases s.len() - i,
{
    let ev = scan_outside(s, start, i, cap);
    if i >= s.len() {
        if i > start {
            lemma_ordered_singleton(ev[0], start);
            assert(ev =~= seq![ev[0]]);
        }
    } else if s[i] == SYSEX_START {
        lemma_inside_ordered(s, i, i + 1, Seq::empty(), cap);
        let rest = scan_inside(s, i, i + 1, Seq::empty(), cap);
        if i > start {
            let pre = seq![
                SysExEventModel::Skip {
                    pos: start,
                    len: i - start,
                    error: SysExReadError::NotSysEx,
                },
            ];
            assert((pre + rest)[0] == pre[0]);
            assert((pre + rest).drop_first() =~= rest);
        } else {
            assert(Seq::<SysExEventModel>::empty() + rest =~= rest);
            lemma_ordered_weaken(rest, i, start);
        }
    } else {
        lemma_outside_ordered(s, start, i + 1, cap);
        lemma_ordered_weaken(scan_outside(s, start, i + 1, cap), start, start);
    }
}

proof fn lemma_inside_ordered(s: Seq<u8>, start: int, i: int, payload: Seq<u8>, cap: int)
    requires
        0 <= start < i <= s.len(),
        payload.len() <= i - start - 1,
    ensures
        ordered_from(scan_inside(s, start, i, payload, cap), start),
    decreases s.len() - i,
{
    if i >= s.len() {
        let ev = scan_inside(s, start, i, payload, cap);
        lemma_ordered_singleton(ev[0], start);
        assert(ev =~= seq![ev[0]]);
    } else {
        let b = s[i];
        if b == SYSEX_END {
            lemma_outside_ordered(s, i + 1, i + 1, cap);
            let rest = scan_outside(s, i + 1, i + 1, cap);
            let head = if payload.len() > cap {
                seq![
                    SysExEventModel::Skip {
                        pos: start,
                        len: i + 1 - start,
                        error: SysExReadError::Overflow,
                    },
                ]
            } else {
                seq![SysExEventModel::Message { pos: start, data: payload }]
            };
            assert((head + rest)[0] == head[0]);
            assert((head + rest).drop_first() =~= rest);
            lemma_ordered_weaken(rest, i + 1, event_pos(head[0]) + event_extent(head[0]));
        } else if is_data(b) {
            lemma_inside_ordered(s, start, i + 1, payload.push(b), cap);
        } else if is_realtime(b) {
            lemma_inside_ordered(s, start, i + 1, payload, cap);
        } else if b == SYSEX_START {
            lemma_inside_ordered(s, i, i + 1, Seq::empty(), cap);
            let rest = scan_inside(s, i, i + 1, Seq::empty(), cap);
            let head = seq![
                SysExEventModel::Skip {
                    pos: start,
                    len: i - start,
                    error: SysExReadError::UnexpectedByte,
                },
            ];
            assert((head + rest)[0] == head[0]);
            assert((head + rest).drop_first() =~= rest);
        } else {
            lemma_outside_ordered(s, i, i + 1, cap);
            let rest = scan_outside(s, i, i + 1, cap);
            let head = seq![
                SysExEventModel::Skip {
                    pos: start,
                    len: i - start,
                    error: SysExReadError::UnexpectedByte,
                },
            ];
            assert((head + rest)[0] == head[0]);
            assert((head + rest).drop_first() =~= rest);
        }
    }
}

/// Detector offsets are monotonic: every event of a scan starts at or after
/// the point where the previous event's reported extent ended, beginning at
/// offset zero.
pub proof fn lemma_scan_ordered(s: Seq<u8>, cap: int)
    ensures
        ordered_from(spec_scan(s, cap), 0),
{
    lemma_outside_ordered(s, 0, 0, cap);
}

/// Detector events cover the entire input: when the input holds no
/// real-time byte, the events tile `[0, len)` without gap or overlap, and
/// the sum of the reported extents — skip lengths, and message payload
/// lengths plus their two delimiters — equals the input's length.
///
/// Real-time bytes are consumed without appearing in any payload, so on
/// inputs that contain them inside a message the extents undercount;
/// `lemma_scan_spans_cover` states the coverage that holds then.
pub proof fn lemma_scan_covers(s: Seq<u8>, cap: int)
    requires
        !has_realtime(s),
    ensures
        tiled(spec_scan(s, cap), 0, s.len() as int),
        total_extent(spec_scan(s, cap)) == s.len(),
{
    lemma_outside_tiled(s, 0, 0, cap);
    lemma_tiled_total(spec_scan(s, cap), 0, s.len() as int);
}

} // verus!

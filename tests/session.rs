use funnyprint::session::{Opening, OpeningStage, OpeningStep};
use funnyprint::codec::{NotifyEvent, StatusEvent, PRINTER_SERVICE_UUID, READ_UUID, WRITE_UUID};
use funnyprint::session::{
    check_job, handshake_a_answered, handshake_b_outcome, is_candidate, same_address,
    select_characteristics, to_wire_u16, CharInfo, DriverError, Step, Streamer,
};

fn ch(uuid: u128, write: bool, wnr: bool, notify: bool) -> CharInfo {
    CharInfo { uuid, write, write_without_response: wnr, notify }
}

#[test]
fn job_checks() {
    assert_eq!(check_job(3, 8), Err(DriverError::InvalidDensity));
    assert_eq!(check_job(0, 8), Err(DriverError::InvalidDensity));
    assert_eq!(check_job(0, 7), Err(DriverError::NoLines));
    assert_eq!(check_job(1, 0), Ok(()));
}

#[test]
fn wire_numbers_are_sixteen_bits() {
    assert_eq!(to_wire_u16(300), 300);
    assert_eq!(to_wire_u16(65536 + 5), 5);
}

#[test]
fn lost_rewinds_cursor() {
    let mut s = Streamer::new(10);
    for _ in 0..8 {
        s.next_step();
    }
    s.idle = 3;
    s.on_notify(NotifyEvent::Lost { line_no: 7 });
    assert_eq!(s.cursor, 6);
    assert_eq!(s.idle, 0);
    s.on_notify(NotifyEvent::Lost { line_no: 0 });
    assert_eq!(s.cursor, 0);
}

#[test]
fn other_notifications_change_nothing() {
    let mut s = Streamer::new(4);
    s.next_step();
    let before = s;
    s.on_notify(NotifyEvent::Paused);
    s.on_notify(NotifyEvent::Other);
    s.on_notify(NotifyEvent::Handshake0a);
    s.on_notify(NotifyEvent::Status(StatusEvent { battery: 1, no_paper: true, overheat: true }));
    assert_eq!(s, before);
}

#[test]
fn streams_lines_in_order_then_idles() {
    let mut s = Streamer::new(2);
    assert_eq!(s.next_step(), Step::Send { index: 0, line_no: 0 });
    assert_eq!(s.next_step(), Step::Send { index: 1, line_no: 1 });
    assert_eq!(s.next_step(), Step::Idle { last: false });
    assert_eq!(s.idle, 1);
}

#[test]
fn gives_up_after_fifty_idle_passes() {
    let mut s = Streamer::new(1);
    s.next_step();
    let mut passes = 0;
    loop {
        passes += 1;
        if let Step::Idle { last: true } = s.next_step() {
            break;
        }
    }
    assert_eq!(passes, 51);
}

#[test]
fn finished_stops_the_session() {
    let mut s = Streamer::new(5);
    s.on_notify(NotifyEvent::Finished);
    assert_eq!(s.next_step(), Step::Stop);
}

#[test]
fn handshake_answers() {
    assert!(handshake_a_answered(NotifyEvent::Handshake0a));
    assert!(!handshake_a_answered(NotifyEvent::Paused));
    assert_eq!(handshake_b_outcome(NotifyEvent::Handshake0b { ok: true }), Some(Ok(())));
    assert_eq!(
        handshake_b_outcome(NotifyEvent::Handshake0b { ok: false }),
        Some(Err(DriverError::HandshakeRejected))
    );
    assert_eq!(handshake_b_outcome(NotifyEvent::Finished), None);
}

#[test]
fn candidates() {
    assert!(is_candidate(&vec![1, PRINTER_SERVICE_UUID], false));
    assert!(is_candidate(&vec![], true));
    assert!(!is_candidate(&vec![1, 2], false));
}

#[test]
fn characteristic_selection() {
    let chars = vec![
        ch(WRITE_UUID, true, false, false),
        ch(READ_UUID, false, false, true),
        ch(WRITE_UUID, false, true, false),
    ];
    assert_eq!(select_characteristics(&chars), Ok((2, 1)));
    assert!(chars[2].prefers_write_without_response());
    assert!(!chars[0].prefers_write_without_response());
}

#[test]
fn characteristic_errors() {
    assert_eq!(
        select_characteristics(&vec![ch(READ_UUID, false, false, true)]),
        Err(DriverError::WriteCharMissing)
    );
    assert_eq!(
        select_characteristics(&vec![ch(WRITE_UUID, true, false, false)]),
        Err(DriverError::ReadCharMissing)
    );
    assert_eq!(
        select_characteristics(&vec![
            ch(WRITE_UUID, false, false, false),
            ch(READ_UUID, false, false, true)
        ]),
        Err(DriverError::WriteCharNotWritable)
    );
    assert_eq!(
        select_characteristics(&vec![
            ch(WRITE_UUID, true, false, false),
            ch(READ_UUID, false, false, false)
        ]),
        Err(DriverError::ReadCharNoNotify)
    );
}

#[test]
fn addresses_compare_loosely() {
    assert!(same_address("aa-bb-cc-dd-ee-ff", "AA:BB:CC:DD:EE:FF"));
    assert!(!same_address("AA:BB:CC:DD:EE:FF", "AA:BB:CC:DD:EE:F0"));
    assert!(!same_address("AA:BB", "AA:BB:CC"));
}

#[test]
fn opening_runs_both_handshakes() {
    let mut o = Opening::new();
    assert_eq!(o.step(None, false), OpeningStep::Wait);
    assert_eq!(o.step(Some(NotifyEvent::Paused), false), OpeningStep::Wait);
    assert_eq!(o.step(Some(NotifyEvent::Handshake0a), false), OpeningStep::SendHandshakeB);
    assert_eq!(o.stage, OpeningStage::AwaitHandshakeB);
    assert_eq!(o.step(Some(NotifyEvent::Handshake0a), false), OpeningStep::Wait);
    assert_eq!(o.step(Some(NotifyEvent::Handshake0b { ok: true }), false), OpeningStep::Start);
    assert_eq!(o.stage, OpeningStage::Ready);
}

#[test]
fn opening_failures() {
    let mut o = Opening::new();
    assert_eq!(o.step(None, true), OpeningStep::Fail(DriverError::HandshakeATimeout));
    let mut o = Opening::new();
    o.step(Some(NotifyEvent::Handshake0a), false);
    assert_eq!(o.step(None, true), OpeningStep::Fail(DriverError::HandshakeBTimeout));
    assert_eq!(
        o.step(Some(NotifyEvent::Handshake0b { ok: false }), false),
        OpeningStep::Fail(DriverError::HandshakeRejected)
    );
}

//! Decisions of a print session. The transport runs the session and reports
//! what the printer said; these functions say what to do next.
use vstd::prelude::*;

use crate::codec::{NotifyEvent, PRINTER_SERVICE_UUID, READ_UUID, WRITE_UUID};

verus! {

/// Why a session cannot start or had to stop.
#[derive(Debug, Clone, Copy, PartialEq, Eq, Structural)]
pub enum DriverError {
    /// The density is outside `0..=7`.
    InvalidDensity,
    /// There are no lines to print.
    NoLines,
    /// The peripheral has no write characteristic.
    WriteCharMissing,
    /// The peripheral has no notify characteristic.
    ReadCharMissing,
    /// The write characteristic takes neither kind of write.
    WriteCharNotWritable,
    /// The notify characteristic does not notify.
    ReadCharNoNotify,
    /// The printer refused the second handshake.
    HandshakeRejected,
    /// The first handshake went unanswered within its time.
    HandshakeATimeout,
    /// The second handshake went unanswered within its time.
    HandshakeBTimeout,
}

pub const MAX_DENSITY: u8 = 7;

/// Passes in a row without a line to send after which the session ends even
/// though the printer has not said it finished.
pub const MAX_IDLE_PASSES: usize = 50;

/// A job can start when its density is at most 7 and it has at least one line.
pub fn check_job(num_lines: usize, density: u8) -> (r: Result<(), DriverError>)
    ensures
        density > MAX_DENSITY ==> r == Err::<(), DriverError>(DriverError::InvalidDensity),
        density <= MAX_DENSITY && num_lines == 0 ==> r == Err::<(), DriverError>(
            DriverError::NoLines,
        ),
        density <= MAX_DENSITY && num_lines > 0 ==> r is Ok,
{
    if density > MAX_DENSITY {
        Err(DriverError::InvalidDensity)
    } else if num_lines == 0 {
        Err(DriverError::NoLines)
    } else {
        Ok(())
    }
}

/// A line count or line number as the wire carries it: 16 bits.
pub open spec fn wire_u16(n: int) -> u16 {
    (n % 65536) as u16
}

pub fn to_wire_u16(n: usize) -> (r: u16)
    ensures
        r == wire_u16(n as int),
{
    (n % 65536) as u16
}

// ---------------------------------------------------------------------------
// Discovery and characteristics
// ---------------------------------------------------------------------------

/// A device is offered as a printer when it advertises the printer service or has a name.
pub fn is_candidate(services: &Vec<u128>, has_local_name: bool) -> (r: bool)
    ensures
        r == (has_local_name || exists|i: int|
            0 <= i < services@.len() && #[trigger] services@[i] == PRINTER_SERVICE_UUID),
{
    let mut i: usize = 0;
    while i < services.len()
        invariant
            i <= services@.len(),
            forall|j: int| 0 <= j < i ==> #[trigger] services@[j] != PRINTER_SERVICE_UUID,
        decreases services.len() - i,
    {
        if services[i] == PRINTER_SERVICE_UUID {
            return true;
        }
        i = i + 1;
    }
    has_local_name
}

/// A GATT characteristic as the session sees it.
#[derive(Debug, Clone, Copy, PartialEq, Eq, Structural)]
pub struct CharInfo {
    pub uuid: u128,
    pub write: bool,
    pub write_without_response: bool,
    pub notify: bool,
}

impl CharInfo {
    /// Writes go without response when the characteristic takes them.
    pub fn prefers_write_without_response(&self) -> (r: bool)
        ensures
            r == self.write_without_response,
    {
        self.write_without_response
    }
}

/// `i` is the last characteristic with this UUID.
pub open spec fn is_last_with(chars: Seq<CharInfo>, uuid: u128, i: int) -> bool {
    0 <= i < chars.len() && chars[i].uuid == uuid && forall|j: int|
        i < j < chars.len() ==> #[trigger] chars[j].uuid != uuid
}

pub open spec fn has_uuid(chars: Seq<CharInfo>, uuid: u128) -> bool {
    exists|i: int| 0 <= i < chars.len() && #[trigger] chars[i].uuid == uuid
}

fn find_last(chars: &Vec<CharInfo>, uuid: u128) -> (r: Option<usize>)
    ensures
        r is None <==> !has_uuid(chars@, uuid),
        r matches Some(i) ==> is_last_with(chars@, uuid, i as int),
{
    let mut i: usize = chars.len();
    while i > 0
        invariant
            i <= chars@.len(),
            forall|j: int| i <= j < chars@.len() ==> #[trigger] chars@[j].uuid != uuid,
        decreases i,
    {
        if chars[i - 1].uuid == uuid {
            return Some(i - 1);
        }
        i = i - 1;
    }
    None
}

/// Picks the write and notify characteristics (the last of each UUID) and checks
/// that they can do their part. Returns their positions.
pub fn select_characteristics(chars: &Vec<CharInfo>) -> (r: Result<(usize, usize), DriverError>)
    ensures
        !has_uuid(chars@, WRITE_UUID) <==> r == Err::<(usize, usize), DriverError>(
            DriverError::WriteCharMissing,
        ),
        has_uuid(chars@, WRITE_UUID) && !has_uuid(chars@, READ_UUID) <==> r == Err::<
            (usize, usize),
            DriverError,
        >(DriverError::ReadCharMissing),
        (has_uuid(chars@, WRITE_UUID) && has_uuid(chars@, READ_UUID) && exists|w: int, n: int|
            is_last_with(chars@, WRITE_UUID, w) && (chars@[w].write
                || chars@[w].write_without_response) && is_last_with(chars@, READ_UUID, n)
                && chars@[n].notify) ==> r is Ok,
        r matches Ok((w, n)) ==> is_last_with(chars@, WRITE_UUID, w as int) && is_last_with(
            chars@,
            READ_UUID,
            n as int,
        ) && (chars@[w as int].write || chars@[w as int].write_without_response)
            && chars@[n as int].notify,
        r == Err::<(usize, usize), DriverError>(DriverError::WriteCharNotWritable) <==> (
        has_uuid(chars@, WRITE_UUID) && has_uuid(chars@, READ_UUID) && exists|w: int|
            is_last_with(chars@, WRITE_UUID, w) && !chars@[w].write
                && !chars@[w].write_without_response),
        r == Err::<(usize, usize), DriverError>(DriverError::ReadCharNoNotify) <==> (has_uuid(
            chars@,
            WRITE_UUID,
        ) && has_uuid(chars@, READ_UUID) && exists|w: int, n: int|
            is_last_with(chars@, WRITE_UUID, w) && (chars@[w].write
                || chars@[w].write_without_response) && is_last_with(chars@, READ_UUID, n)
                && !chars@[n].notify),
        r is Ok || r == Err::<(usize, usize), DriverError>(DriverError::WriteCharMissing) || r
            == Err::<(usize, usize), DriverError>(DriverError::ReadCharMissing) || r == Err::<
            (usize, usize),
            DriverError,
        >(DriverError::WriteCharNotWritable) || r == Err::<(usize, usize), DriverError>(
            DriverError::ReadCharNoNotify,
        ),
{
    let w = match find_last(chars, WRITE_UUID) {
        Some(w) => w,
        None => {
            return Err(DriverError::WriteCharMissing);
        },
    };
    let n = match find_last(chars, READ_UUID) {
        Some(n) => n,
        None => {
            return Err(DriverError::ReadCharMissing);
        },
    };
    proof {
        lemma_last_unique(chars@, WRITE_UUID, w as int);
        lemma_last_unique(chars@, READ_UUID, n as int);
    }
    if !chars[w].write_without_response && !chars[w].write {
        return Err(DriverError::WriteCharNotWritable);
    }
    if !chars[n].notify {
        return Err(DriverError::ReadCharNoNotify);
    }
    Ok((w, n))
}

proof fn lemma_last_unique(chars: Seq<CharInfo>, uuid: u128, i: int)
    requires
        is_last_with(chars, uuid, i),
    ensures
        forall|k: int| is_last_with(chars, uuid, k) ==> k == i,
{
    assert forall|k: int| is_last_with(chars, uuid, k) implies k == i by {
        if k < i {
            assert(chars[i].uuid != uuid);
        } else if k > i {
            assert(chars[k].uuid != uuid);
        }
    }
}

// ---------------------------------------------------------------------------
// Address matching
// ---------------------------------------------------------------------------

/// A character of an address as it is compared: `-` reads as `:`, letters in upper case.
pub open spec fn address_char(c: char) -> char {
    if c == '-' {
        ':'
    } else if 'a' <= c && c <= 'z' {
        ((c as u8) - 32) as char
    } else {
        c
    }
}

pub open spec fn normalized_address(s: Seq<char>) -> Seq<char> {
    s.map_values(|c: char| address_char(c))
}

fn fold_address_char(c: char) -> (r: char)
    ensures
        r == address_char(c),
{
    if c == '-' {
        ':'
    } else if 'a' <= c && c <= 'z' {
        ((c as u8) - 32) as char
    } else {
        c
    }
}

/// Two addresses name the same device when they agree after `-` is read as `:`
/// and letters are taken in upper case.
pub fn same_address(a: &str, b: &str) -> (r: bool)
    ensures
        r == (normalized_address(a@) == normalized_address(b@)),
{
    let n = a.unicode_len();
    let m = b.unicode_len();
    if n != m {
        proof {
            assert(normalized_address(a@).len() != normalized_address(b@).len());
        }
        return false;
    }
    let mut i: usize = 0;
    while i < n
        invariant
            i <= n,
            n == a@.len(),
            m == b@.len(),
            n == m,
            forall|j: int| 0 <= j < i ==> address_char(#[trigger] a@[j]) == address_char(b@[j]),
        decreases n - i,
    {
        let ca = fold_address_char(a.get_char(i));
        let cb = fold_address_char(b.get_char(i));
        if ca != cb {
            proof {
                assert(normalized_address(a@)[i as int] != normalized_address(b@)[i as int]);
            }
            return false;
        }
        i = i + 1;
    }
    proof {
        assert(normalized_address(a@) =~= normalized_address(b@));
    }
    true
}

// ---------------------------------------------------------------------------
// Handshake
// ---------------------------------------------------------------------------

/// The first handshake is answered by a `Handshake0a` notification.
pub fn handshake_a_answered(ev: NotifyEvent) -> (r: bool)
    ensures
        r == (ev == NotifyEvent::Handshake0a),
{
    match ev {
        NotifyEvent::Handshake0a => true,
        _ => false,
    }
}

/// The second handshake's answer: `None` while the notification is another one.
pub fn handshake_b_outcome(ev: NotifyEvent) -> (r: Option<Result<(), DriverError>>)
    ensures
        ev == (NotifyEvent::Handshake0b { ok: true }) ==> r == Some(Ok::<(), DriverError>(())),
        ev == (NotifyEvent::Handshake0b { ok: false }) ==> r == Some(
            Err::<(), DriverError>(DriverError::HandshakeRejected),
        ),
        !(ev is Handshake0b) ==> r is None,
{
    match ev {
        NotifyEvent::Handshake0b { ok } => {
            if ok {
                Some(Ok(()))
            } else {
                Some(Err(DriverError::HandshakeRejected))
            }
        },
        _ => None,
    }
}

// ---------------------------------------------------------------------------
// Opening
// ---------------------------------------------------------------------------

/// Seconds that each handshake may take.
pub const HANDSHAKE_SECONDS: u64 = 5;

/// Where the opening of a session stands. It starts once the hardware-info and
/// first-handshake frames are sent.
#[derive(Debug, Clone, Copy, PartialEq, Eq, Structural)]
pub enum OpeningStage {
    AwaitHandshakeA,
    AwaitHandshakeB,
    Ready,
}

/// What the transport does after one look at the notifications.
#[derive(Debug, Clone, Copy, PartialEq, Eq, Structural)]
pub enum OpeningStep {
    /// Keep listening.
    Wait,
    /// Send the second handshake and restart the clock.
    SendHandshakeB,
    /// Send the density and the begin event, then stream lines.
    Start,
    /// End the session with this error.
    Fail(DriverError),
}

/// The opening of a session: the first handshake's answer, then the second's.
#[derive(Debug, Clone, Copy, PartialEq, Eq, Structural)]
pub struct Opening {
    pub stage: OpeningStage,
}

impl Opening {
    pub fn new() -> (r: Opening)
        ensures
            r.stage == OpeningStage::AwaitHandshakeA,
    {
        Opening { stage: OpeningStage::AwaitHandshakeA }
    }

    /// Takes in what one look at the notifications gave (`event`, if any) and
    /// whether the current handshake's time is up.
    pub fn step(&mut self, event: Option<NotifyEvent>, time_up: bool) -> (r: OpeningStep)
        ensures
            match old(self).stage {
                OpeningStage::AwaitHandshakeA => if event == Some(NotifyEvent::Handshake0a) {
                    r == OpeningStep::SendHandshakeB && final(self).stage
                        == OpeningStage::AwaitHandshakeB
                } else if time_up {
                    r == OpeningStep::Fail(DriverError::HandshakeATimeout) && *final(self) == *old(
                        self,
                    )
                } else {
                    r == OpeningStep::Wait && *final(self) == *old(self)
                },
                OpeningStage::AwaitHandshakeB => if event == Some(
                    NotifyEvent::Handshake0b { ok: true },
                ) {
                    r == OpeningStep::Start && final(self).stage == OpeningStage::Ready
                } else if event == Some(NotifyEvent::Handshake0b { ok: false }) {
                    r == OpeningStep::Fail(DriverError::HandshakeRejected) && *final(self) == *old(
                        self,
                    )
                } else if time_up {
                    r == OpeningStep::Fail(DriverError::HandshakeBTimeout) && *final(self) == *old(
                        self,
                    )
                } else {
                    r == OpeningStep::Wait && *final(self) == *old(self)
                },
                OpeningStage::Ready => r == OpeningStep::Start && *final(self) == *old(self),
            },
    {
        match self.stage {
            OpeningStage::AwaitHandshakeA => {
                let answered = match event {
                    Some(ev) => handshake_a_answered(ev),
                    None => false,
                };
                if answered {
                    self.stage = OpeningStage::AwaitHandshakeB;
                    OpeningStep::SendHandshakeB
                } else if time_up {
                    OpeningStep::Fail(DriverError::HandshakeATimeout)
                } else {
                    OpeningStep::Wait
                }
            },
            OpeningStage::AwaitHandshakeB => {
                let outcome = match event {
                    Some(ev) => handshake_b_outcome(ev),
                    None => None,
                };
                match outcome {
                    Some(Ok(())) => {
                        self.stage = OpeningStage::Ready;
                        OpeningStep::Start
                    },
                    Some(Err(e)) => OpeningStep::Fail(e),
                    None => {
                        if time_up {
                            OpeningStep::Fail(DriverError::HandshakeBTimeout)
                        } else {
                            OpeningStep::Wait
                        }
                    },
                }
            },
            OpeningStage::Ready => OpeningStep::Start,
        }
    }
}

// ---------------------------------------------------------------------------
// Streaming
// ---------------------------------------------------------------------------

/// What the transport does next while streaming lines.
#[derive(Debug, Clone, Copy, PartialEq, Eq, Structural)]
pub enum Step {
    /// Send line `index` under wire number `line_no`, then pause briefly.
    Send { index: usize, line_no: u16 },
    /// Wait for the printer; stop afterwards when `last`.
    Idle { last: bool },
    /// The printer finished: end the session.
    Stop,
}

/// The streaming state: the next line to send and the idle passes since the last rewind.
#[derive(Debug, Clone, Copy, PartialEq, Eq, Structural)]
pub struct Streamer {
    pub num_lines: usize,
    pub cursor: usize,
    pub idle: usize,
    pub finished: bool,
}

/// The cursor after the printer asks for line `line_no` (numbered from 1).
pub open spec fn rewind_cursor(line_no: u16) -> usize {
    if line_no == 0 {
        0
    } else {
        (line_no - 1) as usize
    }
}

impl Streamer {
    pub fn new(num_lines: usize) -> (r: Streamer)
        ensures
            r == (Streamer { num_lines, cursor: 0, idle: 0, finished: false }),
    {
        Streamer { num_lines, cursor: 0, idle: 0, finished: false }
    }

    /// Takes in a notification: `Lost` rewinds to the line asked for, `Finished`
    /// ends the session, anything else changes nothing.
    pub fn on_notify(&mut self, ev: NotifyEvent)
        ensures
            match ev {
                NotifyEvent::Lost { line_no } => *final(self) == (Streamer {
                    cursor: rewind_cursor(line_no),
                    idle: 0,
                    ..*old(self)
                }),
                NotifyEvent::Finished => *final(self) == (Streamer { finished: true, ..*old(self) }),
                _ => *final(self) == *old(self),
            },
    {
        match ev {
            NotifyEvent::Lost { line_no } => {
                self.cursor = if line_no == 0 {
                    0
                } else {
                    (line_no - 1) as usize
                };
                self.idle = 0;
            },
            NotifyEvent::Finished => {
                self.finished = true;
            },
            _ => {},
        }
    }

    /// The next step: stop once finished; else send the line under the cursor
    /// and move on; else wait, and give up after more than 50 idle passes.
    pub fn next_step(&mut self) -> (r: Step)
        ensures
            old(self).finished ==> r == Step::Stop && *final(self) == *old(self),
            !old(self).finished && old(self).cursor < old(self).num_lines ==> r == (Step::Send {
                index: old(self).cursor,
                line_no: wire_u16(old(self).cursor as int),
            }) && *final(self) == (Streamer { cursor: (old(self).cursor + 1) as usize, ..*old(self) }),
            !old(self).finished && old(self).cursor >= old(self).num_lines ==> r == (Step::Idle {
                last: old(self).idle + 1 > MAX_IDLE_PASSES,
            }) && *final(self) == (Streamer {
                idle: if old(self).idle < usize::MAX {
                    (old(self).idle + 1) as usize
                } else {
                    old(self).idle
                },
                ..*old(self)
            }),
    {
        if self.finished {
            return Step::Stop;
        }
        if self.cursor < self.num_lines {
            let index = self.cursor;
            self.cursor = self.cursor + 1;
            Step::Send { index, line_no: to_wire_u16(index) }
        } else {
            let last = self.idle >= MAX_IDLE_PASSES;
            if self.idle < usize::MAX {
                self.idle = self.idle + 1;
            }
            Step::Idle { last }
        }
    }
}

} // verus!

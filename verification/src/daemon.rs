//! The background process: when it looks at the clipboard, and what it does
//! with what it finds there.

use vstd::prelude::*;

use crate::device::{holds_text, optional_text};
use crate::error::{Error, ErrorKind};

verus! {

/// How often this device announces itself, in milliseconds.
pub const ANNOUNCE_EVERY: u64 = 15_000;

/// How often the clipboard is looked at though no change was reported, in
/// milliseconds.
pub const LOOK_EVERY: u64 = 2_000;

/// How long to wait for the report of a change, in milliseconds.
pub const WAIT_FOR_CHANGE: u64 = 500;

/// How long to wait after a text that came from another device was seen on the
/// clipboard, in milliseconds.
pub const PAUSE_AFTER_ECHO: u64 = 350;

/// A time that much later, both in milliseconds; the latest time there is,
/// where it would be later than that.
pub open spec fn later(time: u64, delay: u64) -> u64 {
    if time + delay > u64::MAX {
        u64::MAX
    } else {
        (time + delay) as u64
    }
}

fn later_by(time: u64, delay: u64) -> (res: u64)
    ensures
        res == later(time, delay),
{
    if time > u64::MAX - delay {
        u64::MAX
    } else {
        time + delay
    }
}

/// What the background process remembers of the clipboard. Times are in
/// milliseconds of one clock.
#[derive(Debug)]
pub struct Watcher {
    pub last_change_count: Option<u64>,
    pub last_seen_text: Option<String>,
    pub next_look: u64,
    pub next_announce: u64,
}

/// What a watcher remembers, as mathematical values.
#[verifier::ext_equal]
pub struct Watch {
    pub last_change_count: Option<u64>,
    pub last_seen_text: Option<Seq<char>>,
    pub next_look: u64,
    pub next_announce: u64,
}

impl View for Watcher {
    type V = Watch;

    open spec fn view(&self) -> Watch {
        Watch {
            last_change_count: self.last_change_count,
            last_seen_text: optional_text(self.last_seen_text),
            next_look: self.next_look,
            next_announce: self.next_announce,
        }
    }
}

/// What asking the clipboard for its number of changes gave.
#[derive(Clone, Copy, Debug, PartialEq, Eq, Structural)]
pub enum ChangeCount {
    Number(u64),
    /// The clipboard does not count.
    Uncounted,
    Failed,
}

/// What reading the clipboard gave.
#[derive(Debug, PartialEq, Eq)]
pub enum Reading {
    Text(String),
    /// Nothing, or no text.
    Empty,
    Failed,
}

/// What reading the clipboard gave, as mathematical values.
pub enum Read {
    Text(Seq<char>),
    Empty,
    Failed,
}

impl View for Reading {
    type V = Read;

    open spec fn view(&self) -> Read {
        match self {
            Reading::Text(text) => Read::Text(text@),
            Reading::Empty => Read::Empty,
            Reading::Failed => Read::Failed,
        }
    }
}

/// What is done about the clipboard.
#[derive(Debug, PartialEq, Eq)]
pub enum Response {
    Nothing,
    /// The text came from another device: it is not sent back. A pause
    /// follows.
    Suppress,
    /// The text is sent to the trusted devices.
    Broadcast(String),
}

/// What is done about the clipboard, as mathematical values.
pub enum Reply {
    Nothing,
    Suppress,
    Broadcast(Seq<char>),
}

impl View for Response {
    type V = Reply;

    open spec fn view(&self) -> Reply {
        match self {
            Response::Nothing => Reply::Nothing,
            Response::Suppress => Reply::Suppress,
            Response::Broadcast(text) => Reply::Broadcast(text@),
        }
    }
}

/// What is remembered once the number of changes was asked for, and whether
/// the clipboard is read: where its number changed or is not to be had, where a
/// change was reported, and where it is time to look anyway.
pub open spec fn looked(watch: Watch, now: u64, reported: bool, count: ChangeCount) -> (
    Watch,
    bool,
) {
    let due = now >= watch.next_look;
    let timed = Watch {
        next_look: if due {
            later(now, LOOK_EVERY)
        } else {
            watch.next_look
        },
        ..watch
    };
    match count {
        ChangeCount::Number(number) => if watch.last_change_count == Some(number) {
            (timed, reported || due)
        } else {
            (Watch { last_change_count: Some(number), ..timed }, true)
        },
        ChangeCount::Uncounted => (timed, reported || due),
        ChangeCount::Failed => (timed, true),
    }
}

/// Whether a text is the one that was received last and not yet seen on the
/// clipboard; it then counts as seen.
pub open spec fn suppressing(suppressed: Option<Seq<char>>, text: Seq<char>) -> (
    bool,
    Option<Seq<char>>,
) {
    if suppressed == Some(text) {
        (true, None)
    } else {
        (false, suppressed)
    }
}

/// Whether a text is the one that was received last and not yet seen on the
/// clipboard; it then counts as seen.
pub fn should_suppress(suppressed: &mut Option<String>, text: &str) -> (res: bool)
    ensures
        (res, optional_text(*final(suppressed))) == suppressing(
            optional_text(*old(suppressed)),
            text@,
        ),
{
    if holds_text(suppressed, text) {
        *suppressed = None;
        true
    } else {
        false
    }
}

/// What is remembered once the clipboard was read, which received text is
/// still to be seen on it, and what is done.
pub open spec fn responding(watch: Watch, suppressed: Option<Seq<char>>, read: Read) -> (
    Watch,
    Option<Seq<char>>,
    Reply,
) {
    match read {
        Read::Text(text) => if watch.last_seen_text == Some(text) {
            (watch, suppressed, Reply::Nothing)
        } else {
            let seen = Watch { last_seen_text: Some(text), ..watch };
            let (echo, left) = suppressing(suppressed, text);
            if echo {
                (seen, left, Reply::Suppress)
            } else {
                (seen, left, Reply::Broadcast(text))
            }
        },
        Read::Empty => (Watch { last_seen_text: None, ..watch }, suppressed, Reply::Nothing),
        Read::Failed => (watch, suppressed, Reply::Nothing),
    }
}

impl Watcher {
    /// A watcher at its start: what is on the clipboard then is not sent, and
    /// this device announces itself at once.
    pub fn new(now: u64, change_count: Option<u64>, text: Option<String>) -> (res: Watcher)
        ensures
            res@ == (Watch {
                last_change_count: change_count,
                last_seen_text: optional_text(text),
                next_look: later(now, LOOK_EVERY),
                next_announce: now,
            }),
    {
        Watcher {
            last_change_count: change_count,
            last_seen_text: text,
            next_look: later_by(now, LOOK_EVERY),
            next_announce: now,
        }
    }

    /// Whether it is time for this device to announce itself.
    pub fn announce_due(&self, now: u64) -> (res: bool)
        ensures
            res == (now >= self@.next_announce),
    {
        now >= self.next_announce
    }

    /// This device has announced itself.
    pub fn announced(&mut self, now: u64)
        ensures
            final(self)@ == (Watch { next_announce: later(now, ANNOUNCE_EVERY), ..old(self)@ }),
    {
        self.next_announce = later_by(now, ANNOUNCE_EVERY);
    }

    /// Takes up the number of changes, and says whether the clipboard is to be
    /// read.
    pub fn look(&mut self, now: u64, reported: bool, count: ChangeCount) -> (res: bool)
        ensures
            (final(self)@, res) == looked(old(self)@, now, reported, count),
    {
        let due = now >= self.next_look;
        if due {
            self.next_look = later_by(now, LOOK_EVERY);
        }
        match count {
            ChangeCount::Number(number) => {
                let known = match self.last_change_count {
                    Some(last) => last == number,
                    None => false,
                };
                if known {
                    reported || due
                } else {
                    self.last_change_count = Some(number);
                    true
                }
            },
            ChangeCount::Uncounted => reported || due,
            ChangeCount::Failed => true,
        }
    }

    /// Takes up what reading the clipboard gave, and says what is to be done.
    pub fn respond(&mut self, reading: Reading, suppressed: &mut Option<String>) -> (res: Response)
        ensures
            (final(self)@, optional_text(*final(suppressed)), res@) == responding(
                old(self)@,
                optional_text(*old(suppressed)),
                reading@,
            ),
    {
        match reading {
            Reading::Text(text) => {
                if holds_text(&self.last_seen_text, text.as_str()) {
                    return Response::Nothing;
                }
                self.last_seen_text = Some(text.clone());
                if should_suppress(suppressed, text.as_str()) {
                    Response::Suppress
                } else {
                    Response::Broadcast(text)
                }
            },
            Reading::Empty => {
                self.last_seen_text = None;
                Response::Nothing
            },
            Reading::Failed => Response::Nothing,
        }
    }
}

/// Text that was received from another device is not sent back when it is seen
/// on the clipboard, however often it is read there.
pub proof fn echo_is_not_sent(watch: Watch, text: Seq<char>)
    ensures
        ({
            let (seen, left, reply) = responding(watch, Some(text), Read::Text(text));
            let (_, _, again) = responding(seen, left, Read::Text(text));
            &&& reply !is Broadcast
            &&& again is Nothing
        }),
{
}

/// Received text is held back once: the same text is sent when the user copies
/// it later, after another text.
pub proof fn echo_is_held_back_once(watch: Watch, text: Seq<char>, other: Seq<char>)
    requires
        watch.last_seen_text != Some(text),
        text != other,
    ensures
        ({
            let (one, left, _) = responding(watch, Some(text), Read::Text(text));
            let (two, still, reply) = responding(one, left, Read::Text(other));
            let (_, _, last) = responding(two, still, Read::Text(text));
            &&& reply == Reply::Broadcast(other)
            &&& last == Reply::Broadcast(text)
        }),
{
}

/// A text on the clipboard is sent once: reading it again does nothing.
pub proof fn text_is_sent_once(watch: Watch, suppressed: Option<Seq<char>>, text: Seq<char>)
    ensures
        ({
            let (seen, left, _) = responding(watch, suppressed, Read::Text(text));
            responding(seen, left, Read::Text(text)).2 is Nothing
        }),
{
}

/// A clipboard that counts its changes is not read again before it is time,
/// where its number is the same and no change was reported.
pub proof fn unchanged_clipboard_is_left_alone(watch: Watch, now: u64, number: u64)
    requires
        watch.last_change_count == Some(number),
        now < watch.next_look,
    ensures
        looked(watch, now, false, ChangeCount::Number(number)) == (watch, false),
{
}

/// Why the background process does not start, given why the lock that only one
/// of them holds was not to be had.
pub fn instance_lock_failure(error: Error) -> (res: Error)
    ensures
        if error.kind == ErrorKind::WouldBlock {
            res.is(ErrorKind::AlreadyExists, "another span daemon is already running")
        } else {
            res == error
        },
{
    if error.kind == ErrorKind::WouldBlock {
        Error::new(ErrorKind::AlreadyExists, "another span daemon is already running")
    } else {
        error
    }
}

/// Text that the user copies is sent to the trusted devices: it is not what was
/// seen last, and not what was received and is still to be seen. It then counts
/// as seen, and nothing else changes.
pub proof fn copied_text_is_sent(watch: Watch, suppressed: Option<Seq<char>>, text: Seq<char>)
    requires
        watch.last_seen_text != Some(text),
        suppressed != Some(text),
    ensures
        responding(watch, suppressed, Read::Text(text)) == (
            Watch { last_seen_text: Some(text), ..watch },
            suppressed,
            Reply::Broadcast(text),
        ),
{
}

/// Received text that is seen on the clipboard for the first time is held back,
/// with a pause, and from then on counts as seen.
pub proof fn received_text_is_held_back(watch: Watch, text: Seq<char>)
    requires
        watch.last_seen_text != Some(text),
    ensures
        responding(watch, Some(text), Read::Text(text)) == (
            Watch { last_seen_text: Some(text), ..watch },
            None::<Seq<char>>,
            Reply::Suppress,
        ),
{
}

/// Nothing is done about an empty clipboard, about one that cannot be read, or
/// about text that was seen already. Only an empty clipboard is remembered: text
/// that is copied again after it is sent again.
pub proof fn nothing_is_sent_without_new_text(
    watch: Watch,
    suppressed: Option<Seq<char>>,
    text: Seq<char>,
)
    requires
        suppressed != Some(text),
    ensures
        responding(watch, suppressed, Read::Failed) == (watch, suppressed, Reply::Nothing),
        watch.last_seen_text == Some(text) ==> responding(watch, suppressed, Read::Text(text)) == (
            watch,
            suppressed,
            Reply::Nothing,
        ),
        ({
            let (emptied, left, reply) = responding(watch, suppressed, Read::Empty);
            &&& reply is Nothing
            &&& left == suppressed
            &&& emptied == (Watch { last_seen_text: None, ..watch })
            &&& responding(emptied, left, Read::Text(text)).2 == Reply::Broadcast(text)
        }),
{
}

/// The clipboard is read where a change was reported, where its number of
/// changes is another than before or could not be had, and where two seconds
/// have passed since it was last time to look; the next time is then two seconds
/// on. Its number is remembered.
pub proof fn changes_are_looked_at(watch: Watch, now: u64, reported: bool, count: ChangeCount)
    requires
        now + 2_000 <= u64::MAX,
    ensures
        ({
            let (next, reads) = looked(watch, now, reported, count);
            let due = now >= watch.next_look;
            let same = match count {
                ChangeCount::Number(number) => watch.last_change_count == Some(number),
                ChangeCount::Uncounted => true,
                ChangeCount::Failed => false,
            };
            &&& reads == (reported || due || !same)
            &&& next.next_look == if due {
                (now + 2_000) as u64
            } else {
                watch.next_look
            }
            &&& next.last_change_count == match count {
                ChangeCount::Number(number) => Some(number),
                _ => watch.last_change_count,
            }
            &&& next.last_seen_text == watch.last_seen_text
            &&& next.next_announce == watch.next_announce
        }),
{
}

/// A time that lies later by a delay, as far as the clock goes.
pub proof fn later_is_later(time: u64, delay: u64)
    ensures
        time <= later(time, delay),
        time + delay <= u64::MAX ==> later(time, delay) == time + delay,
{
}

/// This device announces itself every fifteen seconds.
pub proof fn announcements_are_fifteen_seconds_apart(now: u64)
    requires
        now + 15_000 <= u64::MAX,
    ensures
        later(now, ANNOUNCE_EVERY) == now + 15_000,
{
}

/// A text counts as received, and not yet seen, until it is seen once; another
/// text leaves that as it is.
pub proof fn received_text_is_recognized_once(text: Seq<char>, other: Seq<char>)
    requires
        text != other,
    ensures
        suppressing(Some(text), text) == (true, None::<Seq<char>>),
        suppressing(Some(text), other) == (false, Some(text)),
        suppressing(None, text) == (false, None::<Seq<char>>),
{
}

} // verus!

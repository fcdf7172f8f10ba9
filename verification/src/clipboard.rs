//! The system's clipboard: text in the form in which systems keep it, and the
//! order in which it is opened, replaced and given back.

use vstd::prelude::*;

use crate::autostart::Os;
use crate::error::{Error, ErrorKind};
use crate::text::{chars_of, free_of};

verus! {

/// The clipboards that there are.
#[derive(Clone, Copy, Debug, PartialEq, Eq)]
pub enum ClipboardKind {
    MacOs,
    Windows,
    /// None; the text says why.
    Unsupported(&'static str),
}

/// The clipboard of a system.
pub fn system_clipboard(os: Os) -> (res: ClipboardKind)
    ensures
        match os {
            Os::MacOs => res is MacOs,
            Os::Windows => res is Windows,
            Os::Unix => res matches ClipboardKind::Unsupported(reason) && reason@
                == "linux native adapter pending"@,
            Os::Other => res matches ClipboardKind::Unsupported(reason) && reason@
                == "unsupported platform"@,
        },
{
    match os {
        Os::MacOs => ClipboardKind::MacOs,
        Os::Windows => ClipboardKind::Windows,
        Os::Unix => ClipboardKind::Unsupported("linux native adapter pending"),
        Os::Other => ClipboardKind::Unsupported("unsupported platform"),
    }
}

/// The failure of every operation where there is no clipboard.
pub fn unsupported_clipboard(reason: &'static str) -> (res: Error)
    ensures
        res.is(ErrorKind::Unsupported, reason),
{
    Error::new(ErrorKind::Unsupported, reason)
}

/// The number of changes that the clipboard counts: zero means that it counts
/// none.
pub fn change_count(sequence: u32) -> (res: Option<u64>)
    ensures
        res == if sequence == 0 {
            None
        } else {
            Some(sequence as u64)
        },
{
    if sequence == 0 {
        None
    } else {
        Some(sequence as u64)
    }
}

/// How waiting for a change ended.
#[derive(Clone, Copy, Debug, PartialEq, Eq, Structural)]
pub enum Wait {
    Notified,
    TimedOut,
    /// The listener is gone.
    Disconnected,
}

/// Whether a change was reported.
pub fn change_reported(wait: Wait) -> (res: Result<bool, Error>)
    ensures
        match wait {
            Wait::Notified => res == Ok::<bool, Error>(true),
            Wait::TimedOut => res == Ok::<bool, Error>(false),
            Wait::Disconnected => res matches Err(error) && error.is(
                ErrorKind::BrokenPipe,
                "clipboard listener disconnected",
            ),
        },
{
    match wait {
        Wait::Notified => Ok(true),
        Wait::TimedOut => Ok(false),
        Wait::Disconnected => Err(
            Error::new(ErrorKind::BrokenPipe, "clipboard listener disconnected"),
        ),
    }
}

/// Text that was read, unless it is empty.
pub fn present_text(text: String) -> (res: Option<String>)
    ensures
        match res {
            Some(held) => text@.len() > 0 && held@ == text@,
            None => text@.len() == 0,
        },
{
    if text.as_str().is_empty() {
        None
    } else {
        Some(text)
    }
}

/// Whether a text can be handed over as one that a zero ends.
pub fn check_terminated_text(text: &str) -> (res: Result<(), Error>)
    ensures
        match res {
            Ok(_) => free_of(text@, '\0'),
            Err(error) => !free_of(text@, '\0') && error.is(
                ErrorKind::InvalidInput,
                "text contains NUL byte",
            ),
        },
{
    let chars = chars_of(text);
    let mut i: usize = 0;
    while i < chars.len()
        invariant
            i <= chars.len(),
            chars@ == text@,
            forall|k: int| 0 <= k < i ==> #[trigger] chars@[k] != '\0',
        decreases chars.len() - i,
    {
        if chars[i] == '\0' {
            return Err(Error::new(ErrorKind::InvalidInput, "text contains NUL byte"));
        }
        i += 1;
    }
    Ok(())
}

// UTF-16
/// A character in UTF-16: one unit, or a high and a low surrogate.
pub open spec fn units_of(c: char) -> Seq<u16> {
    let number = c as int;
    if number < 0x10000 {
        seq![number as u16]
    } else {
        seq![
            (0xd800 + (number - 0x10000) / 0x400) as u16,
            (0xdc00 + (number - 0x10000) % 0x400) as u16,
        ]
    }
}

/// Text in UTF-16.
pub open spec fn utf16(text: Seq<char>) -> Seq<u16>
    decreases text.len(),
{
    if text.len() == 0 {
        Seq::empty()
    } else {
        utf16(text.drop_last()) + units_of(text.last())
    }
}

/// Whether a unit is a surrogate.
pub open spec fn surrogate(unit: u16) -> bool {
    0xd800 <= unit <= 0xdfff
}

/// Whether a unit is the first of two.
pub open spec fn high_surrogate(unit: u16) -> bool {
    0xd800 <= unit <= 0xdbff
}

/// Whether a unit is the second of two.
pub open spec fn low_surrogate(unit: u16) -> bool {
    0xdc00 <= unit <= 0xdfff
}

/// The character of a high and a low surrogate.
pub open spec fn paired(high: u16, low: u16) -> char {
    (0x10000 + (high - 0xd800) * 0x400 + (low - 0xdc00)) as char
}

/// The text that units are read as: a surrogate without its partner is
/// replaced.
pub open spec fn utf16_text(units: Seq<u16>) -> Seq<char>
    decreases units.len(),
{
    if units.len() == 0 {
        Seq::empty()
    } else if !surrogate(units[0]) {
        seq![units[0] as char] + utf16_text(units.drop_first())
    } else if high_surrogate(units[0]) && units.len() > 1 && low_surrogate(units[1]) {
        seq![paired(units[0], units[1])] + utf16_text(units.skip(2))
    } else {
        seq!['\u{fffd}'] + utf16_text(units.drop_first())
    }
}

/// `char::from_u32` is the character of a number, unless the number is a
/// surrogate or too large.
pub assume_specification[ char::from_u32 ](i: u32) -> (res: Option<char>)
    ensures
        res == if i <= 0xd7ff || 0xe000 <= i <= 0x10ffff {
            Some(i as char)
        } else {
            None
        },
;

/// The number of a character.
fn code_of(c: char) -> (res: u32)
    ensures
        res == c as int,
        res <= 0x10ffff,
{
    c as u32
}

/// Text in UTF-16 with a zero behind it, as system calls take it.
pub fn wide(text: &str) -> (res: Vec<u16>)
    ensures
        res@ == utf16(text@).push(0),
{
    let chars = chars_of(text);
    let mut res: Vec<u16> = Vec::new();
    let mut i: usize = 0;
    while i < chars.len()
        invariant
            i <= chars.len(),
            res@ == utf16(chars@.take(i as int)),
        decreases chars.len() - i,
    {
        let c = chars[i];
        let number: u32 = code_of(c);
        let ghost before = res@;
        assert(chars@.take(i + 1).drop_last() =~= chars@.take(i as int));
        if number < 0x10000 {
            res.push(number as u16);
            assert(res@ =~= before + units_of(c));
        } else {
            let above: u32 = number - 0x10000;
            res.push((0xd800 + above / 0x400) as u16);
            res.push((0xdc00 + above % 0x400) as u16);
            assert(res@ =~= before + units_of(c));
        }
        i += 1;
    }
    assert(chars@.take(i as int) =~= chars@);
    res.push(0);
    res
}

/// The text that units are read as.
pub fn text_of_units(units: &[u16]) -> (res: String)
    ensures
        res@ == utf16_text(units@),
{
    let mut res: String = String::new();
    let mut i: usize = 0;
    assert(units@.skip(0) =~= units@);
    assert(res@ + utf16_text(units@) =~= utf16_text(units@));
    while i < units.len()
        invariant
            i <= units.len(),
            res@ + utf16_text(units@.skip(i as int)) == utf16_text(units@),
        decreases units.len() - i,
    {
        let ghost rest = units@.skip(i as int);
        let ghost before = res@;
        let unit: u16 = units[i];
        let two = unit >= 0xd800 && unit <= 0xdbff && i + 1 < units.len() && units[i + 1] >= 0xdc00
            && units[i + 1] <= 0xdfff;
        if two {
            let low: u16 = units[i + 1];
            let number: u32 = 0x10000 + (unit as u32 - 0xd800) * 0x400 + (low as u32 - 0xdc00);
            let c = match char::from_u32(number) {
                Some(c) => c,
                None => '\u{fffd}',
            };
            res.push(c);
            assert(c == paired(unit, low));
            assert(rest.skip(2) =~= units@.skip(i + 2));
            assert(res@ + utf16_text(units@.skip(i + 2)) =~= before + utf16_text(rest));
            i += 2;
        } else {
            let c = match char::from_u32(unit as u32) {
                Some(c) => c,
                None => '\u{fffd}',
            };
            res.push(c);
            assert(rest.drop_first() =~= units@.skip(i + 1));
            assert(res@ + utf16_text(units@.skip(i + 1)) =~= before + utf16_text(rest));
            i += 1;
        }
    }
    assert(units@.skip(i as int) =~= Seq::empty());
    assert(res@ =~= res@ + utf16_text(units@.skip(i as int)));
    res
}

/// The units before the first zero; all of them where there is none.
pub open spec fn before_zero(units: Seq<u16>) -> Seq<u16>
    decreases units.len(),
{
    if units.len() == 0 || units[0] == 0 {
        Seq::empty()
    } else {
        seq![units[0]] + before_zero(units.drop_first())
    }
}

/// The number of units before the first zero.
pub fn terminated_length(units: &[u16]) -> (res: usize)
    ensures
        res <= units@.len(),
        units@.take(res as int) == before_zero(units@),
{
    let mut len: usize = 0;
    assert(units@.skip(0) =~= units@);
    assert(units@.take(0) + before_zero(units@) =~= before_zero(units@));
    while len < units.len() && units[len] != 0
        invariant
            len <= units.len(),
            units@.take(len as int) + before_zero(units@.skip(len as int)) == before_zero(units@),
        decreases units.len() - len,
    {
        let ghost rest = units@.skip(len as int);
        assert(rest.drop_first() =~= units@.skip(len + 1));
        assert(units@.take(len + 1) =~= units@.take(len as int) + seq![rest[0]]);
        assert(units@.take(len + 1) + before_zero(units@.skip(len + 1)) =~= units@.take(len as int)
            + before_zero(rest));
        len += 1;
    }
    assert(units@.take(len as int) + before_zero(units@.skip(len as int)) =~= units@.take(
        len as int,
    ));
    len
}

/// The text on the clipboard: what the units before the first zero are read
/// as, unless it is empty.
pub fn clipboard_text(units: &[u16]) -> (res: Option<String>)
    ensures
        match res {
            Some(text) => text@ == utf16_text(before_zero(units@)) && text@.len() > 0,
            None => utf16_text(before_zero(units@)).len() == 0,
        },
{
    let len = terminated_length(units);
    let mut held: Vec<u16> = Vec::new();
    let mut i: usize = 0;
    while i < len
        invariant
            i <= len <= units@.len(),
            held@ == units@.take(i as int),
        decreases len - i,
    {
        held.push(units[i]);
        i += 1;
    }
    present_text(text_of_units(held.as_slice()))
}

/// Copies text with a zero behind it into a field of fixed length, as far as it
/// fits.
pub fn copy_wide(target: &mut [u16], text: &str)
    ensures
        final(target)@.len() == old(target)@.len(),
        forall|i: int|
            0 <= i < final(target)@.len() ==> #[trigger] final(target)@[i] == if i <= utf16(
                text@,
            ).len() {
                utf16(text@).push(0)[i]
            } else {
                old(target)@[i]
            },
{
    let units = wide(text);
    let ghost start = target@;
    let mut i: usize = 0;
    while i < target.len() && i < units.len()
        invariant
            i <= target@.len(),
            i <= units@.len(),
            target@.len() == start.len(),
            forall|k: int|
                0 <= k < target@.len() ==> #[trigger] target@[k] == if k < i {
                    units@[k]
                } else {
                    start[k]
                },
        decreases target@.len() - i,
    {
        target[i] = units[i];
        i += 1;
    }
}

proof fn units_read_back(c: char, rest: Seq<u16>)
    ensures
        utf16_text(units_of(c) + rest) == seq![c] + utf16_text(rest),
{
    let whole = units_of(c) + rest;
    let number = c as int;
    if number < 0x10000 {
        assert(whole.drop_first() =~= rest);
        assert(whole[0] as char == c);
    } else {
        let above = number - 0x10000;
        assert(0 <= above < 0x100000);
        assert(whole[0] == 0xd800 + above / 0x400);
        assert(whole[1] == 0xdc00 + above % 0x400);
        assert(whole.skip(2) =~= rest);
        assert(paired(whole[0], whole[1]) == c);
    }
}

proof fn utf16_front(text: Seq<char>)
    requires
        text.len() > 0,
    ensures
        utf16(text) == units_of(text.first()) + utf16(text.drop_first()),
    decreases text.len(),
{
    if text.len() == 1 {
        assert(text.drop_last() =~= Seq::empty());
        assert(text.drop_first() =~= Seq::empty());
        assert(utf16(text.drop_last()) =~= Seq::empty());
        assert(utf16(text) =~= units_of(text.first()) + utf16(text.drop_first()));
    } else {
        let less = text.drop_last();
        utf16_front(less);
        assert(less.drop_first() =~= text.drop_first().drop_last());
        assert(utf16(text) =~= units_of(text.first()) + (utf16(less.drop_first()) + units_of(
            text.last(),
        )));
    }
}

/// Text in UTF-16 reads back as the text.
pub proof fn utf16_reads_back(text: Seq<char>)
    ensures
        utf16_text(utf16(text)) == text,
    decreases text.len(),
{
    if text.len() == 0 {
        assert(text =~= Seq::empty());
    } else {
        utf16_front(text);
        utf16_reads_back(text.drop_first());
        units_read_back(text.first(), utf16(text.drop_first()));
        assert(seq![text.first()] + text.drop_first() =~= text);
    }
}

proof fn zero_ends(units: Seq<u16>)
    requires
        forall|i: int| 0 <= i < units.len() ==> #[trigger] units[i] != 0,
    ensures
        before_zero(units.push(0)) == units,
    decreases units.len(),
{
    if units.len() > 0 {
        let less = units.drop_first();
        assert forall|i: int| 0 <= i < less.len() implies #[trigger] less[i] != 0 by {
            assert(units[i + 1] != 0);
        }
        zero_ends(less);
        assert(units.push(0).drop_first() =~= less.push(0));
        assert(units[0] != 0);
        assert(seq![units[0]] + less =~= units);
    } else {
        assert(units =~= Seq::empty());
    }
}

proof fn units_are_not_zero(c: char)
    requires
        c != '\0',
    ensures
        forall|i: int| 0 <= i < units_of(c).len() ==> #[trigger] units_of(c)[i] != 0,
{
    let above = c as int - 0x10000;
    assert(above < 0x100000);
}

proof fn utf16_has_no_zero(text: Seq<char>)
    requires
        free_of(text, '\0'),
    ensures
        forall|i: int| 0 <= i < utf16(text).len() ==> #[trigger] utf16(text)[i] != 0,
    decreases text.len(),
{
    if text.len() > 0 {
        let less = text.drop_last();
        assert forall|i: int| 0 <= i < less.len() implies #[trigger] less[i] != '\0' by {
            assert(text[i] != '\0');
        }
        utf16_has_no_zero(less);
        let tail = units_of(text.last());
        assert(text[text.len() - 1] != '\0');
        units_are_not_zero(text.last());
        assert forall|i: int| 0 <= i < utf16(text).len() implies #[trigger] utf16(text)[i]
            != 0 by {
            if i >= utf16(less).len() {
                assert(utf16(text)[i] == tail[i - utf16(less).len()]);
            } else {
                assert(utf16(text)[i] == utf16(less)[i]);
            }
        }
    }
}

/// Text that is put on the clipboard is read back from it as it was, unless it
/// holds a zero.
pub proof fn clipboard_gives_back(text: Seq<char>)
    requires
        free_of(text, '\0'),
    ensures
        utf16_text(before_zero(utf16(text).push(0))) == text,
{
    utf16_has_no_zero(text);
    zero_ends(utf16(text));
    utf16_reads_back(text);
}

// Opening and replacing
/// How often the clipboard is tried to open.
pub const MAX_OPENS: u64 = 8;

/// How long to wait after the attempt of that number, counted from zero, did
/// not open the clipboard; nothing, where it was the last. Programs own the
/// clipboard briefly while they render what was copied: each wait is longer
/// than the one before.
pub open spec fn pause_after(attempt: u64) -> Option<u64> {
    if attempt + 1 < MAX_OPENS {
        Some((5 * (attempt + 1)) as u64)
    } else {
        None
    }
}

/// How long to wait, in milliseconds, after an attempt to open the clipboard.
pub fn open_pause(attempt: u64) -> (res: Option<u64>)
    ensures
        res == pause_after(attempt),
{
    if attempt < MAX_OPENS - 1 {
        Some(5 * (attempt + 1))
    } else {
        None
    }
}

/// How far the replacement of the clipboard's text has come: which action is
/// under way.
#[derive(Clone, Copy, Debug, PartialEq, Eq, Structural)]
pub enum WritePhase {
    Allocating,
    Filling,
    Opening { attempt: u64 },
    Pausing { attempt: u64 },
    Emptying,
    Setting,
    /// `given` says whether the clipboard owns the memory now.
    Closing { given: bool },
    Freeing,
    Done,
    Failed,
}

/// What is done next.
#[derive(Clone, Copy, Debug, PartialEq, Eq, Structural)]
pub enum WriteAction {
    /// Allocate memory for the text.
    Allocate,
    /// Lock it, copy the text, and unlock it.
    Fill,
    /// Open the clipboard.
    Open,
    /// Wait for that many milliseconds.
    Pause(u64),
    /// Drop what the clipboard holds.
    Empty,
    /// Give the memory to the clipboard.
    Give,
    /// Close the clipboard.
    Close,
    /// Free the memory.
    Free,
    /// The text is on the clipboard.
    Succeed,
    /// It is not; the first action that failed says why.
    Fail,
}

/// What follows the end of an action, with success or without. The replacement
/// is prepared before the clipboard is emptied, so that a failure to prepare it
/// leaves what the user has copied.
pub open spec fn written(phase: WritePhase, done: bool) -> (WritePhase, WriteAction) {
    match phase {
        WritePhase::Allocating => if done {
            (WritePhase::Filling, WriteAction::Fill)
        } else {
            (WritePhase::Failed, WriteAction::Fail)
        },
        WritePhase::Filling => if done {
            (WritePhase::Opening { attempt: 0 }, WriteAction::Open)
        } else {
            (WritePhase::Freeing, WriteAction::Free)
        },
        WritePhase::Opening { attempt } => if done {
            (WritePhase::Emptying, WriteAction::Empty)
        } else {
            match pause_after(attempt) {
                Some(pause) => (WritePhase::Pausing { attempt }, WriteAction::Pause(pause)),
                None => (WritePhase::Freeing, WriteAction::Free),
            }
        },
        WritePhase::Pausing { attempt } => if attempt + 1 < MAX_OPENS {
            (WritePhase::Opening { attempt: (attempt + 1) as u64 }, WriteAction::Open)
        } else {
            (WritePhase::Freeing, WriteAction::Free)
        },
        WritePhase::Emptying => if done {
            (WritePhase::Setting, WriteAction::Give)
        } else {
            (WritePhase::Closing { given: false }, WriteAction::Close)
        },
        WritePhase::Setting => (WritePhase::Closing { given: done }, WriteAction::Close),
        WritePhase::Closing { given } => if given {
            (WritePhase::Done, WriteAction::Succeed)
        } else {
            (WritePhase::Freeing, WriteAction::Free)
        },
        WritePhase::Freeing => (WritePhase::Failed, WriteAction::Fail),
        WritePhase::Done => (WritePhase::Done, WriteAction::Succeed),
        WritePhase::Failed => (WritePhase::Failed, WriteAction::Fail),
    }
}

/// The start of a replacement.
pub fn start_write() -> (res: (WritePhase, WriteAction))
    ensures
        res == (WritePhase::Allocating, WriteAction::Allocate),
{
    (WritePhase::Allocating, WriteAction::Allocate)
}

/// What follows the end of an action.
pub fn write_step(phase: WritePhase, done: bool) -> (res: (WritePhase, WriteAction))
    ensures
        res == written(phase, done),
{
    match phase {
        WritePhase::Allocating => if done {
            (WritePhase::Filling, WriteAction::Fill)
        } else {
            (WritePhase::Failed, WriteAction::Fail)
        },
        WritePhase::Filling => if done {
            (WritePhase::Opening { attempt: 0 }, WriteAction::Open)
        } else {
            (WritePhase::Freeing, WriteAction::Free)
        },
        WritePhase::Opening { attempt } => if done {
            (WritePhase::Emptying, WriteAction::Empty)
        } else {
            match open_pause(attempt) {
                Some(pause) => (WritePhase::Pausing { attempt }, WriteAction::Pause(pause)),
                None => (WritePhase::Freeing, WriteAction::Free),
            }
        },
        WritePhase::Pausing { attempt } => if attempt < MAX_OPENS - 1 {
            (WritePhase::Opening { attempt: attempt + 1 }, WriteAction::Open)
        } else {
            (WritePhase::Freeing, WriteAction::Free)
        },
        WritePhase::Emptying => if done {
            (WritePhase::Setting, WriteAction::Give)
        } else {
            (WritePhase::Closing { given: false }, WriteAction::Close)
        },
        WritePhase::Setting => (WritePhase::Closing { given: done }, WriteAction::Close),
        WritePhase::Closing { given } => if given {
            (WritePhase::Done, WriteAction::Succeed)
        } else {
            (WritePhase::Freeing, WriteAction::Free)
        },
        WritePhase::Freeing => (WritePhase::Failed, WriteAction::Fail),
        WritePhase::Done => (WritePhase::Done, WriteAction::Succeed),
        WritePhase::Failed => (WritePhase::Failed, WriteAction::Fail),
    }
}

/// What a replacement has done to the system so far.
pub struct Held {
    /// Memory is allocated, and the clipboard does not own it.
    pub memory: bool,
    /// That memory, or the clipboard, holds the whole text.
    pub filled: bool,
    /// The clipboard is open.
    pub open: bool,
}

/// What is held while an action is under way.
pub open spec fn held(phase: WritePhase) -> Held {
    match phase {
        WritePhase::Allocating => Held { memory: false, filled: false, open: false },
        WritePhase::Filling => Held { memory: true, filled: false, open: false },
        WritePhase::Opening { .. } | WritePhase::Pausing { .. } => Held {
            memory: true,
            filled: true,
            open: false,
        },
        WritePhase::Emptying | WritePhase::Setting => Held {
            memory: true,
            filled: true,
            open: true,
        },
        WritePhase::Closing { given } => Held { memory: !given, filled: true, open: true },
        WritePhase::Freeing => Held { memory: true, filled: false, open: false },
        WritePhase::Done => Held { memory: false, filled: true, open: false },
        WritePhase::Failed => Held { memory: false, filled: false, open: false },
    }
}

/// What is held once the action of a phase has ended.
pub open spec fn held_after(phase: WritePhase, done: bool) -> Held {
    match phase {
        WritePhase::Allocating => Held { memory: done, ..held(phase) },
        WritePhase::Filling => Held { filled: done, ..held(phase) },
        WritePhase::Opening { .. } => Held { open: done, ..held(phase) },
        WritePhase::Setting => Held { memory: !done, ..held(phase) },
        WritePhase::Closing { .. } => Held { open: false, ..held(phase) },
        WritePhase::Freeing => Held { memory: false, ..held(phase) },
        _ => held(phase),
    }
}

/// A replacement holds on to nothing: whatever fails, the clipboard is closed
/// where it was opened, and the memory is freed exactly where the clipboard
/// does not own it. It empties the clipboard only with the whole text at hand.
pub proof fn replacement_is_clean(phase: WritePhase, done: bool)
    ensures
        held(written(phase, done).0).memory == held_after(phase, done).memory,
        held(written(phase, done).0).open == held_after(phase, done).open,
        !held(WritePhase::Done).memory && !held(WritePhase::Done).open,
        !held(WritePhase::Failed).memory && !held(WritePhase::Failed).open,
        written(phase, done).1 == WriteAction::Empty ==> held_after(phase, done).filled
            && held_after(phase, done).open,
        written(phase, done).1 == WriteAction::Free ==> held_after(phase, done).memory
            && !held_after(phase, done).open,
        written(phase, done).1 == WriteAction::Succeed && phase !is Done ==> phase
            == (WritePhase::Closing { given: true }),
{
}

/// A bound on the actions until a replacement ends.
pub open spec fn writes_left(phase: WritePhase) -> int {
    match phase {
        WritePhase::Allocating => 40,
        WritePhase::Filling => 39,
        WritePhase::Opening { attempt } => 2 * (MAX_OPENS - attempt) + 10,
        WritePhase::Pausing { attempt } => 2 * (MAX_OPENS - attempt) + 9,
        WritePhase::Emptying => 6,
        WritePhase::Setting => 5,
        WritePhase::Closing { .. } => 4,
        WritePhase::Freeing => 3,
        WritePhase::Done | WritePhase::Failed => 0,
    }
}

/// Whether the number of an attempt to open is one of those that are made.
pub open spec fn valid_write(phase: WritePhase) -> bool {
    match phase {
        WritePhase::Opening { attempt } => attempt < MAX_OPENS,
        WritePhase::Pausing { attempt } => attempt + 1 < MAX_OPENS,
        _ => true,
    }
}

/// A replacement comes to an end.
pub proof fn replacement_ends(phase: WritePhase, done: bool)
    requires
        valid_write(phase),
        phase !is Done,
        phase !is Failed,
    ensures
        valid_write(written(phase, done).0),
        0 <= writes_left(written(phase, done).0) < writes_left(phase),
{
}

// Reading
/// How far reading the clipboard has come: which action is under way.
#[derive(Clone, Copy, Debug, PartialEq, Eq, Structural)]
pub enum ReadPhase {
    Asking,
    Opening { attempt: u64 },
    Pausing { attempt: u64 },
    Fetching,
    /// `fetched` says whether the text was to be had.
    Closing { fetched: bool },
    Absent,
    Done,
    Failed,
}

/// What is done next.
#[derive(Clone, Copy, Debug, PartialEq, Eq, Structural)]
pub enum ReadAction {
    /// Ask whether the clipboard holds text.
    Ask,
    /// Open the clipboard.
    Open,
    /// Wait for that many milliseconds.
    Pause(u64),
    /// Copy the text.
    Fetch,
    /// Close the clipboard.
    Close,
    /// There is no text.
    Report,
    /// The text was copied.
    Succeed,
    /// It was not; the last action that failed says why.
    Fail,
}

/// What follows the end of an action, with success or without. A clipboard
/// without text is not opened; one that was opened is closed.
pub open spec fn read(phase: ReadPhase, done: bool) -> (ReadPhase, ReadAction) {
    match phase {
        ReadPhase::Asking => if done {
            (ReadPhase::Opening { attempt: 0 }, ReadAction::Open)
        } else {
            (ReadPhase::Absent, ReadAction::Report)
        },
        ReadPhase::Opening { attempt } => if done {
            (ReadPhase::Fetching, ReadAction::Fetch)
        } else {
            match pause_after(attempt) {
                Some(pause) => (ReadPhase::Pausing { attempt }, ReadAction::Pause(pause)),
                None => (ReadPhase::Failed, ReadAction::Fail),
            }
        },
        ReadPhase::Pausing { attempt } => if attempt + 1 < MAX_OPENS {
            (ReadPhase::Opening { attempt: (attempt + 1) as u64 }, ReadAction::Open)
        } else {
            (ReadPhase::Failed, ReadAction::Fail)
        },
        ReadPhase::Fetching => (ReadPhase::Closing { fetched: done }, ReadAction::Close),
        ReadPhase::Closing { fetched } => if fetched {
            (ReadPhase::Done, ReadAction::Succeed)
        } else {
            (ReadPhase::Failed, ReadAction::Fail)
        },
        ReadPhase::Absent => (ReadPhase::Absent, ReadAction::Report),
        ReadPhase::Done => (ReadPhase::Done, ReadAction::Succeed),
        ReadPhase::Failed => (ReadPhase::Failed, ReadAction::Fail),
    }
}

/// The start of reading.
pub fn start_read() -> (res: (ReadPhase, ReadAction))
    ensures
        res == (ReadPhase::Asking, ReadAction::Ask),
{
    (ReadPhase::Asking, ReadAction::Ask)
}

/// What follows the end of an action.
pub fn read_step(phase: ReadPhase, done: bool) -> (res: (ReadPhase, ReadAction))
    ensures
        res == read(phase, done),
{
    match phase {
        ReadPhase::Asking => if done {
            (ReadPhase::Opening { attempt: 0 }, ReadAction::Open)
        } else {
            (ReadPhase::Absent, ReadAction::Report)
        },
        ReadPhase::Opening { attempt } => if done {
            (ReadPhase::Fetching, ReadAction::Fetch)
        } else {
            match open_pause(attempt) {
                Some(pause) => (ReadPhase::Pausing { attempt }, ReadAction::Pause(pause)),
                None => (ReadPhase::Failed, ReadAction::Fail),
            }
        },
        ReadPhase::Pausing { attempt } => if attempt < MAX_OPENS - 1 {
            (ReadPhase::Opening { attempt: attempt + 1 }, ReadAction::Open)
        } else {
            (ReadPhase::Failed, ReadAction::Fail)
        },
        ReadPhase::Fetching => (ReadPhase::Closing { fetched: done }, ReadAction::Close),
        ReadPhase::Closing { fetched } => if fetched {
            (ReadPhase::Done, ReadAction::Succeed)
        } else {
            (ReadPhase::Failed, ReadAction::Fail)
        },
        ReadPhase::Absent => (ReadPhase::Absent, ReadAction::Report),
        ReadPhase::Done => (ReadPhase::Done, ReadAction::Succeed),
        ReadPhase::Failed => (ReadPhase::Failed, ReadAction::Fail),
    }
}

/// Whether the clipboard is open while an action is under way.
pub open spec fn open_during(phase: ReadPhase) -> bool {
    phase is Fetching || phase is Closing
}

/// Reading leaves the clipboard closed, and copies its text only while it is
/// open.
pub proof fn reading_is_clean(phase: ReadPhase, done: bool)
    ensures
        open_during(read(phase, done).0) == match phase {
            ReadPhase::Opening { .. } => done,
            ReadPhase::Closing { .. } => false,
            _ => open_during(phase),
        },
        read(phase, done).1 == ReadAction::Fetch ==> open_during(read(phase, done).0),
        !open_during(ReadPhase::Absent) && !open_during(ReadPhase::Done) && !open_during(
            ReadPhase::Failed,
        ),
{
}

/// A text is on the clipboard once every step of replacing succeeded: memory is
/// allocated and filled, the clipboard opened, emptied and given the memory, and
/// closed. It does not matter how often opening failed before.
pub proof fn replacement_succeeds(attempt: u64)
    ensures
        written(WritePhase::Allocating, true) == (WritePhase::Filling, WriteAction::Fill),
        written(WritePhase::Filling, true) == (
            WritePhase::Opening { attempt: 0 },
            WriteAction::Open,
        ),
        written(WritePhase::Opening { attempt }, true) == (
            WritePhase::Emptying,
            WriteAction::Empty,
        ),
        written(WritePhase::Emptying, true) == (WritePhase::Setting, WriteAction::Give),
        written(written(WritePhase::Setting, true).0, true) == (
            WritePhase::Done,
            WriteAction::Succeed,
        ),
        written(WritePhase::Setting, true).1 == WriteAction::Close,
{
}

/// Whatever step of replacing fails, the end is a failure, and never a claim
/// that the text is on the clipboard.
pub proof fn failed_replacement_is_reported(attempt: u64)
    requires
        attempt < 8,
    ensures
        written(WritePhase::Allocating, false).1 == WriteAction::Fail,
        written(WritePhase::Filling, false) == (WritePhase::Freeing, WriteAction::Free),
        written(WritePhase::Emptying, false).1 == WriteAction::Close,
        written(written(WritePhase::Emptying, false).0, true) == (
            WritePhase::Freeing,
            WriteAction::Free,
        ),
        written(written(WritePhase::Setting, false).0, true) == (
            WritePhase::Freeing,
            WriteAction::Free,
        ),
        written(WritePhase::Freeing, true) == (WritePhase::Failed, WriteAction::Fail),
        attempt < 7 ==> written(WritePhase::Opening { attempt }, false) == (
            WritePhase::Pausing { attempt },
            WriteAction::Pause((5 * (attempt + 1)) as u64),
        ),
        attempt < 7 ==> written(WritePhase::Pausing { attempt }, true) == (
            WritePhase::Opening { attempt: (attempt + 1) as u64 },
            WriteAction::Open,
        ),
        attempt == 7 ==> written(WritePhase::Opening { attempt }, false) == (
            WritePhase::Freeing,
            WriteAction::Free,
        ),
{
}

/// Text is read where the clipboard holds some: it is opened, which is tried up
/// to eight times with longer and longer pauses, the text is copied, and it is
/// closed. A clipboard without text is no failure; every other step that fails
/// is one.
pub proof fn reading_succeeds_or_says_why(attempt: u64)
    requires
        attempt < 8,
    ensures
        read(ReadPhase::Asking, true) == (ReadPhase::Opening { attempt: 0 }, ReadAction::Open),
        read(ReadPhase::Asking, false).1 == ReadAction::Report,
        read(ReadPhase::Opening { attempt }, true) == (ReadPhase::Fetching, ReadAction::Fetch),
        attempt < 7 ==> read(ReadPhase::Opening { attempt }, false) == (
            ReadPhase::Pausing { attempt },
            ReadAction::Pause((5 * (attempt + 1)) as u64),
        ),
        attempt < 7 ==> read(ReadPhase::Pausing { attempt }, true) == (
            ReadPhase::Opening { attempt: (attempt + 1) as u64 },
            ReadAction::Open,
        ),
        attempt == 7 ==> read(ReadPhase::Opening { attempt }, false).1 == ReadAction::Fail,
        read(ReadPhase::Fetching, true).1 == ReadAction::Close,
        read(read(ReadPhase::Fetching, true).0, true).1 == ReadAction::Succeed,
        read(ReadPhase::Fetching, false).1 == ReadAction::Close,
        read(read(ReadPhase::Fetching, false).0, true).1 == ReadAction::Fail,
{
}

/// The text before the first zero is what counts; without a zero all of it does.
pub proof fn text_ends_at_the_first_zero(units: Seq<u16>, at: int)
    requires
        0 <= at <= units.len(),
        forall|i: int| 0 <= i < at ==> #[trigger] units[i] != 0,
        at < units.len() ==> units[at] == 0,
    ensures
        before_zero(units) == units.take(at),
    decreases units.len(),
{
    if at == 0 {
        assert(units.take(0) =~= Seq::empty());
    } else {
        let rest = units.drop_first();
        assert forall|i: int| 0 <= i < at - 1 implies #[trigger] rest[i] != 0 by {
            assert(units[i + 1] != 0);
        }
        assert(units[0] != 0);
        text_ends_at_the_first_zero(rest, at - 1);
        assert(seq![units[0]] + rest.take(at - 1) =~= units.take(at));
    }
}

/// A unit that is half of a pair and stands alone is read as the replacement
/// character, and what stands around it is read as ever.
pub proof fn lone_surrogate_is_replaced(unit: u16, rest: Seq<u16>)
    requires
        0xd800 <= unit <= 0xdfff,
        rest.len() == 0 || rest[0] < 0xdc00 || rest[0] > 0xdfff,
    ensures
        utf16_text(seq![unit] + rest) == seq!['\u{fffd}'] + utf16_text(rest),
{
    let units = seq![unit] + rest;
    assert(units.drop_first() =~= rest);
    if units.len() > 1 {
        assert(units[1] == rest[0]);
    }
}

} // verus!

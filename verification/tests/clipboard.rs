use span::autostart::Os;
use span::clipboard::{
    change_count, change_reported, check_terminated_text, clipboard_text, copy_wide, open_pause,
    present_text, read_step, start_read, start_write, system_clipboard, terminated_length,
    text_of_units, unsupported_clipboard, wide, write_step, ClipboardKind, ReadAction, ReadPhase,
    Wait, WriteAction, WritePhase,
};
use span::daemon::{
    instance_lock_failure, should_suppress, ChangeCount, Reading, Response, Watcher,
};
use span::error::{Error, ErrorKind};

#[test]
fn windows_text_is_utf16_and_terminated() {
    let text = wide("添加设备…");
    assert_eq!(text.last(), Some(&0));
    assert_eq!(
        String::from_utf16(&text[..text.len() - 1]).unwrap(),
        "添加设备…"
    );
}

#[test]
fn utf16_is_that_of_the_standard_library() {
    for text in ["", "a", "é", "€", "𝄞 clef", "\u{10ffff}\u{fffd}\u{d7ff}\u{e000}"] {
        let mut expected: Vec<u16> = text.encode_utf16().collect();
        assert_eq!(text_of_units(&expected), text);
        expected.push(0);
        assert_eq!(wide(text), expected);
    }
    assert_eq!(wide("𝄞"), vec![0xd834, 0xdd1e, 0]);
}

#[test]
fn lone_surrogates_are_replaced() {
    for units in [
        vec![0xd834_u16],
        vec![0xdd1e, 0x61],
        vec![0xd834, 0x61],
        vec![0xd834, 0xd834, 0xdd1e],
        vec![0xd834, 0xdd1e, 0xdd1e],
    ] {
        assert_eq!(text_of_units(&units), String::from_utf16_lossy(&units));
    }
}

#[test]
fn clipboard_text_ends_at_the_first_zero() {
    assert_eq!(clipboard_text(&wide("hello")).as_deref(), Some("hello"));
    assert_eq!(clipboard_text(&[0x61, 0, 0x62]).as_deref(), Some("a"));
    assert_eq!(clipboard_text(&[0, 0x62]), None);
    assert_eq!(clipboard_text(&[0x61]).as_deref(), Some("a"));
    assert_eq!(terminated_length(&[0x61, 0x62, 0]), 2);
    assert_eq!(present_text(String::new()), None);
    assert_eq!(present_text("x".to_string()).as_deref(), Some("x"));
}

#[test]
fn fixed_fields_take_what_fits() {
    let mut field = [9_u16; 4];
    copy_wide(&mut field, "ab");
    assert_eq!(field, [0x61, 0x62, 0, 9]);
    copy_wide(&mut field, "vwxyz");
    assert_eq!(field, [0x76, 0x77, 0x78, 0x79]);
    let mut none: [u16; 0] = [];
    copy_wide(&mut none, "a");
}

#[test]
fn text_with_a_zero_is_refused() {
    assert!(check_terminated_text("plain").is_ok());
    let error = check_terminated_text("a\0b").unwrap_err();
    assert_eq!((error.kind, error.message), (ErrorKind::InvalidInput, "text contains NUL byte"));
}

#[test]
fn each_system_has_its_clipboard() {
    assert_eq!(system_clipboard(Os::MacOs), ClipboardKind::MacOs);
    assert_eq!(system_clipboard(Os::Windows), ClipboardKind::Windows);
    assert_eq!(
        system_clipboard(Os::Unix),
        ClipboardKind::Unsupported("linux native adapter pending")
    );
    assert_eq!(
        system_clipboard(Os::Other),
        ClipboardKind::Unsupported("unsupported platform")
    );
    let error = unsupported_clipboard("unsupported platform");
    assert_eq!((error.kind, error.message), (ErrorKind::Unsupported, "unsupported platform"));
}

#[test]
fn changes_are_counted_and_reported() {
    assert_eq!(change_count(0), None);
    assert_eq!(change_count(7), Some(7));
    assert_eq!(change_reported(Wait::Notified), Ok(true));
    assert_eq!(change_reported(Wait::TimedOut), Ok(false));
    let error = change_reported(Wait::Disconnected).unwrap_err();
    assert_eq!(
        (error.kind, error.message),
        (ErrorKind::BrokenPipe, "clipboard listener disconnected")
    );
}

#[test]
fn pauses_between_attempts_grow() {
    let pauses: Vec<Option<u64>> = (0..9).map(open_pause).collect();
    assert_eq!(
        pauses,
        vec![Some(5), Some(10), Some(15), Some(20), Some(25), Some(30), Some(35), None, None]
    );
    assert_eq!(open_pause(u64::MAX), None);
}

/// The actions of a replacement, where the given one fails every time.
fn write_actions(failing: Option<WriteAction>) -> Vec<WriteAction> {
    let (mut phase, mut action) = start_write();
    let mut actions = vec![action];
    while phase != WritePhase::Done && phase != WritePhase::Failed {
        (phase, action) = write_step(phase, Some(action) != failing);
        actions.push(action);
    }
    actions
}

#[test]
fn replacement_is_prepared_before_the_clipboard_is_emptied() {
    assert_eq!(
        write_actions(None),
        vec![
            WriteAction::Allocate,
            WriteAction::Fill,
            WriteAction::Open,
            WriteAction::Empty,
            WriteAction::Give,
            WriteAction::Close,
            WriteAction::Succeed
        ]
    );
    assert_eq!(
        write_actions(Some(WriteAction::Allocate)),
        vec![WriteAction::Allocate, WriteAction::Fail]
    );
    assert_eq!(
        write_actions(Some(WriteAction::Fill)),
        vec![WriteAction::Allocate, WriteAction::Fill, WriteAction::Free, WriteAction::Fail]
    );
    let unopened = write_actions(Some(WriteAction::Open));
    assert_eq!(unopened.iter().filter(|action| **action == WriteAction::Open).count(), 8);
    assert_eq!(unopened[unopened.len() - 2..], [WriteAction::Free, WriteAction::Fail]);
    assert!(!unopened.contains(&WriteAction::Empty));
    for failing in [WriteAction::Empty, WriteAction::Give] {
        let actions = write_actions(Some(failing));
        let end = [failing, WriteAction::Close, WriteAction::Free, WriteAction::Fail];
        assert_eq!(actions[actions.len() - 4..], end);
    }
}

/// The actions of reading, where the given one fails every time.
fn read_actions(failing: Option<ReadAction>) -> Vec<ReadAction> {
    let (mut phase, mut action) = start_read();
    let mut actions = vec![action];
    while phase != ReadPhase::Done && phase != ReadPhase::Failed && phase != ReadPhase::Absent {
        (phase, action) = read_step(phase, Some(action) != failing);
        actions.push(action);
    }
    actions
}

#[test]
fn opened_clipboard_is_closed_after_reading() {
    assert_eq!(
        read_actions(None),
        vec![
            ReadAction::Ask,
            ReadAction::Open,
            ReadAction::Fetch,
            ReadAction::Close,
            ReadAction::Succeed
        ]
    );
    assert_eq!(
        read_actions(Some(ReadAction::Ask)),
        vec![ReadAction::Ask, ReadAction::Report]
    );
    assert_eq!(
        read_actions(Some(ReadAction::Fetch)),
        vec![
            ReadAction::Ask,
            ReadAction::Open,
            ReadAction::Fetch,
            ReadAction::Close,
            ReadAction::Fail
        ]
    );
    let unopened = read_actions(Some(ReadAction::Open));
    assert_eq!(unopened.iter().filter(|action| **action == ReadAction::Open).count(), 8);
    assert_eq!(unopened.last(), Some(&ReadAction::Fail));
}

fn text(value: &str) -> Reading {
    Reading::Text(value.to_string())
}

#[test]
fn clipboard_is_read_when_it_changed_or_is_due() {
    let mut watcher = Watcher::new(1_000, Some(5), None);
    assert!(watcher.announce_due(1_000));
    watcher.announced(1_000);
    assert!(!watcher.announce_due(15_999));
    assert!(watcher.announce_due(16_000));
    assert!(!watcher.look(1_500, false, ChangeCount::Number(5)));
    assert!(watcher.look(1_500, true, ChangeCount::Number(5)));
    assert!(watcher.look(1_500, false, ChangeCount::Number(6)));
    assert!(!watcher.look(1_500, false, ChangeCount::Number(6)));
    assert!(!watcher.look(1_500, false, ChangeCount::Uncounted));
    assert!(watcher.look(1_500, false, ChangeCount::Failed));
    assert!(watcher.look(3_000, false, ChangeCount::Number(6)));
    assert!(!watcher.look(4_999, false, ChangeCount::Uncounted));
    assert!(watcher.look(5_000, false, ChangeCount::Uncounted));
    watcher.announced(u64::MAX);
    assert!(!watcher.announce_due(u64::MAX - 1));
}

#[test]
fn text_is_sent_when_it_is_new() {
    let mut watcher = Watcher::new(0, None, Some("old".to_string()));
    let mut suppressed: Option<String> = None;
    assert_eq!(watcher.respond(text("old"), &mut suppressed), Response::Nothing);
    assert_eq!(
        watcher.respond(text("new"), &mut suppressed),
        Response::Broadcast("new".to_string())
    );
    assert_eq!(watcher.respond(text("new"), &mut suppressed), Response::Nothing);
    assert_eq!(watcher.respond(Reading::Failed, &mut suppressed), Response::Nothing);
    assert_eq!(watcher.respond(text("new"), &mut suppressed), Response::Nothing);
    assert_eq!(watcher.respond(Reading::Empty, &mut suppressed), Response::Nothing);
    assert_eq!(
        watcher.respond(text("new"), &mut suppressed),
        Response::Broadcast("new".to_string())
    );
}

#[test]
fn received_text_is_held_back_once() {
    let mut watcher = Watcher::new(0, None, None);
    let mut suppressed: Option<String> = Some("theirs".to_string());
    assert_eq!(watcher.respond(text("theirs"), &mut suppressed), Response::Suppress);
    assert_eq!(suppressed, None);
    assert_eq!(watcher.respond(text("theirs"), &mut suppressed), Response::Nothing);
    assert_eq!(
        watcher.respond(text("mine"), &mut suppressed),
        Response::Broadcast("mine".to_string())
    );
    assert_eq!(
        watcher.respond(text("theirs"), &mut suppressed),
        Response::Broadcast("theirs".to_string())
    );
    let mut other: Option<String> = Some("x".to_string());
    assert!(!should_suppress(&mut other, "y"));
    assert_eq!(other.as_deref(), Some("x"));
}

#[test]
fn second_daemon_is_refused() {
    let busy = instance_lock_failure(Error::new(ErrorKind::WouldBlock, "locked"));
    assert_eq!(
        (busy.kind, busy.message),
        (ErrorKind::AlreadyExists, "another span daemon is already running")
    );
    let denied = instance_lock_failure(Error::new(ErrorKind::Other, "denied"));
    assert_eq!((denied.kind, denied.message), (ErrorKind::Other, "denied"));
}

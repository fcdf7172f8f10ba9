//! What the commands do, in terms of what the user types and sees.

use vstd::prelude::*;

use crate::commands::{
    accepting, any_new, asked, command_of, daemon_report, devices_report, discovery_report, label_of,
    lower, lower_char, name_in_list, named, peer_at, selected, status_report, trust_asked,
    trusted_at, waiting, waiting_lines, Choice, CommandName, Peer, TrustAsk, WindowAsk,
};
use crate::device::{name_of_platform, platform_named, Device, LocalDevice, TrustState};
use crate::error::Verdict;
use crate::hex::{hex_bytes, hex_decoded, hex_text, hex_value, is_hex};
use crate::registry::{first, first_absent, first_found, first_is_first};
use crate::sighting_laws::{filter_apart, filter_contains};
use crate::text::{decimal, decimal_reads_back, is_digit, parse_number};

verus! {

/// A device waits for acceptance exactly where the scan found it and it is not
/// trusted.
pub proof fn untrusted_devices_wait(devices: Seq<Device>, device: Device)
    ensures
        waiting(devices).contains(device) <==> devices.contains(device) && device.trust_state
            != TrustState::Trusted,
{
    filter_contains(
        devices,
        |device: Device| device.trust_state != TrustState::Trusted,
        device,
    );
}

/// The devices that wait are in the order of the scan, each as often as the scan
/// found it.
pub proof fn waiting_devices_keep_order(left: Seq<Device>, right: Seq<Device>)
    ensures
        waiting(left + right) == waiting(left) + waiting(right),
        forall|one: Device|
            waiting(#[trigger] seq![one]) == if one.trust_state == TrustState::Trusted {
                Seq::<Device>::empty()
            } else {
                seq![one]
            },
{
    let pick = |device: Device| device.trust_state != TrustState::Trusted;
    filter_apart(left, right, pick);
    assert forall|one: Device|
        waiting(#[trigger] seq![one]) == if one.trust_state == TrustState::Trusted {
            Seq::<Device>::empty()
        } else {
            seq![one]
        } by {
        reveal(Seq::filter);
        assert(seq![one].drop_last() =~= Seq::empty());
        assert(Seq::<Device>::empty().filter(pick) =~= Seq::empty());
        assert(seq![one].filter(pick) =~= if pick(one) {
            seq![one]
        } else {
            Seq::empty()
        });
    }
}

/// The number that is printed in front of a device that waits selects that
/// device, from the first to the last of the list; so does no selection, where
/// it is the only one.
pub proof fn printed_number_selects_device(devices: Seq<Device>, at: int)
    requires
        0 <= at < waiting(devices).len(),
        waiting(devices).len() <= usize::MAX,
    ensures
        waiting_lines(waiting(devices)).len() == waiting(devices).len(),
        waiting_lines(waiting(devices))[at] == "  "@ + decimal((at + 1) as nat) + ". "@ + waiting(
            devices,
        )[at].name + " ("@ + name_of_platform(waiting(devices)[at].platform) + ")"@,
        selected(waiting(devices), Some(decimal((at + 1) as nat))) == Some(waiting(devices)[at]),
        waiting(devices).len() == 1 ==> selected(waiting(devices), None) == Some(
            waiting(devices)[at],
        ),
{
    decimal_reads_back((at + 1) as nat);
    assert(parse_number(decimal((at + 1) as nat), usize::MAX as nat) == Some((at + 1) as nat));
}

/// An identifier selects the first device that has it, where it is no number.
pub proof fn identifier_selects_device(available: Seq<Device>, at: int, wrong: int)
    requires
        0 <= at < available.len(),
        forall|j: int| 0 <= j < at ==> (#[trigger] available[j]).id != available[at].id,
        0 <= wrong < available[at].id.len(),
        !is_digit(available[at].id[wrong]),
        available[at].id[wrong] != '+',
    ensures
        selected(available, Some(available[at].id)) == Some(available[at]),
{
    let text = available[at].id;
    no_number(text, wrong, usize::MAX as nat);
    assert forall|j: int| 0 <= j < at implies !named(text)(#[trigger] available[j]) by {}
    first_found(available, named(text), at);
}

/// What is neither the number of a device that waits nor an identifier of one
/// selects nothing. Zero is the number of none.
pub proof fn other_selection_selects_nothing(available: Seq<Device>, text: Seq<char>, number: nat)
    requires
        text == decimal(number),
        number == 0 || number > available.len(),
        number <= usize::MAX,
        forall|j: int| 0 <= j < available.len() ==> (#[trigger] available[j]).id != text,
    ensures
        selected(available, Some(text)) is None,
{
    decimal_reads_back(number);
    assert forall|j: int| 0 <= j < available.len() implies !named(text)(
        #[trigger] available[j],
    ) by {}
    first_absent(available, named(text));
}

/// Text with a character that is neither a digit nor a plus sign is no number.
proof fn no_number(text: Seq<char>, at: int, max: nat)
    requires
        0 <= at < text.len(),
        !is_digit(text[at]),
        text[at] != '+',
    ensures
        parse_number(text, max) is None,
{
    if text[0] == '+' {
        assert(text.skip(1)[at - 1] == text[at]);
    }
}

/// What the command to discover devices prints: how many it found; then each of
/// them, in its order, with its number, name, platform and state; and where one
/// of them is not trusted, how to accept it.
pub proof fn every_found_device_is_printed(devices: Seq<Device>, at: int)
    requires
        0 <= at < devices.len(),
    ensures
        ({
            let report = discovery_report(devices);
            let device = devices[at];
            let new = exists|i: int|
                0 <= i < devices.len() && (#[trigger] devices[i]).trust_state
                    != TrustState::Trusted;
            &&& report.len() == devices.len() + if new {
                3int
            } else {
                1int
            }
            &&& report[0] == "Found "@ + decimal(devices.len()) + " device(s):"@
            &&& report[at + 1] == "  "@ + decimal((at + 1) as nat) + ". "@ + device.name + " ("@
                + name_of_platform(device.platform) + ")"@ + " - "@ + match device.trust_state {
                TrustState::Discovered => "New"@,
                TrustState::Pending => "Pending"@,
                TrustState::Trusted => "Trusted"@,
                TrustState::Revoked => "Removed"@,
                TrustState::Blocked => "Blocked"@,
            }
            &&& new ==> report.last() == "Accept a new device with: span accept <number>"@
        }),
{
    assert(any_new(devices) == exists|i: int|
        0 <= i < devices.len() && (#[trigger] devices[i]).trust_state != TrustState::Trusted);
}

/// What the command to list the devices prints: each of them, in its order, with
/// all that is known of it.
pub proof fn every_known_device_is_printed(devices: Seq<Device>, trusted: nat, at: int)
    requires
        0 <= at < devices.len(),
    ensures
        ({
            let report = devices_report(devices, trusted);
            let device = devices[at];
            &&& report.len() == devices.len() + 1
            &&& report[0] == "trusted broadcast targets: "@ + decimal(trusted)
            &&& report[at + 1] == "- "@ + device.id + "\t"@ + device.name + "\t"@
                + name_of_platform(device.platform) + "\t"@ + match device.trust_state {
                TrustState::Discovered => "Discovered"@,
                TrustState::Pending => "Pending"@,
                TrustState::Trusted => "Trusted"@,
                TrustState::Revoked => "Revoked"@,
                TrustState::Blocked => "Blocked"@,
            } + "\t"@ + if device.endpoint is Some {
                device.endpoint->0
            } else {
                "-"@
            }
        }),
{
}

/// Text for a host is sealed for the first trusted device that has the host as
/// its address, and for no device that is not trusted.
pub proof fn host_stands_for_trusted_device(devices: Seq<Device>, host: Seq<char>, at: int)
    ensures
        0 <= at < devices.len() && devices[at].trust_state == TrustState::Trusted
            && devices[at].endpoint == Some(host) && (forall|j: int|
            0 <= j < at ==> (#[trigger] devices[j]).trust_state != TrustState::Trusted
                || devices[j].endpoint != Some(host)) ==> first(devices, trusted_at(host)) == Some(
            at,
        ),
        (forall|j: int|
            0 <= j < devices.len() ==> (#[trigger] devices[j]).trust_state != TrustState::Trusted
                || devices[j].endpoint != Some(host)) ==> first(devices, trusted_at(host)) is None,
{
    let property = trusted_at(host);
    if 0 <= at < devices.len() && devices[at].trust_state == TrustState::Trusted
        && devices[at].endpoint == Some(host) && (forall|j: int|
        0 <= j < at ==> (#[trigger] devices[j]).trust_state != TrustState::Trusted
            || devices[j].endpoint != Some(host)) {
        assert forall|j: int| 0 <= j < at implies !property(#[trigger] devices[j]) by {}
        first_found(devices, property, at);
    }
    if forall|j: int|
        0 <= j < devices.len() ==> (#[trigger] devices[j]).trust_state != TrustState::Trusted
            || devices[j].endpoint != Some(host) {
        assert forall|j: int| 0 <= j < devices.len() implies !property(#[trigger] devices[j]) by {}
        first_absent(devices, property);
    }
}

/// The words for two trust states differ, in the list of a scan and in that of
/// all devices.
pub proof fn states_are_told_apart(left: TrustState, right: TrustState)
    requires
        left != right,
    ensures
        label_of(left) != label_of(right),
        name_in_list(left) != name_in_list(right),
{
    reveal_strlit("Trusted");
    reveal_strlit("Removed");
    reveal_strlit("Revoked");
    reveal_strlit("Blocked");
    reveal_strlit("Pending");
    reveal_strlit("New");
    reveal_strlit("Discovered");
    assert("Trusted"@[0] == 'T' && "Removed"@[0] == 'R' && "Revoked"@[0] == 'R');
    assert("Blocked"@[0] == 'B' && "Pending"@[0] == 'P');
    assert("New"@[0] == 'N' && "Discovered"@[0] == 'D');
}

/// The window that is opened for anything but a pairing manages the devices; one
/// that is opened for a pairing asks about the device that is named, also where
/// its name and its platform are left out.
pub proof fn window_is_opened_for(given: Seq<Seq<char>>)
    ensures
        given.len() == 0 || given[0] != "pair"@ ==> asked(given) == Verdict::Done(
            WindowAsk::Manage,
        ),
        given.len() == 1 && given[0] == "pair"@ ==> asked(given) is Fails,
        given.len() >= 2 && given[0] == "pair"@ ==> (asked(given) matches Verdict::Done(
            WindowAsk::Pair { id, name, platform },
        ) && id == given[1] && (given.len() >= 3 ==> name == given[2]) && (given.len() >= 4
            ==> platform == given[3])),
{
}

/// A key means the same in capital letters and in small ones: the command to
/// trust a device takes it either way.
pub proof fn case_of_a_key_does_not_matter(text: Seq<char>)
    ensures
        hex_decoded(lower(text)) == hex_decoded(text),
{
    let small = lower(text);
    assert forall|i: int| 0 <= i < text.len() implies hex_value(#[trigger] small[i]) == hex_value(
        text[i],
    ) by {
        small_digit(text[i]);
    }
    assert(is_hex(small) == is_hex(text)) by {
        if is_hex(text) {
            assert forall|i: int| 0 <= i < small.len() implies hex_value(
                #[trigger] small[i],
            ) is Some by {
                assert(hex_value(text[i]) is Some);
            }
        }
        if is_hex(small) {
            assert forall|i: int| 0 <= i < text.len() implies hex_value(
                #[trigger] text[i],
            ) is Some by {
                assert(hex_value(small[i]) is Some);
            }
        }
    }
    if is_hex(text) {
        assert forall|i: int| 0 <= i < text.len() / 2 implies hex_bytes(small)[i] == hex_bytes(
            text,
        )[i] by {
            assert(hex_value(small[2 * i]) == hex_value(text[2 * i]));
            assert(hex_value(small[2 * i + 1]) == hex_value(text[2 * i + 1]));
        }
        assert(hex_bytes(small) =~= hex_bytes(text));
    }
}

proof fn small_digit(c: char)
    ensures
        hex_value(lower_char(c)) == hex_value(c),
{
    if 'A' <= c <= 'Z' {
        assert(lower_char(c) as int == c as int + 32);
    }
}

/// The words of the commands, and no others, name them.
#[verifier::rlimit(40)]
pub proof fn words_name_commands(word: Seq<char>)
    ensures
        word == "install"@ <==> command_of(word) == CommandName::Install,
        word == "start"@ <==> command_of(word) == CommandName::Start,
        word == "stop"@ <==> command_of(word) == CommandName::Stop,
        word == "restart"@ <==> command_of(word) == CommandName::Restart,
        word == "discover"@ <==> command_of(word) == CommandName::Discover,
        word == "accept"@ <==> command_of(word) == CommandName::Accept,
        word == "send"@ <==> command_of(word) == CommandName::Send,
        word == "status"@ <==> command_of(word) == CommandName::Status,
        word == "devices"@ <==> command_of(word) == CommandName::Devices,
        word == "trust"@ <==> command_of(word) == CommandName::Trust,
        word == "revoke"@ <==> command_of(word) == CommandName::Revoke,
        word == "reset"@ <==> command_of(word) == CommandName::Reset,
        word == "announce"@ <==> command_of(word) == CommandName::Announce,
        word == "clip-read"@ <==> command_of(word) == CommandName::ClipRead,
        word == "clip-write"@ <==> command_of(word) == CommandName::ClipWrite,
        word == "send-text"@ <==> command_of(word) == CommandName::SendText,
        word == "receive-once"@ <==> command_of(word) == CommandName::ReceiveOnce,
        word == "uninstall"@ <==> command_of(word) == CommandName::Uninstall,
        word == "help"@ || word == "--help"@ || word == "-h"@ <==> command_of(word)
            == CommandName::Help,
        word == "run"@ || word == "foreground"@ <==> command_of(word) == CommandName::Run,
        word == "gui"@ || word == "ui"@ || word == "open"@ <==> command_of(word)
            == CommandName::Gui,
{
    words_differ();
}

/// The words of the commands differ in their lengths or in their first two
/// letters.
proof fn words_differ()
    ensures
        "install"@.len() == 7 && "install"@[0] == 'i' && "install"@[1] == 'n',
        "start"@.len() == 5 && "start"@[0] == 's' && "start"@[1] == 't',
        "stop"@.len() == 4 && "stop"@[0] == 's' && "stop"@[1] == 't',
        "restart"@.len() == 7 && "restart"@[0] == 'r' && "restart"@[1] == 'e',
        "discover"@.len() == 8 && "discover"@[0] == 'd' && "discover"@[1] == 'i',
        "accept"@.len() == 6 && "accept"@[0] == 'a' && "accept"@[1] == 'c',
        "send"@.len() == 4 && "send"@[0] == 's' && "send"@[1] == 'e',
        "help"@.len() == 4 && "help"@[0] == 'h' && "help"@[1] == 'e',
        "--help"@.len() == 6 && "--help"@[0] == '-' && "--help"@[1] == '-',
        "-h"@.len() == 2 && "-h"@[0] == '-' && "-h"@[1] == 'h',
        "run"@.len() == 3 && "run"@[0] == 'r' && "run"@[1] == 'u',
        "foreground"@.len() == 10 && "foreground"@[0] == 'f' && "foreground"@[1] == 'o',
        "status"@.len() == 6 && "status"@[0] == 's' && "status"@[1] == 't',
        "devices"@.len() == 7 && "devices"@[0] == 'd' && "devices"@[1] == 'e',
        "trust"@.len() == 5 && "trust"@[0] == 't' && "trust"@[1] == 'r',
        "revoke"@.len() == 6 && "revoke"@[0] == 'r' && "revoke"@[1] == 'e',
        "reset"@.len() == 5 && "reset"@[0] == 'r' && "reset"@[1] == 'e',
        "announce"@.len() == 8 && "announce"@[0] == 'a' && "announce"@[1] == 'n',
        "clip-read"@.len() == 9 && "clip-read"@[0] == 'c' && "clip-read"@[1] == 'l',
        "clip-write"@.len() == 10 && "clip-write"@[0] == 'c' && "clip-write"@[1] == 'l',
        "send-text"@.len() == 9 && "send-text"@[0] == 's' && "send-text"@[1] == 'e',
        "receive-once"@.len() == 12 && "receive-once"@[0] == 'r' && "receive-once"@[1] == 'e',
        "uninstall"@.len() == 9 && "uninstall"@[0] == 'u' && "uninstall"@[1] == 'n',
        "gui"@.len() == 3 && "gui"@[0] == 'g' && "gui"@[1] == 'u',
        "ui"@.len() == 2 && "ui"@[0] == 'u' && "ui"@[1] == 'i',
        "open"@.len() == 4 && "open"@[0] == 'o' && "open"@[1] == 'p',
{
    reveal_strlit("install");
    reveal_strlit("start");
    reveal_strlit("stop");
    reveal_strlit("restart");
    reveal_strlit("discover");
    reveal_strlit("accept");
    reveal_strlit("send");
    reveal_strlit("help");
    reveal_strlit("--help");
    reveal_strlit("-h");
    reveal_strlit("run");
    reveal_strlit("foreground");
    reveal_strlit("status");
    reveal_strlit("devices");
    reveal_strlit("trust");
    reveal_strlit("revoke");
    reveal_strlit("reset");
    reveal_strlit("announce");
    reveal_strlit("clip-read");
    reveal_strlit("clip-write");
    reveal_strlit("send-text");
    reveal_strlit("receive-once");
    reveal_strlit("uninstall");
    reveal_strlit("gui");
    reveal_strlit("ui");
    reveal_strlit("open");
}

/// The status shows this device, its key in hexadecimal, and how many devices
/// are trusted.
pub proof fn status_shows_this_device(local: LocalDevice, trusted: nat)
    ensures
        ({
            let report = status_report(local, trusted);
            &&& report.len() == 5
            &&& report[1] == "device: "@ + local.name@ + " ("@ + local.id@ + ")"@
            &&& report[2] == "platform: "@ + name_of_platform(local.platform)
            &&& report[3] == "public key: "@ + hex_text(local.public_key@)
            &&& report[4] == "trusted targets: "@ + decimal(trusted)
        }),
{
}

/// What the command to accept a device does. Without a device that is not
/// trusted there is none to accept. The only one is accepted without being
/// named; several are listed, each with its number. The number that a device has
/// in that list accepts it.
pub proof fn devices_are_accepted_by_number(devices: Seq<Device>, at: int)
    requires
        waiting(devices).len() <= usize::MAX,
    ensures
        (forall|j: int|
            0 <= j < devices.len() ==> (#[trigger] devices[j]).trust_state == TrustState::Trusted)
            <==> accepting(devices, None) is NoneWaiting,
        waiting(devices).len() == 1 ==> accepting(devices, None) == Choice::Selected(
            waiting(devices)[0],
        ),
        waiting(devices).len() > 1 ==> accepting(devices, None) == Choice::List(
            waiting_lines(waiting(devices)),
        ),
        0 <= at < waiting(devices).len() ==> {
            &&& accepting(devices, Some(decimal((at + 1) as nat))) == Choice::Selected(
                waiting(devices)[at],
            )
            &&& waiting_lines(waiting(devices))[at] == "  "@ + decimal((at + 1) as nat) + ". "@
                + waiting(devices)[at].name + " ("@ + name_of_platform(
                waiting(devices)[at].platform,
            ) + ")"@
        },
{
    if 0 <= at < waiting(devices).len() {
        printed_number_selects_device(devices, at);
    }
    if forall|j: int|
        0 <= j < devices.len() ==> (#[trigger] devices[j]).trust_state == TrustState::Trusted {
        if waiting(devices).len() > 0 {
            let one = waiting(devices)[0];
            untrusted_devices_wait(devices, one);
            assert(waiting(devices).contains(one));
        }
    } else {
        let j = choose|j: int|
            0 <= j < devices.len() && (#[trigger] devices[j]).trust_state != TrustState::Trusted;
        untrusted_devices_wait(devices, devices[j]);
        assert(devices.contains(devices[j]));
    }
}

/// What the command to accept a device does with an identifier that is no
/// number: it accepts the first device that has it and is not trusted, and finds
/// none where there is none.
pub proof fn devices_are_accepted_by_identifier(devices: Seq<Device>, id: Seq<char>, wrong: int)
    requires
        waiting(devices).len() > 0,
        0 <= wrong < id.len(),
        !is_digit(id[wrong]),
        id[wrong] != '+',
    ensures
        match accepting(devices, Some(id)) {
            Choice::Selected(device) => devices.contains(device) && device.id == id
                && device.trust_state != TrustState::Trusted,
            Choice::NotFound => forall|j: int|
                0 <= j < devices.len() && (#[trigger] devices[j]).id == id
                    ==> devices[j].trust_state == TrustState::Trusted,
            _ => false,
        },
{
    let available = waiting(devices);
    no_number(id, wrong, usize::MAX as nat);
    first_is_first(available, named(id));
    match first(available, named(id)) {
        Some(i) => {
            assert(named(id)(available[i]));
            untrusted_devices_wait(devices, available[i]);
            assert(available.contains(available[i]));
        },
        None => {
            assert forall|j: int|
                0 <= j < devices.len() && (#[trigger] devices[j]).id
                    == id implies devices[j].trust_state == TrustState::Trusted by {
                if devices[j].trust_state != TrustState::Trusted {
                    untrusted_devices_wait(devices, devices[j]);
                    assert(devices.contains(devices[j]));
                    let k = choose|k: int| 0 <= k < available.len() && available[k] == devices[j];
                    assert(!named(id)(available[k]));
                }
            }
        },
    }
}

/// Text for a host goes to the trusted device there, under its key: to the first
/// that has the host as its address, and to none that is not trusted.
pub proof fn host_is_a_trusted_device(devices: Seq<Device>, host: Seq<char>, at: int)
    ensures
        (forall|j: int|
            0 <= j < devices.len() ==> (#[trigger] devices[j]).trust_state != TrustState::Trusted
                || devices[j].endpoint != Some(host)) <==> peer_at(devices, host) is NotFound,
        0 <= at < devices.len() && devices[at].trust_state == TrustState::Trusted
            && devices[at].endpoint == Some(host) && (forall|j: int|
            0 <= j < at ==> (#[trigger] devices[j]).trust_state != TrustState::Trusted
                || devices[j].endpoint != Some(host)) ==> peer_at(devices, host) == match
            devices[at].public_key {
            Some(key) => Peer::Key(key),
            None => Peer::MissingKey(devices[at].name),
        },
{
    host_stands_for_trusted_device(devices, host, at);
    first_is_first(devices, trusted_at(host));
    if first(devices, trusted_at(host)) is Some {
        let i = first(devices, trusted_at(host))->0;
        assert(trusted_at(host)(devices[i]));
        assert(devices[i].trust_state == TrustState::Trusted);
    }
}

/// What the command to trust a device takes: one argument is the identifier of a
/// known device; three to five describe one, the last in hexadecimal, 32 bytes
/// in letters of either case. An identifier must not be empty, and any other
/// number of arguments is not understood.
pub proof fn trust_takes_what_is_given(given: Seq<Seq<char>>, key: Seq<u8>)
    ensures
        given.len() == 1 && given[0].len() > 0 ==> trust_asked(given) == Verdict::Done(
            TrustAsk::Known(given[0]),
        ),
        given.len() == 0 || given.len() == 2 || given.len() > 5 ==> trust_asked(given)
            == Verdict::Done(TrustAsk::Usage),
        (given.len() == 1 || 3 <= given.len() <= 5) && given[0].len() == 0 ==> trust_asked(given)
            is Fails,
        given.len() == 3 && given[0].len() > 0 ==> trust_asked(given) == Verdict::Done(
            TrustAsk::Described {
                id: given[0],
                name: given[1],
                platform: platform_named(given[2]),
                endpoint: None,
                public_key: None,
            },
        ),
        given.len() == 4 && given[0].len() > 0 ==> trust_asked(given) == Verdict::Done(
            TrustAsk::Described {
                id: given[0],
                name: given[1],
                platform: platform_named(given[2]),
                endpoint: Some(given[3]),
                public_key: None,
            },
        ),
        given.len() == 5 && given[0].len() > 0 && hex_decoded(given[4]) == Some(key) && key.len()
            == 32 ==> trust_asked(given) == Verdict::Done(
            TrustAsk::Described {
                id: given[0],
                name: given[1],
                platform: platform_named(given[2]),
                endpoint: Some(given[3]),
                public_key: Some(lower(given[4])),
            },
        ),
        given.len() == 5 && given[0].len() > 0 && (hex_decoded(given[4]) is None || hex_decoded(
            given[4],
        )->0.len() != 32) ==> trust_asked(given) is Fails,
{
    case_of_a_key_does_not_matter(given[4]);
}

/// What the background process prints at its start: this device, how many
/// devices are trusted, and where it listens.
pub proof fn daemon_says_where_it_listens(local: LocalDevice, trusted: nat, port: nat)
    ensures
        ({
            let report = daemon_report(local, trusted, port);
            &&& report.len() == 6
            &&& report[1] == "device : "@ + local.name@ + " ("@ + local.id@ + ")"@
            &&& report[4] == "targets: "@ + decimal(trusted) + " trusted"@
            &&& report[5] == "listen : 0.0.0.0:"@ + decimal(port)
        }),
{
}

/// Without any device the list says so.
pub proof fn empty_list_says_so(devices: Seq<Device>, trusted: nat)
    requires
        devices.len() == 0,
    ensures
        devices_report(devices, trusted).len() == 2,
        devices_report(devices, trusted)[1] == "no devices yet"@,
        discovery_report(devices).len() == 1,
        discovery_report(devices)[0] == "No Span devices found on this network."@,
{
}

/// A number that no waiting device has is taken as an identifier, and selects
/// the first device that has it.
pub proof fn other_number_is_an_identifier(available: Seq<Device>, at: int, number: nat)
    requires
        0 <= at < available.len(),
        forall|j: int| 0 <= j < at ==> (#[trigger] available[j]).id != available[at].id,
        available[at].id == decimal(number),
        number == 0 || number > available.len(),
    ensures
        selected(available, Some(available[at].id)) == Some(available[at]),
{
    let text = available[at].id;
    decimal_reads_back(number);
    assert forall|j: int| 0 <= j < at implies !named(text)(#[trigger] available[j]) by {}
    first_found(available, named(text), at);
}

} // verus!

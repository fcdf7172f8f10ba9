//! The command line: which command is meant, what its arguments ask for, and
//! what is printed.

use vstd::prelude::*;

use crate::device::{
    device_list, holds_text, name_of_platform, optional_text, parse_platform, platform_name,
    platform_named, Device, DeviceId, DeviceInfo, LocalDevice, Platform, TrustState,
};
use crate::error::{Error, ErrorKind, Verdict};
use crate::hex::{decode_hex, hex_decoded, hex_text};
use crate::registry::{first, first_absent, first_found};
use crate::text::{
    chars_of, decimal, decimal_text, join, joined, number_of, parse_number, same, texts,
};

verus! {

/// The commands.
#[derive(Clone, Copy, Debug, PartialEq, Eq, Structural)]
pub enum CommandName {
    Install,
    Start,
    Stop,
    Restart,
    Discover,
    Accept,
    Send,
    Help,
    Run,
    Status,
    Devices,
    Trust,
    Revoke,
    Reset,
    Announce,
    ClipRead,
    ClipWrite,
    SendText,
    ReceiveOnce,
    Uninstall,
    Gui,
    Unknown,
}

/// The command of that name.
pub open spec fn command_of(word: Seq<char>) -> CommandName {
    if word == "install"@ {
        CommandName::Install
    } else if word == "start"@ {
        CommandName::Start
    } else if word == "stop"@ {
        CommandName::Stop
    } else if word == "restart"@ {
        CommandName::Restart
    } else if word == "discover"@ {
        CommandName::Discover
    } else if word == "accept"@ {
        CommandName::Accept
    } else if word == "send"@ {
        CommandName::Send
    } else if word == "help"@ || word == "--help"@ || word == "-h"@ {
        CommandName::Help
    } else if word == "run"@ || word == "foreground"@ {
        CommandName::Run
    } else if word == "status"@ {
        CommandName::Status
    } else if word == "devices"@ {
        CommandName::Devices
    } else if word == "trust"@ {
        CommandName::Trust
    } else if word == "revoke"@ {
        CommandName::Revoke
    } else if word == "reset"@ {
        CommandName::Reset
    } else if word == "announce"@ {
        CommandName::Announce
    } else if word == "clip-read"@ {
        CommandName::ClipRead
    } else if word == "clip-write"@ {
        CommandName::ClipWrite
    } else if word == "send-text"@ {
        CommandName::SendText
    } else if word == "receive-once"@ {
        CommandName::ReceiveOnce
    } else if word == "uninstall"@ {
        CommandName::Uninstall
    } else if word == "gui"@ || word == "ui"@ || word == "open"@ {
        CommandName::Gui
    } else {
        CommandName::Unknown
    }
}

/// The command of that name.
pub fn command_named(word: &str) -> (res: CommandName)
    ensures
        res == command_of(word@),
{
    if same(word, "install") {
        CommandName::Install
    } else if same(word, "start") {
        CommandName::Start
    } else if same(word, "stop") {
        CommandName::Stop
    } else if same(word, "restart") {
        CommandName::Restart
    } else if same(word, "discover") {
        CommandName::Discover
    } else if same(word, "accept") {
        CommandName::Accept
    } else if same(word, "send") {
        CommandName::Send
    } else if same(word, "help") || same(word, "--help") || same(word, "-h") {
        CommandName::Help
    } else if same(word, "run") || same(word, "foreground") {
        CommandName::Run
    } else if same(word, "status") {
        CommandName::Status
    } else if same(word, "devices") {
        CommandName::Devices
    } else if same(word, "trust") {
        CommandName::Trust
    } else if same(word, "revoke") {
        CommandName::Revoke
    } else if same(word, "reset") {
        CommandName::Reset
    } else if same(word, "announce") {
        CommandName::Announce
    } else if same(word, "clip-read") {
        CommandName::ClipRead
    } else if same(word, "clip-write") {
        CommandName::ClipWrite
    } else if same(word, "send-text") {
        CommandName::SendText
    } else if same(word, "receive-once") {
        CommandName::ReceiveOnce
    } else if same(word, "uninstall") {
        CommandName::Uninstall
    } else if same(word, "gui") || same(word, "ui") || same(word, "open") {
        CommandName::Gui
    } else {
        CommandName::Unknown
    }
}

/// A command without a name opens the window.
pub fn command(word: Option<&str>) -> (res: CommandName)
    ensures
        res == match word {
            Some(word) => command_of(word@),
            None => CommandName::Gui,
        },
{
    match word {
        Some(word) => command_named(word),
        None => CommandName::Gui,
    }
}

/// What the help prints.
pub const HELP: &'static str =
    "Span - cross-device clipboard\n\n  span                         open device manager\n  span install                 install and enable auto-start\n  span start                   start background sync\n  span stop                    stop background sync\n  span restart                 restart background sync\n  span discover                find devices on this network\n  span accept [number|id]      accept a discovered device\n  span send [text]             send text, or current clipboard";

/// How the command to trust a device is used.
pub const TRUST_USAGE: &'static str =
    "usage: span trust <id> <name> <platform> [host] [public-key]";

/// How the command to revoke a device is used.
pub const REVOKE_USAGE: &'static str = "usage: span revoke <id>";

/// How the command to write the clipboard is used.
pub const CLIP_WRITE_USAGE: &'static str = "usage: span clip-write <text>";

/// How the command to send a text to a host is used.
pub const SEND_TEXT_USAGE: &'static str = "usage: span send-text <host> <text>";

// trust
/// What the arguments of the command to trust a device ask for.
#[derive(Debug, PartialEq, Eq)]
pub enum TrustRequest {
    /// The arguments are not right.
    Usage,
    /// Trust a device that is known.
    Known(DeviceId),
    /// Trust a device that the arguments describe.
    Described {
        id: DeviceId,
        name: String,
        platform: Platform,
        endpoint: Option<String>,
        public_key: Option<String>,
    },
}

/// What the arguments of the command to trust a device ask for, as mathematical
/// values.
pub enum TrustAsk {
    Usage,
    Known(Seq<char>),
    Described {
        id: Seq<char>,
        name: Seq<char>,
        platform: Platform,
        endpoint: Option<Seq<char>>,
        public_key: Option<Seq<char>>,
    },
}

impl View for TrustRequest {
    type V = TrustAsk;

    open spec fn view(&self) -> TrustAsk {
        match self {
            TrustRequest::Usage => TrustAsk::Usage,
            TrustRequest::Known(id) => TrustAsk::Known(id@),
            TrustRequest::Described { id, name, platform, endpoint, public_key } => {
                TrustAsk::Described {
                    id: id@,
                    name: name@,
                    platform: *platform,
                    endpoint: optional_text(*endpoint),
                    public_key: optional_text(*public_key),
                }
            },
        }
    }
}

/// What the arguments of the command to trust a device ask for.
pub open spec fn trust_asked(given: Seq<Seq<char>>) -> Verdict<TrustAsk> {
    let key = lower(given[4]);
    if given.len() == 2 || given.len() == 0 || given.len() > 5 {
        Verdict::Done(TrustAsk::Usage)
    } else if given[0].len() == 0 {
        Verdict::Fails(ErrorKind::InvalidInput, "empty device id"@)
    } else if given.len() == 1 {
        Verdict::Done(TrustAsk::Known(given[0]))
    } else if given.len() == 5 && hex_decoded(key) is None {
        Verdict::Fails(ErrorKind::InvalidInput, "bad public key hex"@)
    } else if given.len() == 5 && hex_decoded(key)->0.len() != 32 {
        Verdict::Fails(ErrorKind::InvalidInput, "bad public key length"@)
    } else {
        Verdict::Done(
            TrustAsk::Described {
                id: given[0],
                name: given[1],
                platform: platform_named(given[2]),
                endpoint: if given.len() > 3 {
                    Some(given[3])
                } else {
                    None
                },
                public_key: if given.len() > 4 {
                    Some(key)
                } else {
                    None
                },
            },
        )
    }
}

/// `c` in lower case, where it is one of the letters of ASCII.
pub open spec fn lower_char(c: char) -> char {
    if 'A' <= c <= 'Z' {
        (c as int + 32) as char
    } else {
        c
    }
}

/// Text in lower case, as far as it consists of letters of ASCII.
pub open spec fn lower(text: Seq<char>) -> Seq<char> {
    Seq::new(text.len(), |i: int| lower_char(text[i]))
}

fn lowered_char(c: char) -> (res: char)
    ensures
        res == lower_char(c),
{
    if 'A' <= c && c <= 'Z' {
        (c as u8 + 32) as char
    } else {
        c
    }
}

fn lowered(text: &str) -> (res: String)
    ensures
        res@ == lower(text@),
{
    let chars = chars_of(text);
    let mut res: String = String::new();
    let mut i: usize = 0;
    while i < chars.len()
        invariant
            i <= chars.len(),
            res@ == lower(chars@).take(i as int),
        decreases chars.len() - i,
    {
        res.push(lowered_char(chars[i]));
        assert(lower(chars@).take(i + 1) =~= lower(chars@).take(i as int).push(
            lower_char(chars@[i as int]),
        ));
        i += 1;
    }
    assert(lower(chars@).take(i as int) =~= lower(chars@));
    res
}

/// What the arguments of the command to trust a device ask for. One argument
/// names a known device. Three to five describe a device: identifier, name,
/// platform, and then the host and the key in hexadecimal, which is kept in
/// lower case.
pub fn trust_request(arguments: &[String]) -> (res: Result<TrustRequest, Error>)
    ensures
        match res {
            Ok(request) => trust_asked(texts(arguments@)) == Verdict::Done(request@),
            Err(error) => trust_asked(texts(arguments@)) == Verdict::<TrustAsk>::Fails(
                error.kind,
                error.message@,
            ),
        },
        ({
            let given = texts(arguments@);
            let key = lower(given[4]);
            if given.len() == 1 {
                if given[0].len() == 0 {
                    res matches Err(error) && error.is(ErrorKind::InvalidInput, "empty device id")
                } else {
                    res matches Ok(TrustRequest::Known(id)) && id@ == given[0]
                }
            } else if given.len() < 3 || given.len() > 5 {
                res == Ok::<TrustRequest, Error>(TrustRequest::Usage)
            } else if given[0].len() == 0 {
                res matches Err(error) && error.is(ErrorKind::InvalidInput, "empty device id")
            } else if given.len() == 5 && hex_decoded(key) is None {
                res matches Err(error) && error.is(ErrorKind::InvalidInput, "bad public key hex")
            } else if given.len() == 5 && hex_decoded(key)->0.len() != 32 {
                res matches Err(error) && error.is(ErrorKind::InvalidInput, "bad public key length")
            } else {
                res matches Ok(
                    TrustRequest::Described { id, name, platform, endpoint, public_key },
                ) && id@ == given[0] && name@ == given[1] && platform == platform_named(given[2])
                    && optional_text(endpoint) == (if given.len() > 3 {
                    Some(given[3])
                } else {
                    None
                }) && optional_text(public_key) == (if given.len() > 4 {
                    Some(key)
                } else {
                    None
                })
            }
        }),
{
    let ghost given = texts(arguments@);
    assert(forall|i: int| 0 <= i < arguments@.len() ==> given[i] == (#[trigger] arguments@[i])@);
    let count: usize = arguments.len();
    if count == 1 {
        return match DeviceId::new(arguments[0].as_str()) {
            Some(id) => Ok(TrustRequest::Known(id)),
            None => Err(Error::new(ErrorKind::InvalidInput, "empty device id")),
        };
    }
    if count < 3 || count > 5 {
        return Ok(TrustRequest::Usage);
    }
    let id = match DeviceId::new(arguments[0].as_str()) {
        Some(id) => id,
        None => {
            return Err(Error::new(ErrorKind::InvalidInput, "empty device id"));
        },
    };
    let public_key = if count > 4 {
        let key = lowered(arguments[4].as_str());
        match decode_hex(key.as_str()) {
            Some(bytes) => if bytes.len() != 32 {
                return Err(Error::new(ErrorKind::InvalidInput, "bad public key length"));
            },
            None => {
                return Err(Error::new(ErrorKind::InvalidInput, "bad public key hex"));
            },
        }
        Some(key)
    } else {
        None
    };
    let endpoint = if count > 3 {
        Some(arguments[3].clone())
    } else {
        None
    };
    Ok(
        TrustRequest::Described {
            id,
            name: arguments[1].clone(),
            platform: parse_platform(arguments[2].as_str()),
            endpoint,
            public_key,
        },
    )
}

/// What is printed of a device that is trusted now.
pub fn trusted_line(name: &str, id: &DeviceId) -> (res: String)
    ensures
        res@ == "trusted: "@ + name@ + " ("@ + id@ + ")"@,
{
    let mut res: String = "trusted: ".to_owned();
    res.append(name);
    res.append(" (");
    res.append(id.as_str());
    res.append(")");
    res
}

/// What is printed of a described device that is trusted now.
pub fn trusted_described_line(name: &str, platform: Platform, endpoint: &Option<String>) -> (res:
    String)
    ensures
        res@ == "trusted: "@ + name@ + " ("@ + name_of_platform(platform) + ")"@
            + match optional_text(*endpoint) {
            Some(text) => " at "@ + text,
            None => Seq::empty(),
        },
{
    let mut res: String = "trusted: ".to_owned();
    res.append(name);
    res.append(" (");
    res.append(platform_name(platform));
    res.append(")");
    let ghost before = res@;
    match endpoint {
        Some(text) => {
            res.append(" at ");
            res.append(text.as_str());
            assert(res@ =~= before + (" at "@ + text@));
        },
        None => {
            assert(res@ =~= before + Seq::<char>::empty());
        },
    }
    res
}

/// What is printed of a device: `label`, directly followed by the identifier.
pub fn labelled_line(label: &str, id: &DeviceId) -> (res: String)
    ensures
        res@ == label@ + id@,
{
    let mut res: String = label.to_owned();
    res.append(id.as_str());
    res
}

// revoke
/// The device that the command to revoke a device names, if it names one.
pub fn revoke_request(argument: Option<&str>) -> (res: Option<DeviceId>)
    ensures
        match argument {
            Some(text) => if text@.len() > 0 {
                res matches Some(id) && id@ == text@
            } else {
                res is None
            },
            None => res is None,
        },
{
    match argument {
        Some(text) => DeviceId::new(text),
        None => None,
    }
}

// discover
/// The word for a trust state in lists.
pub open spec fn label_of(state: TrustState) -> Seq<char> {
    match state {
        TrustState::Trusted => "Trusted"@,
        TrustState::Revoked => "Removed"@,
        TrustState::Blocked => "Blocked"@,
        TrustState::Pending => "Pending"@,
        TrustState::Discovered => "New"@,
    }
}

/// The word for a trust state in lists.
pub fn state_label(state: TrustState) -> (res: &'static str)
    ensures
        res@ == label_of(state),
{
    match state {
        TrustState::Trusted => "Trusted",
        TrustState::Revoked => "Removed",
        TrustState::Blocked => "Blocked",
        TrustState::Pending => "Pending",
        TrustState::Discovered => "New",
    }
}

/// The numbered line of a device, without its state.
pub open spec fn numbered(number: nat, device: Device) -> Seq<char> {
    "  "@ + decimal(number) + ". "@ + device.name + " ("@ + name_of_platform(device.platform) + ")"@
}

fn numbered_line(number: u64, device: &DeviceInfo) -> (res: String)
    ensures
        res@ == numbered(number as nat, device@),
{
    let mut res: String = "  ".to_owned();
    res.append(decimal_text(number).as_str());
    res.append(". ");
    res.append(device.name.as_str());
    res.append(" (");
    res.append(platform_name(device.platform));
    res.append(")");
    res
}

/// The numbered lines of devices, with their states.
pub open spec fn found_lines(devices: Seq<Device>) -> Seq<Seq<char>> {
    Seq::new(
        devices.len(),
        |i: int|
            numbered((i + 1) as nat, devices[i]) + " - "@ + label_of(devices[i].trust_state),
    )
}

/// Whether a device of the list is not trusted.
pub open spec fn any_new(devices: Seq<Device>) -> bool {
    exists|i: int|
        0 <= i < devices.len() && (#[trigger] devices[i]).trust_state != TrustState::Trusted
}

/// What the command to discover devices prints.
pub open spec fn discovery_report(devices: Seq<Device>) -> Seq<Seq<char>> {
    if devices.len() == 0 {
        seq!["No Span devices found on this network."@]
    } else {
        let head = seq!["Found "@ + decimal(devices.len()) + " device(s):"@];
        let tail = if any_new(devices) {
            seq![Seq::<char>::empty(), "Accept a new device with: span accept <number>"@]
        } else {
            Seq::empty()
        };
        head + found_lines(devices) + tail
    }
}

proof fn texts_push(parts: Seq<String>, part: String)
    ensures
        texts(parts.push(part)) == texts(parts).push(part@),
{
    assert(texts(parts.push(part)) =~= texts(parts).push(part@));
}

/// What the command to discover devices prints, line by line.
pub fn discover_lines(devices: &[DeviceInfo]) -> (res: Vec<String>)
    ensures
        texts(res@) == discovery_report(device_list(devices@)),
{
    let ghost list = device_list(devices@);
    let mut res: Vec<String> = Vec::new();
    if devices.len() == 0 {
        res.push("No Span devices found on this network.".to_owned());
        assert(texts(res@) =~= discovery_report(list));
        return res;
    }
    let mut head: String = "Found ".to_owned();
    head.append(decimal_text(devices.len() as u64).as_str());
    head.append(" device(s):");
    let ghost title = seq!["Found "@ + decimal(list.len()) + " device(s):"@];
    res.push(head);
    assert(texts(res@) =~= title + found_lines(list).take(0));
    let mut new = false;
    let mut i: usize = 0;
    while i < devices.len()
        invariant
            i <= devices.len(),
            list == device_list(devices@),
            texts(res@) == title + found_lines(list).take(i as int),
            new == exists|k: int|
                0 <= k < i && (#[trigger] list[k]).trust_state != TrustState::Trusted,
        decreases devices.len() - i,
    {
        let device = &devices[i];
        assert(list[i as int] == device@);
        let mut line = numbered_line(i as u64 + 1, device);
        line.append(" - ");
        line.append(state_label(device.trust_state));
        assert(found_lines(list).take(i + 1) =~= found_lines(list).take(i as int).push(
            found_lines(list)[i as int],
        ));
        proof {
            texts_push(res@, line);
        }
        res.push(line);
        assert(texts(res@) =~= title + found_lines(list).take(i + 1));
        if device.trust_state != TrustState::Trusted {
            new = true;
        }
        i += 1;
    }
    assert(found_lines(list).take(i as int) =~= found_lines(list));
    assert(new == any_new(list));
    let ghost before = texts(res@);
    if new {
        let empty: String = String::new();
        let hint: String = "Accept a new device with: span accept <number>".to_owned();
        proof {
            texts_push(res@, empty);
            texts_push(res@.push(empty), hint);
        }
        res.push(empty);
        res.push(hint);
        assert(texts(res@) =~= before + seq![
            Seq::<char>::empty(),
            "Accept a new device with: span accept <number>"@,
        ]);
    } else {
        assert(before =~= before + Seq::<Seq<char>>::empty());
    }
    res
}

// accept
/// The devices that wait for acceptance: those that are not trusted, in their
/// order.
pub open spec fn waiting(devices: Seq<Device>) -> Seq<Device> {
    devices.filter(|device: Device| device.trust_state != TrustState::Trusted)
}

/// A property of devices: it has this identifier.
pub open spec fn named(id: Seq<char>) -> spec_fn(Device) -> bool {
    |device: Device| device.id == id
}

/// The device that a selection means: by its number in the list, else by its
/// identifier; without a selection the first.
pub open spec fn selected(available: Seq<Device>, selection: Option<Seq<char>>) -> Option<Device> {
    match selection {
        None => if available.len() > 0 {
            Some(available[0])
        } else {
            None
        },
        Some(text) => {
            let number = parse_number(text, usize::MAX as nat);
            if number is Some && 1 <= number->0 <= available.len() {
                Some(available[number->0 - 1])
            } else {
                match first(available, named(text)) {
                    Some(i) => Some(available[i]),
                    None => None,
                }
            }
        },
    }
}

/// What the command to accept a device does.
#[derive(Debug)]
pub enum AcceptChoice {
    /// No device waits.
    NoneWaiting,
    /// Several wait: they are listed.
    List(Vec<String>),
    /// None is meant.
    NotFound,
    Selected(DeviceInfo),
}

/// What the command to accept a device does, as mathematical values.
pub enum Choice {
    NoneWaiting,
    List(Seq<Seq<char>>),
    NotFound,
    Selected(Device),
}

impl View for AcceptChoice {
    type V = Choice;

    open spec fn view(&self) -> Choice {
        match self {
            AcceptChoice::NoneWaiting => Choice::NoneWaiting,
            AcceptChoice::List(lines) => Choice::List(texts(lines@)),
            AcceptChoice::NotFound => Choice::NotFound,
            AcceptChoice::Selected(device) => Choice::Selected(device@),
        }
    }
}

/// What the command to accept a device does, given the devices that a scan
/// found.
pub open spec fn accepting(devices: Seq<Device>, selection: Option<Seq<char>>) -> Choice {
    let available = waiting(devices);
    if available.len() == 0 {
        Choice::NoneWaiting
    } else if selection is None && available.len() > 1 {
        Choice::List(waiting_lines(available))
    } else {
        match selected(available, selection) {
            Some(device) => Choice::Selected(device),
            None => Choice::NotFound,
        }
    }
}

/// The numbered lines of devices.
pub open spec fn waiting_lines(devices: Seq<Device>) -> Seq<Seq<char>> {
    Seq::new(devices.len(), |i: int| numbered((i + 1) as nat, devices[i]))
}

fn waiting_devices(devices: &[DeviceInfo]) -> (res: Vec<DeviceInfo>)
    ensures
        device_list(res@) == waiting(device_list(devices@)),
{
    let ghost all = device_list(devices@);
    let ghost pick = |device: Device| device.trust_state != TrustState::Trusted;
    let mut res: Vec<DeviceInfo> = Vec::new();
    let mut i: usize = 0;
    assert(device_list(res@) =~= all.take(0).filter(pick)) by {
        reveal(Seq::filter);
    }
    while i < devices.len()
        invariant
            i <= devices.len(),
            all == device_list(devices@),
            pick == (|device: Device| device.trust_state != TrustState::Trusted),
            device_list(res@) == all.take(i as int).filter(pick),
        decreases devices.len() - i,
    {
        let ghost before = device_list(res@);
        assert(all.take(i + 1).drop_last() =~= all.take(i as int));
        reveal(Seq::filter);
        let device = &devices[i];
        assert(all[i as int] == device@);
        if device.trust_state != TrustState::Trusted {
            let copy = device.clone();
            res.push(copy);
            assert(device_list(res@) =~= before.push(all[i as int]));
        }
        i += 1;
    }
    assert(all.take(i as int) =~= all);
    res
}

fn listed(devices: &[DeviceInfo]) -> (res: Vec<String>)
    ensures
        texts(res@) == waiting_lines(device_list(devices@)),
{
    let ghost list = device_list(devices@);
    let mut res: Vec<String> = Vec::new();
    let mut i: usize = 0;
    assert(texts(res@) =~= waiting_lines(list).take(0));
    while i < devices.len()
        invariant
            i <= devices.len(),
            list == device_list(devices@),
            texts(res@) == waiting_lines(list).take(i as int),
        decreases devices.len() - i,
    {
        assert(list[i as int] == devices@[i as int]@);
        let line = numbered_line(i as u64 + 1, &devices[i]);
        assert(waiting_lines(list).take(i + 1) =~= waiting_lines(list).take(i as int).push(
            waiting_lines(list)[i as int],
        ));
        proof {
            texts_push(res@, line);
        }
        res.push(line);
        i += 1;
    }
    assert(waiting_lines(list).take(i as int) =~= waiting_lines(list));
    res
}

fn by_id(devices: &[DeviceInfo], id: &str) -> (res: Option<usize>)
    ensures
        match res {
            Some(i) => first(device_list(devices@), named(id@)) == Some(i as int) && i
                < devices@.len(),
            None => first(device_list(devices@), named(id@)) is None,
        },
{
    let ghost list = device_list(devices@);
    let mut i: usize = 0;
    while i < devices.len()
        invariant
            i <= devices.len(),
            list == device_list(devices@),
            forall|k: int| 0 <= k < i ==> !named(id@)(#[trigger] list[k]),
        decreases devices.len() - i,
    {
        assert(list[i as int] == devices@[i as int]@);
        if same(devices[i].id.as_str(), id) {
            proof {
                first_found(list, named(id@), i as int);
            }
            return Some(i);
        }
        i += 1;
    }
    proof {
        first_absent(list, named(id@));
    }
    None
}

fn choose_device(available: &[DeviceInfo], selection: Option<&str>) -> (res: Option<DeviceInfo>)
    ensures
        match res {
            Some(device) => selected(
                device_list(available@),
                match selection {
                    Some(text) => Some(text@),
                    None => None,
                },
            ) == Some(device@),
            None => selected(
                device_list(available@),
                match selection {
                    Some(text) => Some(text@),
                    None => None,
                },
            ) is None,
        },
{
    let ghost list = device_list(available@);
    assert(forall|i: int| 0 <= i < available@.len() ==> list[i] == (#[trigger] available@[i])@);
    match selection {
        None => if available.len() > 0 {
            Some(available[0].clone())
        } else {
            None
        },
        Some(text) => {
            match number_of(text, usize::MAX as u64) {
                Some(number) => if number >= 1 && number <= available.len() as u64 {
                    return Some(available[number as usize - 1].clone());
                },
                None => {},
            }
            match by_id(available, text) {
                Some(i) => Some(available[i].clone()),
                None => None,
            }
        },
    }
}

/// What the command to accept a device does, given the devices that a scan
/// found. A single device that waits needs no selection.
pub fn accept_choice(devices: &[DeviceInfo], selection: Option<&str>) -> (res: AcceptChoice)
    ensures
        res@ == accepting(
            device_list(devices@),
            match selection {
                Some(text) => Some(text@),
                None => None,
            },
        ),
        ({
            let available = waiting(device_list(devices@));
            let chosen = selected(
                available,
                match selection {
                    Some(text) => Some(text@),
                    None => None,
                },
            );
            if available.len() == 0 {
                res is NoneWaiting
            } else if selection is None && available.len() > 1 {
                res matches AcceptChoice::List(lines) && texts(lines@) == waiting_lines(available)
            } else {
                match chosen {
                    Some(device) => res matches AcceptChoice::Selected(one) && one@ == device,
                    None => res is NotFound,
                }
            }
        }),
{
    let available = waiting_devices(devices);
    assert(device_list(available@).len() == available@.len());
    if available.len() == 0 {
        return AcceptChoice::NoneWaiting;
    }
    if selection.is_none() && available.len() > 1 {
        return AcceptChoice::List(listed(available.as_slice()));
    }
    match choose_device(available.as_slice(), selection) {
        Some(device) => AcceptChoice::Selected(device),
        None => AcceptChoice::NotFound,
    }
}

// send
/// The text that arguments give, if there are any: the arguments with a space
/// between each two.
pub fn argument_text(arguments: &[String]) -> (res: Option<String>)
    ensures
        match res {
            Some(text) => arguments@.len() > 0 && text@ == join(texts(arguments@), " "@),
            None => arguments@.len() == 0,
        },
{
    if arguments.len() == 0 {
        None
    } else {
        Some(joined(arguments, " "))
    }
}

/// What is printed of a text that was sent to that many devices.
pub fn sent_line(count: usize) -> (res: String)
    ensures
        res@ == "Sent to "@ + decimal(count as nat) + " trusted device(s)."@,
{
    let mut res: String = "Sent to ".to_owned();
    res.append(decimal_text(count as u64).as_str());
    res.append(" trusted device(s).");
    res
}

// send-text
/// The host and the text that the command to send a text to a host names.
pub fn send_request(arguments: &[String]) -> (res: Option<(String, String)>)
    ensures
        match res {
            Some(pair) => arguments@.len() >= 2 && pair.0@ == arguments@[0]@ && pair.1@ == join(
                texts(arguments@.skip(1)),
                " "@,
            ),
            None => arguments@.len() < 2,
        },
{
    if arguments.len() < 2 {
        return None;
    }
    let mut words: Vec<String> = Vec::new();
    let mut i: usize = 1;
    assert(texts(words@) =~= texts(arguments@.subrange(1, 1)));
    while i < arguments.len()
        invariant
            1 <= i <= arguments@.len(),
            texts(words@) == texts(arguments@.subrange(1, i as int)),
        decreases arguments@.len() - i,
    {
        let word = arguments[i].clone();
        proof {
            texts_push(words@, word);
            texts_push(arguments@.subrange(1, i as int), arguments@[i as int]);
        }
        assert(arguments@.subrange(1, i + 1) =~= arguments@.subrange(1, i as int).push(
            arguments@[i as int],
        ));
        words.push(word);
        i += 1;
    }
    assert(arguments@.subrange(1, i as int) =~= arguments@.skip(1));
    Some((arguments[0].clone(), joined(words.as_slice(), " ")))
}

/// A property of devices: it is trusted and is at this address.
pub open spec fn trusted_at(host: Seq<char>) -> spec_fn(Device) -> bool {
    |device: Device| device.trust_state == TrustState::Trusted && device.endpoint == Some(host)
}

/// The device at a host.
#[derive(Debug, PartialEq, Eq)]
pub enum HostPeer {
    /// There is no trusted one.
    NotFound,
    /// Its key is not known; the text is its name.
    MissingKey(String),
    /// The text is its key.
    Key(String),
}

/// The device at a host, as mathematical values.
pub enum Peer {
    NotFound,
    MissingKey(Seq<char>),
    Key(Seq<char>),
}

impl View for HostPeer {
    type V = Peer;

    open spec fn view(&self) -> Peer {
        match self {
            HostPeer::NotFound => Peer::NotFound,
            HostPeer::MissingKey(name) => Peer::MissingKey(name@),
            HostPeer::Key(key) => Peer::Key(key@),
        }
    }
}

/// The trusted device at a host.
pub open spec fn peer_at(devices: Seq<Device>, host: Seq<char>) -> Peer {
    match first(devices, trusted_at(host)) {
        None => Peer::NotFound,
        Some(i) => match devices[i].public_key {
            None => Peer::MissingKey(devices[i].name),
            Some(key) => Peer::Key(key),
        },
    }
}

/// The trusted device at a host.
pub fn host_peer(devices: &[DeviceInfo], host: &str) -> (res: HostPeer)
    ensures
        res@ == peer_at(device_list(devices@), host@),
        match first(device_list(devices@), trusted_at(host@)) {
            None => res is NotFound,
            Some(i) => match device_list(devices@)[i].public_key {
                None => res matches HostPeer::MissingKey(name) && name@ == device_list(
                    devices@,
                )[i].name,
                Some(key) => res matches HostPeer::Key(text) && text@ == key,
            },
        },
{
    let ghost list = device_list(devices@);
    let mut i: usize = 0;
    while i < devices.len()
        invariant
            i <= devices.len(),
            list == device_list(devices@),
            forall|k: int| 0 <= k < i ==> !trusted_at(host@)(#[trigger] list[k]),
        decreases devices.len() - i,
    {
        let device = &devices[i];
        assert(list[i as int] == device@);
        if device.trust_state == TrustState::Trusted && holds_text(&device.endpoint, host) {
            proof {
                first_found(list, trusted_at(host@), i as int);
            }
            return match &device.public_key {
                Some(key) => HostPeer::Key(key.clone()),
                None => HostPeer::MissingKey(device.name.clone()),
            };
        }
        i += 1;
    }
    proof {
        first_absent(list, trusted_at(host@));
    }
    HostPeer::NotFound
}

// status and devices
/// What the command to print the status prints.
pub open spec fn status_report(local: LocalDevice, trusted: nat) -> Seq<Seq<char>> {
    seq![
        "span: ready"@,
        "device: "@ + local.name@ + " ("@ + local.id@ + ")"@,
        "platform: "@ + name_of_platform(local.platform),
        "public key: "@ + hex_text(local.public_key@),
        "trusted targets: "@ + decimal(trusted),
    ]
}

/// What the command to print the status prints, line by line.
pub fn status_lines(local: &LocalDevice, trusted: usize) -> (res: Vec<String>)
    ensures
        texts(res@) == status_report(*local, trusted as nat),
{
    let mut res: Vec<String> = Vec::new();
    res.push("span: ready".to_owned());
    let mut device: String = "device: ".to_owned();
    device.append(local.name.as_str());
    device.append(" (");
    device.append(local.id.as_str());
    device.append(")");
    res.push(device);
    let mut platform: String = "platform: ".to_owned();
    platform.append(platform_name(local.platform));
    res.push(platform);
    let mut key: String = "public key: ".to_owned();
    key.append(local.public_key_hex().as_str());
    res.push(key);
    let mut count: String = "trusted targets: ".to_owned();
    count.append(decimal_text(trusted as u64).as_str());
    res.push(count);
    assert(texts(res@) =~= status_report(*local, trusted as nat));
    res
}

/// What the background process prints at its start.
pub open spec fn daemon_report(local: LocalDevice, trusted: nat, port: nat) -> Seq<Seq<char>> {
    seq![
        "span daemon"@,
        "device : "@ + local.name@ + " ("@ + local.id@ + ")"@,
        "mode   : background-only, no main window"@,
        "policy : broadcast text to trusted devices only"@,
        "targets: "@ + decimal(trusted) + " trusted"@,
        "listen : 0.0.0.0:"@ + decimal(port),
    ]
}

/// What the background process prints at its start, line by line.
pub fn daemon_lines(local: &LocalDevice, trusted: usize, port: u16) -> (res: Vec<String>)
    ensures
        texts(res@) == daemon_report(*local, trusted as nat, port as nat),
{
    let mut res: Vec<String> = Vec::new();
    res.push("span daemon".to_owned());
    let mut device: String = "device : ".to_owned();
    device.append(local.name.as_str());
    device.append(" (");
    device.append(local.id.as_str());
    device.append(")");
    res.push(device);
    res.push("mode   : background-only, no main window".to_owned());
    res.push("policy : broadcast text to trusted devices only".to_owned());
    let mut count: String = "targets: ".to_owned();
    count.append(decimal_text(trusted as u64).as_str());
    count.append(" trusted");
    res.push(count);
    let mut listen: String = "listen : 0.0.0.0:".to_owned();
    listen.append(decimal_text(port as u64).as_str());
    res.push(listen);
    assert(texts(res@) =~= daemon_report(*local, trusted as nat, port as nat));
    res
}

/// The name of a trust state.
pub open spec fn name_in_list(state: TrustState) -> Seq<char> {
    match state {
        TrustState::Discovered => "Discovered"@,
        TrustState::Pending => "Pending"@,
        TrustState::Trusted => "Trusted"@,
        TrustState::Blocked => "Blocked"@,
        TrustState::Revoked => "Revoked"@,
    }
}

fn list_name(state: TrustState) -> (res: &'static str)
    ensures
        res@ == name_in_list(state),
{
    match state {
        TrustState::Discovered => "Discovered",
        TrustState::Pending => "Pending",
        TrustState::Trusted => "Trusted",
        TrustState::Blocked => "Blocked",
        TrustState::Revoked => "Revoked",
    }
}

/// The line of a device in the list of all.
pub open spec fn device_row(device: Device) -> Seq<char> {
    "- "@ + device.id + "\t"@ + device.name + "\t"@ + name_of_platform(device.platform) + "\t"@
        + name_in_list(device.trust_state) + "\t"@ + match device.endpoint {
        Some(endpoint) => endpoint,
        None => "-"@,
    }
}

fn device_line(device: &DeviceInfo) -> (res: String)
    ensures
        res@ == device_row(device@),
{
    let mut res: String = "- ".to_owned();
    res.append(device.id.as_str());
    res.append("\t");
    res.append(device.name.as_str());
    res.append("\t");
    res.append(platform_name(device.platform));
    res.append("\t");
    res.append(list_name(device.trust_state));
    res.append("\t");
    match &device.endpoint {
        Some(endpoint) => res.append(endpoint.as_str()),
        None => res.append("-"),
    }
    res
}

/// What the command to print the devices prints.
pub open spec fn devices_report(devices: Seq<Device>, trusted: nat) -> Seq<Seq<char>> {
    let head = seq!["trusted broadcast targets: "@ + decimal(trusted)];
    if devices.len() == 0 {
        head.push("no devices yet"@)
    } else {
        head + Seq::new(devices.len(), |i: int| device_row(devices[i]))
    }
}

/// What the command to print the devices prints, line by line.
pub fn devices_lines(devices: &[DeviceInfo], trusted: usize) -> (res: Vec<String>)
    ensures
        texts(res@) == devices_report(device_list(devices@), trusted as nat),
{
    let ghost list = device_list(devices@);
    let ghost rows = Seq::new(list.len(), |i: int| device_row(list[i]));
    let mut res: Vec<String> = Vec::new();
    let mut count: String = "trusted broadcast targets: ".to_owned();
    count.append(decimal_text(trusted as u64).as_str());
    let ghost head = seq![count@];
    res.push(count);
    assert(texts(res@) =~= head);
    if devices.len() == 0 {
        let none: String = "no devices yet".to_owned();
        proof {
            texts_push(res@, none);
        }
        res.push(none);
        return res;
    }
    let mut i: usize = 0;
    assert(head + rows.take(0) =~= head);
    while i < devices.len()
        invariant
            i <= devices.len(),
            list == device_list(devices@),
            rows == Seq::new(list.len(), |i: int| device_row(list[i])),
            texts(res@) == head + rows.take(i as int),
        decreases devices.len() - i,
    {
        assert(list[i as int] == devices@[i as int]@);
        let line = device_line(&devices[i]);
        assert(rows.take(i + 1) =~= rows.take(i as int).push(rows[i as int]));
        proof {
            texts_push(res@, line);
        }
        res.push(line);
        assert(texts(res@) =~= head + rows.take(i + 1));
        i += 1;
    }
    assert(rows.take(i as int) =~= rows);
    res
}

// the window
/// What the window is opened for.
#[derive(Debug, PartialEq, Eq)]
pub enum WindowRequest {
    /// To ask the user about a device.
    Pair { id: String, name: String, platform: String },
    /// To manage the devices.
    Manage,
}

/// What the window is opened for, as mathematical values.
pub enum WindowAsk {
    Pair { id: Seq<char>, name: Seq<char>, platform: Seq<char> },
    Manage,
}

impl View for WindowRequest {
    type V = WindowAsk;

    open spec fn view(&self) -> WindowAsk {
        match self {
            WindowRequest::Pair { id, name, platform } => WindowAsk::Pair {
                id: id@,
                name: name@,
                platform: platform@,
            },
            WindowRequest::Manage => WindowAsk::Manage,
        }
    }
}

/// What the arguments of the window's program ask for.
pub open spec fn asked(given: Seq<Seq<char>>) -> Verdict<WindowAsk> {
    if given.len() > 0 && given[0] == "pair"@ {
        if given.len() < 2 {
            Verdict::Fails(ErrorKind::InvalidInput, "missing device id"@)
        } else {
            Verdict::Done(
                WindowAsk::Pair {
                    id: given[1],
                    name: if given.len() > 2 {
                        given[2]
                    } else {
                        "Span device"@
                    },
                    platform: if given.len() > 3 {
                        given[3]
                    } else {
                        "unknown"@
                    },
                },
            )
        }
    } else {
        Verdict::Done(WindowAsk::Manage)
    }
}

/// What the arguments of the window's program ask for.
pub fn window_request(arguments: &[String]) -> (res: Result<WindowRequest, Error>)
    ensures
        match res {
            Ok(request) => asked(texts(arguments@)) == Verdict::Done(request@),
            Err(error) => asked(texts(arguments@)) == Verdict::<WindowAsk>::Fails(
                error.kind,
                error.message@,
            ),
        },
{
    let ghost given = texts(arguments@);
    assert(forall|i: int| 0 <= i < arguments@.len() ==> given[i] == (#[trigger] arguments@[i])@);
    let count: usize = arguments.len();
    if count == 0 || !same(arguments[0].as_str(), "pair") {
        return Ok(WindowRequest::Manage);
    }
    if count < 2 {
        return Err(Error::new(ErrorKind::InvalidInput, "missing device id"));
    }
    let name = if count > 2 {
        arguments[2].clone()
    } else {
        "Span device".to_owned()
    };
    let platform = if count > 3 {
        arguments[3].clone()
    } else {
        "unknown".to_owned()
    };
    Ok(WindowRequest::Pair { id: arguments[1].clone(), name, platform })
}

/// The arguments with which the window's program asks the user about a device.
pub open spec fn ask_about(device: Device) -> Seq<Seq<char>> {
    seq!["pair"@, device.id, device.name, name_of_platform(device.platform)]
}

/// The arguments with which the window's program asks the user about a device.
pub fn pairing_arguments(device: &DeviceInfo) -> (res: Vec<String>)
    ensures
        texts(res@) == ask_about(device@),
{
    let mut res: Vec<String> = Vec::new();
    res.push("pair".to_owned());
    res.push(device.id.as_str().to_owned());
    res.push(device.name.clone());
    res.push(platform_name(device.platform).to_owned());
    assert(texts(res@) =~= ask_about(device@));
    res
}

/// The window asks about the device that it was opened for.
pub proof fn window_asks_about_device(device: Device)
    ensures
        asked(ask_about(device)) == Verdict::Done(
            WindowAsk::Pair {
                id: device.id,
                name: device.name,
                platform: name_of_platform(device.platform),
            },
        ),
{
}

} // verus!

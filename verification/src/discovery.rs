//! Announcements and probes by which devices on one network find each other.

use vstd::prelude::*;
use vstd::utf8::{
    decode_utf8, encode_utf8, encode_utf8_decode_utf8, encode_utf8_valid_utf8, valid_utf8,
};

use crate::crypto::key_bytes;
use crate::device::{
    name_of_platform, optional_text, parse_platform, platform_name, platform_name_reads_back,
    platform_named, sanitize, sanitized, Device, DeviceId, DeviceInfo, LocalDevice, Platform,
    TrustState,
};
use crate::error::{Error, ErrorKind};
use crate::hex::{decode_hex, hex_is_plain, hex_reads_back, hex_text, is_hex};
use crate::text::{
    blank, free_of, join, joined, same, split, split_append, split_at_char, split_joined,
    split_nonempty, split_single, texts, trim, trim_end_keeps, trim_end_of_padded, trim_of_padded,
    trim_start, trim_start_adds_nothing, trim_start_keeps_tail, trim_start_of_padded, trimmed,
    utf8_text, white_space,
};

verus! {

/// The UDP port on which devices listen for announcements and probes.
pub const DISCOVERY_PORT: u16 = 46792;

/// What an announcement starts with.
pub const MAGIC: &'static str = "SPAN_DISCOVERY_V2";

/// All that a probe holds.
pub const PROBE_MAGIC: &'static str = "SPAN_DISCOVERY_PROBE_V1";

/// A device announces itself.
#[derive(Debug, PartialEq, Eq)]
pub struct DiscoveryPacket {
    pub id: DeviceId,
    pub name: String,
    pub platform: Platform,
    pub public_key: String,
}

/// A datagram on the discovery port.
#[derive(Debug, PartialEq, Eq)]
pub enum DiscoveryMessage {
    Announcement(DiscoveryPacket),
    /// Asks the devices to announce themselves.
    Probe,
}

/// What an announcement says, as mathematical values.
#[verifier::ext_equal]
pub struct Announced {
    pub id: Seq<char>,
    pub name: Seq<char>,
    pub platform: Platform,
    pub public_key: Seq<char>,
}

/// What a datagram says, as mathematical values.
pub enum Message {
    Announcement(Announced),
    Probe,
}

impl View for DiscoveryPacket {
    type V = Announced;

    open spec fn view(&self) -> Announced {
        Announced {
            id: self.id@,
            name: self.name@,
            platform: self.platform,
            public_key: self.public_key@,
        }
    }
}

impl View for DiscoveryMessage {
    type V = Message;

    open spec fn view(&self) -> Message {
        match self {
            DiscoveryMessage::Announcement(packet) => Message::Announcement(packet@),
            DiscoveryMessage::Probe => Message::Probe,
        }
    }
}

impl Clone for DiscoveryPacket {
    fn clone(&self) -> (res: DiscoveryPacket)
        ensures
            res@ == self@,
    {
        DiscoveryPacket {
            id: self.id.clone(),
            name: self.name.clone(),
            platform: self.platform,
            public_key: self.public_key.clone(),
        }
    }
}

impl Clone for DiscoveryMessage {
    fn clone(&self) -> (res: DiscoveryMessage)
        ensures
            res@ == self@,
    {
        match self {
            DiscoveryMessage::Announcement(packet) => DiscoveryMessage::Announcement(
                packet.clone(),
            ),
            DiscoveryMessage::Probe => DiscoveryMessage::Probe,
        }
    }
}

/// What a device announces of itself.
pub open spec fn announced_by(device: LocalDevice) -> Announced {
    Announced {
        id: device.id@,
        name: device.name@,
        platform: device.platform,
        public_key: hex_text(device.public_key@),
    }
}

/// The record of a device that has announced itself. An announcement by itself
/// gives no trust.
pub open spec fn discovered(announced: Announced, endpoint: Option<Seq<char>>) -> Device {
    Device {
        id: announced.id,
        name: announced.name,
        platform: announced.platform,
        trust_state: TrustState::Discovered,
        endpoint,
        public_key: Some(announced.public_key),
    }
}

impl DiscoveryPacket {
    /// What a device announces of itself.
    pub fn from_local(device: &LocalDevice) -> (res: DiscoveryPacket)
        ensures
            res@ == announced_by(*device),
    {
        DiscoveryPacket {
            id: device.id.clone(),
            name: device.name.clone(),
            platform: device.platform,
            public_key: device.public_key_hex(),
        }
    }

    /// The record of the device that has announced itself.
    pub fn into_device_info(self) -> (res: DeviceInfo)
        ensures
            res@ == discovered(self@, None),
    {
        DeviceInfo {
            id: self.id,
            name: self.name,
            platform: self.platform,
            trust_state: TrustState::Discovered,
            endpoint: None,
            public_key: Some(self.public_key),
        }
    }
}

/// The fields of an announcement.
pub open spec fn announcement_fields(announced: Announced) -> Seq<Seq<char>> {
    seq![
        MAGIC@,
        announced.id,
        sanitized(announced.name),
        name_of_platform(announced.platform),
        announced.public_key,
    ]
}

/// The text of an announcement.
pub open spec fn announcement_text(announced: Announced) -> Seq<char> {
    join(announcement_fields(announced), "\t"@)
}

/// The text of an announcement.
pub fn encode_packet(packet: &DiscoveryPacket) -> (res: String)
    ensures
        res@ == announcement_text(packet@),
{
    let mut fields: Vec<String> = Vec::new();
    fields.push(MAGIC.to_owned());
    fields.push(packet.id.as_str().to_owned());
    fields.push(sanitize(packet.name.as_str()));
    fields.push(platform_name(packet.platform).to_owned());
    fields.push(packet.public_key.clone());
    assert(texts(fields@) =~= announcement_fields(packet@));
    joined(&fields, "\t")
}

/// The text by which a device announces itself.
pub fn announcement(device: &LocalDevice) -> (res: String)
    ensures
        res@ == announcement_text(announced_by(*device)),
{
    encode_packet(&DiscoveryPacket::from_local(device))
}

/// The announcement that fields give. Those behind the fifth do not count.
pub open spec fn announced_in(fields: Seq<Seq<char>>) -> Option<Announced> {
    if fields.len() >= 5 && fields[0] == MAGIC@ && fields[1].len() > 0 && key_bytes(
        fields[4],
    ) is Some {
        Some(
            Announced {
                id: fields[1],
                name: fields[2],
                platform: platform_named(fields[3]),
                public_key: fields[4],
            },
        )
    } else {
        None
    }
}

/// What a text on the discovery port says, if anything. White space at its
/// ends does not count.
pub open spec fn message_in(text: Seq<char>) -> Option<Message> {
    if trim(text) == PROBE_MAGIC@ {
        Some(Message::Probe)
    } else {
        match announced_in(split(trim(text), '\t')) {
            Some(announced) => Some(Message::Announcement(announced)),
            None => None,
        }
    }
}

/// What an optional message says.
pub open spec fn said(message: Option<DiscoveryMessage>) -> Option<Message> {
    match message {
        Some(message) => Some(message@),
        None => None,
    }
}

/// A public key in hexadecimal, where it is one of 32 bytes.
pub fn validate_public_key(value: &str) -> (res: Option<String>)
    ensures
        match res {
            Some(key) => key_bytes(value@) is Some && key@ == value@,
            None => key_bytes(value@) is None,
        },
{
    match decode_hex(value) {
        Some(bytes) => if bytes.len() == 32 {
            Some(value.to_owned())
        } else {
            None
        },
        None => None,
    }
}

/// What a text on the discovery port says, if anything.
pub fn decode_message(value: &str) -> (res: Option<DiscoveryMessage>)
    ensures
        said(res) == message_in(value@),
{
    let text = trimmed(value);
    if same(text.as_str(), PROBE_MAGIC) {
        return Some(DiscoveryMessage::Probe);
    }
    let fields = split_at_char(text.as_str(), '\t');
    let ghost parts = split(trim(value@), '\t');
    assert(parts.len() == fields.len());
    assert(forall|i: int| 0 <= i < fields.len() ==> parts[i] == (#[trigger] fields[i])@);
    if fields.len() < 5 || !same(fields[0].as_str(), MAGIC) {
        return None;
    }
    let id = match DeviceId::new(fields[1].as_str()) {
        Some(id) => id,
        None => {
            return None;
        },
    };
    let public_key = match validate_public_key(fields[4].as_str()) {
        Some(public_key) => public_key,
        None => {
            return None;
        },
    };
    Some(
        DiscoveryMessage::Announcement(
            DiscoveryPacket {
                id,
                name: fields[2].clone(),
                platform: parse_platform(fields[3].as_str()),
                public_key,
            },
        ),
    )
}

/// What a datagram says, if anything: it has to be text.
pub open spec fn message_of(datagram: Seq<u8>) -> Option<Message> {
    if valid_utf8(datagram) {
        message_in(decode_utf8(datagram))
    } else {
        None
    }
}

/// What a datagram says, if anything.
pub fn decode_datagram(datagram: &[u8]) -> (res: Option<DiscoveryMessage>)
    ensures
        said(res) == message_of(datagram@),
{
    let mut bytes: Vec<u8> = Vec::new();
    bytes.extend_from_slice(datagram);
    assert(bytes@ =~= datagram@);
    match utf8_text(bytes) {
        Some(text) => decode_message(text.as_str()),
        None => None,
    }
}

/// A device that announced itself, and the address from which it did.
#[derive(Debug, PartialEq, Eq)]
pub struct Sighting {
    pub packet: DiscoveryPacket,
    pub endpoint: String,
}

/// What a sighting says, as mathematical values.
#[verifier::ext_equal]
pub struct Sighted {
    pub packet: Announced,
    pub endpoint: Seq<char>,
}

impl View for Sighting {
    type V = Sighted;

    open spec fn view(&self) -> Sighted {
        Sighted { packet: self.packet@, endpoint: self.endpoint@ }
    }
}

/// What a list of sightings says.
pub open spec fn sighting_list(sightings: Seq<Sighting>) -> Seq<Sighted> {
    Seq::new(sightings.len(), |i: int| sightings[i]@)
}

/// The record of a sighted device.
pub open spec fn sighted_device(sighted: Sighted) -> Device {
    discovered(sighted.packet, Some(sighted.endpoint))
}

impl Sighting {
    /// The record of the sighted device.
    pub fn into_device_info(self) -> (res: DeviceInfo)
        ensures
            res@ == sighted_device(self@),
    {
        let mut info = self.packet.into_device_info();
        info.endpoint = Some(self.endpoint);
        assert(optional_text(info.endpoint) == Some(self.endpoint@));
        info
    }
}

/// The sightings of a scan after one more datagram: an announcement adds one,
/// anything else adds none.
pub open spec fn scanned(
    sightings: Seq<Sighted>,
    datagram: Seq<u8>,
    endpoint: Seq<char>,
) -> Seq<Sighted> {
    match message_of(datagram) {
        Some(Message::Announcement(packet)) => sightings.push(Sighted { packet, endpoint }),
        _ => sightings,
    }
}

/// Takes up one datagram of a scan.
pub fn collect_sighting(sightings: &mut Vec<Sighting>, datagram: &[u8], endpoint: &str)
    ensures
        sighting_list(final(sightings)@) == scanned(
            sighting_list(old(sightings)@),
            datagram@,
            endpoint@,
        ),
{
    match decode_datagram(datagram) {
        Some(DiscoveryMessage::Announcement(packet)) => {
            let ghost before = sighting_list(sightings@);
            let sighting = Sighting { packet, endpoint: endpoint.to_owned() };
            sightings.push(sighting);
            assert(sighting_list(sightings@) =~= before.push(sighting@));
        },
        _ => {},
    }
}

/// Whether a failure to receive a datagram is no reason to stop: nothing came,
/// or the answer to an earlier datagram was that its receiver is gone. One
/// stale peer must not take discovery offline.
pub open spec fn transient(kind: ErrorKind) -> bool {
    kind == ErrorKind::WouldBlock || kind == ErrorKind::TimedOut || kind
        == ErrorKind::ConnectionReset || kind == ErrorKind::ConnectionRefused || kind
        == ErrorKind::HostUnreachable || kind == ErrorKind::NetworkUnreachable
}

/// Whether a failure to receive a datagram is no reason to stop.
pub fn is_transient_udp_error(error: &Error) -> (res: bool)
    ensures
        res == transient(error.kind),
{
    match error.kind {
        ErrorKind::WouldBlock
        | ErrorKind::TimedOut
        | ErrorKind::ConnectionReset
        | ErrorKind::ConnectionRefused
        | ErrorKind::HostUnreachable
        | ErrorKind::NetworkUnreachable => true,
        _ => false,
    }
}

/// Takes up what receiving gave in a scan: a datagram and the address from
/// which it came, or a failure. Fails where the scan ends, with that failure.
pub fn scan_step(sightings: &mut Vec<Sighting>, received: Result<(&[u8], &str), Error>) -> (res:
    Result<(), Error>)
    ensures
        match received {
            Ok((datagram, endpoint)) => res is Ok && sighting_list(final(sightings)@) == scanned(
                sighting_list(old(sightings)@),
                datagram@,
                endpoint@,
            ),
            Err(error) => *final(sightings) == *old(sightings) && if transient(error.kind) {
                res is Ok
            } else {
                res == Err::<(), Error>(error)
            },
        },
{
    match received {
        Ok((datagram, endpoint)) => {
            collect_sighting(sightings, datagram, endpoint);
            Ok(())
        },
        Err(error) => if is_transient_udp_error(&error) {
            Ok(())
        } else {
            Err(error)
        },
    }
}

/// What happened while listening for messages.
#[derive(Debug)]
pub enum ListenEvent<'a> {
    /// A datagram came.
    Datagram(&'a [u8]),
    /// Receiving failed.
    Failed(Error),
    /// A message was handed on, and was processed or not.
    Handled(bool),
}

/// What follows while listening for messages.
#[derive(Debug, PartialEq, Eq)]
pub enum ListenAction {
    /// Wait for the next datagram.
    Listen,
    /// Hand the message on.
    HandOn(DiscoveryMessage),
    /// Report that a message could not be processed, and wait for the next
    /// datagram.
    ReportMessage,
    /// Report the failure, pause, and wait for the next datagram.
    ReportFailure,
    /// Stop listening, with the failure.
    Stop,
}

/// What follows while listening for messages, as mathematical values.
pub enum Listening {
    Listen,
    HandOn(Message),
    ReportMessage,
    ReportFailure,
    Stop,
}

impl View for ListenAction {
    type V = Listening;

    open spec fn view(&self) -> Listening {
        match self {
            ListenAction::Listen => Listening::Listen,
            ListenAction::HandOn(message) => Listening::HandOn(message@),
            ListenAction::ReportMessage => Listening::ReportMessage,
            ListenAction::ReportFailure => Listening::ReportFailure,
            ListenAction::Stop => Listening::Stop,
        }
    }
}

/// What follows while listening for messages. Only a failure to receive that is
/// not transient ends it: a datagram that says nothing is passed over, and a
/// message that could not be processed affects no other.
pub open spec fn listening(event: ListenEvent) -> Listening {
    match event {
        ListenEvent::Datagram(datagram) => match message_of(datagram@) {
            Some(message) => Listening::HandOn(message),
            None => Listening::Listen,
        },
        ListenEvent::Failed(error) => if transient(error.kind) {
            Listening::ReportFailure
        } else {
            Listening::Stop
        },
        ListenEvent::Handled(processed) => if processed {
            Listening::Listen
        } else {
            Listening::ReportMessage
        },
    }
}

/// What follows while listening for messages.
pub fn listen_step(event: ListenEvent) -> (res: ListenAction)
    ensures
        res@ == listening(event),
{
    match event {
        ListenEvent::Datagram(datagram) => match decode_datagram(datagram) {
            Some(message) => ListenAction::HandOn(message),
            None => ListenAction::Listen,
        },
        ListenEvent::Failed(error) => if is_transient_udp_error(&error) {
            ListenAction::ReportFailure
        } else {
            ListenAction::Stop
        },
        ListenEvent::Handled(processed) => if processed {
            ListenAction::Listen
        } else {
            ListenAction::ReportMessage
        },
    }
}

/// Listening ends only where receiving failed for good: no datagram and no
/// message that could not be processed takes discovery offline.
pub proof fn listening_outlives_messages(event: ListenEvent)
    ensures
        listening(event) is Stop <==> (event matches ListenEvent::Failed(error) && !transient(
            error.kind,
        )),
{
}

/// A failure ends the listening unless it says that nothing came in time or
/// that another device cannot be reached. A datagram that says something is
/// handed on as it was said, and only a message that could not be processed is
/// reported.
pub proof fn listening_outlives_the_network(event: ListenEvent)
    ensures
        match event {
            ListenEvent::Failed(error) => match error.kind {
                ErrorKind::WouldBlock
                | ErrorKind::TimedOut
                | ErrorKind::ConnectionReset
                | ErrorKind::ConnectionRefused
                | ErrorKind::HostUnreachable
                | ErrorKind::NetworkUnreachable => listening(event) is ReportFailure,
                _ => listening(event) is Stop,
            },
            ListenEvent::Datagram(datagram) => match message_of(datagram@) {
                Some(message) => listening(event) == Listening::HandOn(message),
                None => listening(event) is Listen,
            },
            ListenEvent::Handled(processed) => {
                &&& processed ==> listening(event) is Listen
                &&& !processed ==> listening(event) is ReportMessage
            },
        },
{
}

/// The two ways in which a datagram starts differ.
proof fn magics_differ()
    ensures
        MAGIC@.len() == 17,
        MAGIC@[0] == 'S',
        MAGIC@[15] == 'V',
        PROBE_MAGIC@.len() == 23,
        PROBE_MAGIC@[0] == 'S',
        PROBE_MAGIC@[15] == 'P',
        PROBE_MAGIC@.last() == '1',
        free_of(MAGIC@, '\t'),
        free_of(PROBE_MAGIC@, '\t'),
{
    reveal_strlit("SPAN_DISCOVERY_V2");
    reveal_strlit("SPAN_DISCOVERY_PROBE_V1");
}

/// A key of 32 bytes in hexadecimal holds no tab and ends in no white space.
proof fn key_is_plain(key: Seq<char>)
    requires
        key_bytes(key) is Some,
    ensures
        key.len() > 0,
        free_of(key, '\t'),
        !white_space(key.last()),
{
    assert(is_hex(key));
    hex_is_plain(key);
    if key.len() == 0 {
        assert(crate::hex::hex_bytes(key).len() == 0);
    }
    assert forall|k: int| 0 <= k < key.len() implies #[trigger] key[k] != '\t' by {
        assert(!white_space(key[k]));
    }
}

/// The text of an announcement splits into its fields and has nothing to trim.
proof fn announcement_splits(announced: Announced)
    requires
        free_of(announced.id, '\t'),
        free_of(announced.public_key, '\t'),
        announced.public_key.len() > 0,
        !white_space(announced.public_key.last()),
    ensures
        trim(announcement_text(announced)) == announcement_text(announced),
        split(announcement_text(announced), '\t') == announcement_fields(announced),
        announcement_text(announced).len() > 17,
        announcement_text(announced)[15] == 'V',
{
    let fields = announcement_fields(announced);
    let text = announcement_text(announced);
    let tab = seq!['\t'];
    magics_differ();
    platform_name_reads_back(announced.platform);
    let name = sanitized(announced.name);
    assert(free_of(name, '\t')) by {
        assert forall|k: int| 0 <= k < name.len() implies #[trigger] name[k] != '\t' by {
        }
    }
    assert forall|i: int| 0 <= i < fields.len() implies free_of(#[trigger] fields[i], '\t') by {
    }
    assert("\t"@ =~= tab) by {
        reveal_strlit("\t");
    }
    split_joined(fields, '\t');
    let f4 = fields.drop_last();
    let f3 = f4.drop_last();
    let f2 = f3.drop_last();
    let f1 = f2.drop_last();
    assert(f1 =~= seq![MAGIC@]);
    assert(text == join(f4, tab) + tab + announced.public_key);
    assert(join(f4, tab) == join(f3, tab) + tab + fields[3]);
    assert(join(f3, tab) == join(f2, tab) + tab + fields[2]);
    assert(join(f2, tab) == join(f1, tab) + tab + fields[1]);
    assert(join(f1, tab) == MAGIC@);
    assert(text.first() == 'S');
    assert(text.last() == announced.public_key.last());
    assert(trim_start(text) == text);
    trim_end_keeps(text);
}

/// An announcement reads back as it was sent, the tabs and line ends of the
/// name turned into spaces; unless the identifier holds a tab, or the key is no
/// key.
pub proof fn announcement_reads_back(announced: Announced)
    requires
        announced.id.len() > 0,
        free_of(announced.id, '\t'),
        key_bytes(announced.public_key) is Some,
    ensures
        message_in(announcement_text(announced)) == Some(
            Message::Announcement(Announced { name: sanitized(announced.name), ..announced }),
        ),
{
    key_is_plain(announced.public_key);
    announcement_splits(announced);
    magics_differ();
    platform_name_reads_back(announced.platform);
    let fields = announcement_fields(announced);
    assert(fields[0] == MAGIC@ && fields[1] == announced.id && fields[2] == sanitized(
        announced.name,
    ) && fields[3] == name_of_platform(announced.platform) && fields[4] == announced.public_key);
}

/// What a device announces of itself reads back: its peers learn its
/// identifier, its platform and its key.
pub proof fn device_is_found(device: LocalDevice)
    requires
        device.id@.len() > 0,
        free_of(device.id@, '\t'),
    ensures
        message_in(announcement_text(announced_by(device))) == Some(
            Message::Announcement(
                Announced { name: sanitized(device.name@), ..announced_by(device) },
            ),
        ),
        key_bytes(announced_by(device).public_key) == Some(device.public_key@),
{
    hex_reads_back(device.public_key@);
    announcement_reads_back(announced_by(device));
}

/// Texts that are the same but for white space at their ends say the same.
pub proof fn ends_do_not_count(text: Seq<char>, padded: Seq<char>)
    requires
        trim(padded) == trim(text),
    ensures
        message_in(padded) == message_in(text),
{
}

/// White space around a text does not change what the text says: an
/// announcement or a probe reads back with it as without it.
pub proof fn padding_does_not_count(left: Seq<char>, text: Seq<char>, right: Seq<char>)
    requires
        blank(left),
        blank(right),
    ensures
        message_in(left + text + right) == message_in(text),
{
    trim_of_padded(left, text, right);
    ends_do_not_count(text, left + text + right);
}

/// A text says nothing where its first field starts neither an announcement nor
/// a probe, where it is no probe and has fewer than five fields, where its second
/// field is empty, and where its fifth field is no key of 32 bytes. White space
/// at its ends does not count.
pub proof fn other_text_says_nothing(text: Seq<char>)
    ensures
        ({
            let fields = split(trim(text), '\t');
            ||| fields[0] != MAGIC@ && fields[0] != PROBE_MAGIC@
            ||| fields[0] != MAGIC@ && trim(text) != PROBE_MAGIC@
            ||| fields.len() < 5 && trim(text) != PROBE_MAGIC@
            ||| fields.len() >= 2 && fields[1].len() == 0
            ||| fields.len() >= 5 && key_bytes(fields[4]) is None
        }) ==> message_in(text) is None,
{
    magics_differ();
    if trim(text) == PROBE_MAGIC@ {
        split_single(PROBE_MAGIC@, '\t');
    }
}

/// An announcement with a key of any number of bytes but 32 is not read.
pub proof fn other_key_is_refused(announced: Announced, key: Seq<u8>)
    requires
        free_of(announced.id, '\t'),
        key.len() != 32,
    ensures
        message_in(announcement_text(Announced { public_key: hex_text(key), ..announced })) is None,
{
    let other = Announced { public_key: hex_text(key), ..announced };
    let text = announcement_text(other);
    hex_reads_back(key);
    hex_is_plain(hex_text(key));
    magics_differ();
    if key.len() > 0 {
        assert forall|k: int| 0 <= k < other.public_key.len() implies #[trigger] other.public_key[k]
            != '\t' by {
            assert(!white_space(other.public_key[k]));
        }
        announcement_splits(other);
        assert(announcement_fields(other)[4] == other.public_key);
    } else {
        let tab = seq!['\t'];
        let fields = announcement_fields(other);
        let f4 = fields.drop_last();
        assert("\t"@ =~= tab) by {
            reveal_strlit("\t");
        }
        assert(other.public_key =~= Seq::empty());
        assert(text =~= join(f4, tab) + tab);
        announcement_head(other);
        trim_end_of_padded(join(f4, tab), tab);
        trim_end_keeps(join(f4, tab));
        assert(trim_start(text) == text);
        assert(trim(text) == join(f4, tab));
    }
}

/// The fields of an announcement before its key.
proof fn announcement_head(announced: Announced)
    requires
        free_of(announced.id, '\t'),
    ensures
        ({
            let head = announcement_fields(announced).drop_last();
            let text = join(head, seq!['\t']);
            &&& split(text, '\t') == head
            &&& text.len() > 17
            &&& text[0] == 'S'
            &&& text[15] == 'V'
            &&& !white_space(text.last())
        }),
{
    let fields = announcement_fields(announced);
    let head = fields.drop_last();
    let tab = seq!['\t'];
    magics_differ();
    platform_name_reads_back(announced.platform);
    platform_name_is_plain(announced.platform);
    let name = sanitized(announced.name);
    assert(free_of(name, '\t')) by {
        assert forall|k: int| 0 <= k < name.len() implies #[trigger] name[k] != '\t' by {
        }
    }
    assert forall|i: int| 0 <= i < head.len() implies free_of(#[trigger] head[i], '\t') by {
    }
    split_joined(head, '\t');
    let f3 = head.drop_last();
    let f2 = f3.drop_last();
    let f1 = f2.drop_last();
    assert(f1 =~= seq![MAGIC@]);
    assert(join(head, tab) == join(f3, tab) + tab + fields[3]);
    assert(join(f3, tab) == join(f2, tab) + tab + fields[2]);
    assert(join(f2, tab) == join(f1, tab) + tab + fields[1]);
    assert(join(f1, tab) == MAGIC@);
}

proof fn platform_name_is_plain(platform: Platform)
    ensures
        name_of_platform(platform).len() > 0,
        !white_space(name_of_platform(platform).last()),
{
    reveal_strlit("macos");
    reveal_strlit("windows");
    reveal_strlit("linux");
    reveal_strlit("android");
    reveal_strlit("unknown");
}

/// The fields of an announcement with another first field.
pub open spec fn restarted_fields(start: Seq<char>, announced: Announced) -> Seq<Seq<char>> {
    seq![
        start,
        announced.id,
        sanitized(announced.name),
        name_of_platform(announced.platform),
        announced.public_key,
    ]
}

/// A text that ends in a field without white space loses none of its fields but
/// at its start.
proof fn only_the_start_is_trimmed(head: Seq<char>, key: Seq<char>)
    requires
        head.len() > 0,
        !white_space(head.last()),
        key.len() > 0,
        !white_space(key.last()),
        free_of(key, '\t'),
    ensures
        ({
            let text = head + seq!['\t'] + key;
            &&& trim(text) == trim_start(head).push('\t') + key
            &&& split(trim(text), '\t') == split(trim_start(head), '\t').push(key)
        }),
{
    let tab = seq!['\t'];
    let text = head + tab + key;
    assert(!blank(head)) by {
        assert(!white_space(head[head.len() - 1]));
    }
    assert(text =~= head + (tab + key));
    trim_start_keeps_tail(head, tab + key);
    let begun = trim_start(head);
    assert(trim_start(text) =~= begun.push('\t') + key);
    trim_end_keeps(begun.push('\t') + key);
    split_append(begun, '\t', key);
}

/// The first of several fields: where it is blank the text has one field less
/// once it is trimmed; else it comes first, without the white space at its
/// start.
proof fn first_field_is_trimmed(start: Seq<char>, fields: Seq<Seq<char>>)
    requires
        fields.len() > 0,
        free_of(start, '\t'),
        forall|i: int| 0 <= i < fields.len() ==> free_of(#[trigger] fields[i], '\t'),
    ensures
        ({
            let pieces = split(
                trim_start(start + seq!['\t'] + join(fields, seq!['\t'])),
                '\t',
            );
            &&& blank(start) ==> pieces.len() <= fields.len()
            &&& !blank(start) ==> pieces.len() > 0 && pieces[0] == trim_start(start)
        }),
{
    let tab = seq!['\t'];
    let inner = join(fields, tab);
    let head = start + tab + inner;
    split_joined(fields, '\t');
    if blank(start) {
        let padding = start + tab;
        assert(blank(padding)) by {
            assert forall|i: int| 0 <= i < padding.len() implies white_space(
                #[trigger] padding[i],
            ) by {
                if i < start.len() {
                    assert(white_space(start[i]));
                }
            }
        }
        trim_start_of_padded(padding, inner);
        trim_start_adds_nothing(inner, '\t');
    } else {
        let first = trim_start(start);
        assert(head =~= start + (tab + inner));
        trim_start_keeps_tail(start, tab + inner);
        trim_start_adds_nothing(start, '\t');
        assert(trim_start(head) =~= first.push('\t') + inner);
        split_with_first(first, inner);
    }
}

/// What comes before the first separator is the first piece.
proof fn split_with_first(first: Seq<char>, rest: Seq<char>)
    requires
        free_of(first, '\t'),
    ensures
        split(first.push('\t') + rest, '\t').len() > 1,
        split(first.push('\t') + rest, '\t')[0] == first,
    decreases rest.len(),
{
    let whole = first.push('\t') + rest;
    if rest.len() == 0 {
        assert(whole =~= first.push('\t'));
        assert(whole.drop_last() =~= first);
        split_single(first, '\t');
    } else {
        split_with_first(first, rest.drop_last());
        assert(whole.drop_last() =~= first.push('\t') + rest.drop_last());
        assert(whole.last() == rest.last());
    }
}

/// The fields of an announcement between its first and its key.
proof fn middle_is_plain(announced: Announced)
    requires
        free_of(announced.id, '\t'),
    ensures
        ({
            let middle = seq![
                announced.id,
                sanitized(announced.name),
                name_of_platform(announced.platform),
            ];
            &&& forall|i: int| 0 <= i < middle.len() ==> free_of(#[trigger] middle[i], '\t')
            &&& join(middle, seq!['\t']).len() > 0
            &&& !white_space(join(middle, seq!['\t']).last())
        }),
{
    let tab = seq!['\t'];
    let name = sanitized(announced.name);
    let platform = name_of_platform(announced.platform);
    let middle = seq![announced.id, name, platform];
    platform_name_reads_back(announced.platform);
    platform_name_is_plain(announced.platform);
    assert(free_of(name, '\t')) by {
        assert forall|k: int| 0 <= k < name.len() implies #[trigger] name[k] != '\t' by {
        }
    }
    assert forall|i: int| 0 <= i < middle.len() implies free_of(#[trigger] middle[i], '\t') by {}
    assert(join(middle, tab) == join(middle.drop_last(), tab) + tab + platform);
    assert(join(middle, tab).last() == platform.last());
}

/// An announcement whose first field is any other, white space at its start
/// aside, is not read.
pub proof fn other_start_is_refused(start: Seq<char>, announced: Announced)
    requires
        free_of(start, '\t'),
        trim_start(start) != MAGIC@,
        free_of(announced.id, '\t'),
        key_bytes(announced.public_key) is Some,
    ensures
        message_in(join(restarted_fields(start, announced), "\t"@)) is None,
{
    let tab = seq!['\t'];
    let key = announced.public_key;
    let fields = restarted_fields(start, announced);
    let text = join(fields, "\t"@);
    assert("\t"@ =~= tab) by {
        reveal_strlit("\t");
    }
    let middle = seq![fields[1], fields[2], fields[3]];
    let head = start + tab + join(middle, tab);
    magics_differ();
    key_is_plain(key);
    middle_is_plain(announced);
    middle_joins(start, announced);
    assert(text == head + tab + key);
    assert(head.last() == join(middle, tab).last());
    only_the_start_is_trimmed(head, key);
    first_field_is_trimmed(start, middle);
    let begun = split(trim_start(head), '\t');
    let pieces = split(trim(text), '\t');
    split_nonempty(trim_start(head), '\t');
    assert(pieces == begun.push(key));
    assert(trim(text) != PROBE_MAGIC@) by {
        assert(trim(text)[trim_start(head).len() as int] == '\t');
    }
    if blank(start) {
        assert(pieces.len() < 5);
    } else {
        assert(pieces[0] == trim_start(start));
    }
}

/// What is read of an announcement, white space around it or not: the
/// announcement itself; and nothing, where its key has another number of bytes
/// or its first field is another.
#[verifier::rlimit(40)]
pub proof fn announcement_is_read_strictly(
    left: Seq<char>,
    announced: Announced,
    right: Seq<char>,
    key: Seq<u8>,
    start: Seq<char>,
)
    requires
        blank(left),
        blank(right),
        announced.id.len() > 0,
        free_of(announced.id, '\t'),
        key_bytes(announced.public_key) is Some,
        key.len() != 32,
        free_of(start, '\t'),
        trim_start(start) != MAGIC@,
    ensures
        message_in(left + announcement_text(announced) + right) == Some(
            Message::Announcement(Announced { name: sanitized(announced.name), ..announced }),
        ),
        message_in(
            left + announcement_text(Announced { public_key: hex_text(key), ..announced }) + right,
        ) is None,
        message_in(left + join(restarted_fields(start, announced), "\t"@) + right) is None,
{
    let other = Announced { public_key: hex_text(key), ..announced };
    announcement_reads_back(announced);
    padding_does_not_count(left, announcement_text(announced), right);
    other_key_is_refused(announced, key);
    padding_does_not_count(left, announcement_text(other), right);
    other_start_is_refused(start, announced);
    padding_does_not_count(left, join(restarted_fields(start, announced), "\t"@), right);
}

proof fn four_join(a: Seq<char>, b: Seq<char>, c: Seq<char>, d: Seq<char>)
    ensures
        join(seq![a, b, c, d], seq!['\t']) == a + (seq!['\t'] + join(seq![b, c, d], seq!['\t'])),
{
    let tab = seq!['\t'];
    let four = seq![a, b, c, d];
    let three = seq![b, c, d];
    assert(four.drop_last() =~= seq![a, b, c]);
    assert(seq![a, b, c].drop_last() =~= seq![a, b]);
    assert(seq![a, b].drop_last() =~= seq![a]);
    assert(three.drop_last() =~= seq![b, c]);
    assert(seq![b, c].drop_last() =~= seq![b]);
    assert(join(seq![a], tab) == a);
    assert(join(seq![b], tab) == b);
    assert(join(seq![a, b], tab) == a + tab + b);
    assert(join(seq![a, b, c], tab) == a + tab + b + tab + c);
    assert(join(four, tab) == a + tab + b + tab + c + tab + d);
    assert(join(seq![b, c], tab) == b + tab + c);
    assert(join(three, tab) == b + tab + c + tab + d);
    assert(join(four, tab) =~= a + (tab + join(three, tab)));
}

proof fn middle_joins(start: Seq<char>, announced: Announced)
    ensures
        ({
            let tab = seq!['\t'];
            let fields = restarted_fields(start, announced);
            join(fields, tab) == start + tab + join(
                seq![fields[1], fields[2], fields[3]],
                tab,
            ) + tab + announced.public_key
        }),
{
    let tab = seq!['\t'];
    let fields = restarted_fields(start, announced);
    let head = seq![fields[0], fields[1], fields[2], fields[3]];
    assert(fields.drop_last() =~= head);
    four_join(fields[0], fields[1], fields[2], fields[3]);
    assert(join(head, tab) =~= start + tab + join(seq![fields[1], fields[2], fields[3]], tab));
}

/// A probe reads back as a probe.
pub proof fn probe_reads_back()
    ensures
        message_in(PROBE_MAGIC@) == Some(Message::Probe),
{
    magics_differ();
    assert(trim_start(PROBE_MAGIC@) == PROBE_MAGIC@);
    trim_end_keeps(PROBE_MAGIC@);
}

/// A scan takes up every announcement that arrives, with the address from which
/// it came, behind those that it has; a probe, and what is no message, it passes
/// over.
pub proof fn announcement_is_sighted(
    sightings: Seq<Sighted>,
    announced: Announced,
    endpoint: Seq<char>,
    datagram: Seq<u8>,
)
    requires
        announced.id.len() > 0,
        free_of(announced.id, '\t'),
        key_bytes(announced.public_key) is Some,
    ensures
        scanned(sightings, encode_utf8(announcement_text(announced)), endpoint) == sightings.push(
            Sighted {
                packet: Announced { name: sanitized(announced.name), ..announced },
                endpoint,
            },
        ),
        scanned(sightings, encode_utf8(PROBE_MAGIC@), endpoint) == sightings,
        !valid_utf8(datagram) ==> scanned(sightings, datagram, endpoint) == sightings,
{
    let text = announcement_text(announced);
    announcement_reads_back(announced);
    probe_reads_back();
    encode_utf8_valid_utf8(text);
    encode_utf8_decode_utf8(text);
    encode_utf8_valid_utf8(PROBE_MAGIC@);
    encode_utf8_decode_utf8(PROBE_MAGIC@);
}

/// A device that announces itself is recorded under its identifier, name,
/// platform and key, at the address from which the announcement came, and
/// without trust.
pub proof fn announced_device_is_untrusted(announced: Announced, endpoint: Seq<char>)
    ensures
        sighted_device(Sighted { packet: announced, endpoint }) == (Device {
            id: announced.id,
            name: announced.name,
            platform: announced.platform,
            trust_state: TrustState::Discovered,
            endpoint: Some(endpoint),
            public_key: Some(announced.public_key),
        }),
{
}

/// Sightings say all that they hold, in their order.
pub proof fn sightings_say_what_they_hold(sightings: Seq<Sighting>, at: int)
    requires
        0 <= at < sightings.len(),
    ensures
        sighting_list(sightings).len() == sightings.len(),
        ({
            let said = sighting_list(sightings)[at];
            let held = sightings[at];
            &&& said.endpoint == held.endpoint@
            &&& said.packet.id == held.packet.id@
            &&& said.packet.name == held.packet.name@
            &&& said.packet.platform == held.packet.platform
            &&& said.packet.public_key == held.packet.public_key@
        }),
{
}

/// A datagram says what its text says, and nothing where it is no text.
pub proof fn datagram_says_what_its_text_says(text: Seq<char>, datagram: Seq<u8>)
    ensures
        message_of(encode_utf8(text)) == message_in(text),
        !valid_utf8(datagram) ==> message_of(datagram) is None,
{
    encode_utf8_valid_utf8(text);
    encode_utf8_decode_utf8(text);
}

} // verus!

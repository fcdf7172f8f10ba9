//! What the settings window does about devices, in terms of what the user sees
//! and answers.

use vstd::prelude::*;

use crate::device::{name_of_platform, Device, TrustState};
use crate::presence::{after, opened, to_write, Session};
use crate::presence_laws::lasting_reads_back;
use crate::registry::{first_absent, first_found, first_is_first, has_id, trusting};
use crate::registry_laws::{compacting_changes_only_duplicates, trust_moves_to_the_device};
use crate::sighting_laws::{file_after, filter_apart, filter_contains, orderly};
use crate::text::{decimal, texts};
use crate::trust_store::{devices_in, storable, stored};
use crate::trust_store_laws::file_holds_storable_devices;
use crate::window::{
    accepted, addable, bounds_at, button_look, color_keeps_parts, controls_of, drawing_of,
    label_background, label_color, rows_of, scaled, scaling_keeps_layout, scaling_rounds_to_nearest,
    selected_row, shows, summary_of, trusted_all, Bounds, Drawn, Role, Shown, TextStyle, ADD, PICKER,
    REMOVE,
};

verus! {

/// The window offers a device exactly where the scan found it, it is neither
/// trusted nor blocked, and it is not this device.
pub proof fn undecided_and_removed_devices_are_offered(
    devices: Seq<Device>,
    local: Seq<char>,
    device: Device,
)
    ensures
        addable(devices, local).contains(device) <==> {
            &&& devices.contains(device)
            &&& device.id != local
            &&& device.trust_state == TrustState::Discovered || device.trust_state
                == TrustState::Pending || device.trust_state == TrustState::Revoked
        },
{
    filter_contains(
        devices,
        |device: Device|
            device.trust_state != TrustState::Trusted && device.trust_state != TrustState::Blocked
                && device.id != local,
        device,
    );
}

/// The window offers devices in the order of the scan, each as often as the scan
/// found it.
pub proof fn offered_devices_keep_order(left: Seq<Device>, right: Seq<Device>, local: Seq<char>)
    ensures
        addable(left + right, local) == addable(left, local) + addable(right, local),
        forall|one: Device|
            addable(#[trigger] seq![one], local).len() <= 1,
{
    let pick = |device: Device|
        device.trust_state != TrustState::Trusted && device.trust_state != TrustState::Blocked
            && device.id != local;
    filter_apart(left, right, pick);
    assert forall|one: Device| addable(#[trigger] seq![one], local).len() <= 1 by {
        reveal(Seq::filter);
        assert(seq![one].drop_last() =~= Seq::empty());
        assert(Seq::<Device>::empty().filter(pick) =~= Seq::empty());
    }
}

proof fn later_answers_do_not_count(devices: Seq<Device>, answers: Seq<bool>, more: bool)
    requires
        devices.len() <= answers.len(),
    ensures
        accepted(devices, answers.push(more)) == accepted(devices, answers),
    decreases devices.len(),
{
    if devices.len() > 0 {
        later_answers_do_not_count(devices.drop_last(), answers, more);
    }
}

/// A device is trusted exactly where the user answered yes about it, whatever
/// the answers about the others: one more device adds its identifier to those
/// that are trusted, behind them, or adds nothing.
pub proof fn each_answer_counts_for_its_device(
    devices: Seq<Device>,
    answers: Seq<bool>,
    device: Device,
    answer: bool,
)
    requires
        devices.len() == answers.len(),
    ensures
        accepted(devices.push(device), answers.push(answer)) == if answer {
            accepted(devices, answers).push(device.id)
        } else {
            accepted(devices, answers)
        },
        accepted(Seq::empty(), Seq::empty()) == Seq::<Seq<char>>::empty(),
{
    let more = devices.push(device);
    assert(more.drop_last() =~= devices);
    later_answers_do_not_count(devices, answers, answer);
}

/// Devices are trusted one after the other: those of two lists as those of the
/// first, and then those of the second; and one device as the user trusts it.
pub proof fn devices_are_trusted_in_turn(
    session: Session,
    left: Seq<Seq<char>>,
    right: Seq<Seq<char>>,
)
    ensures
        trusted_all(session, left + right) == trusted_all(trusted_all(session, left), right),
        trusted_all(session, Seq::empty()) == session,
        forall|one: Seq<char>|
            trusted_all(session, #[trigger] seq![one]) == after(
                session,
                trusting(devices_in(session.contents), one),
            ),
    decreases right.len(),
{
    if right.len() == 0 {
        assert(left + right =~= left);
    } else {
        devices_are_trusted_in_turn(session, left, right.drop_last());
        assert((left + right).drop_last() =~= left + right.drop_last());
        assert((left + right).last() == right.last());
    }
    assert forall|one: Seq<char>|
        trusted_all(session, #[trigger] seq![one]) == after(
            session,
            trusting(devices_in(session.contents), one),
        ) by {
        assert(seq![one].drop_last() =~= Seq::empty());
        assert(trusted_all(session, Seq::empty()) == session);
    }
}

/// A device that the user adds is trusted in the file, every other device of its
/// name and platform is not, and nothing else changes.
pub proof fn added_device_is_trusted(contents: Seq<char>, at: int)
    requires
        orderly(contents),
        0 <= at < devices_in(contents).len(),
    ensures
        ({
            let devices = devices_in(contents);
            let now = devices_in(
                file_after(
                    contents,
                    to_write(trusted_all(opened(contents), seq![devices[at].id])),
                ),
            );
            &&& now.len() == devices.len()
            &&& forall|j: int|
                0 <= j < devices.len() ==> #[trigger] now[j] == if j == at {
                    Device { trust_state: TrustState::Trusted, ..devices[j] }
                } else if devices[j].trust_state == TrustState::Trusted && devices[j].name
                    == devices[at].name && devices[j].platform == devices[at].platform {
                    Device { trust_state: TrustState::Discovered, ..devices[j] }
                } else {
                    devices[j]
                }
        }),
{
    let devices = devices_in(contents);
    let id = devices[at].id;
    let start = opened(contents);
    compacting_changes_only_duplicates(devices);
    file_holds_storable_devices(contents);
    devices_are_trusted_in_turn(start, Seq::empty(), seq![id]);
    trust_moves_to_the_device(devices, at, id);
    let list = trusting(devices, id).devices;
    assert forall|j: int| 0 <= j < list.len() implies storable(#[trigger] list[j]) && stored(
        list[j],
    ) == list[j] by {
        assert(storable(devices[j]) && stored(devices[j]) == devices[j]);
    }
    lasting_reads_back(list);
}

/// The device that was selected in the list stays selected when the list is
/// brought up to date, where it is still there. Otherwise the first row is.
pub proof fn selected_device_stays_selected(
    previous: Seq<Device>,
    selected: usize,
    devices: Seq<Device>,
    at: int,
)
    requires
        selected < previous.len(),
    ensures
        0 <= at < devices.len() && devices[at].id == previous[selected as int].id && (forall|
            j: int,
        |
            0 <= j < at ==> (#[trigger] devices[j]).id != previous[selected as int].id)
            ==> selected_row(previous, Some(selected), devices) == at,
        (forall|j: int|
            0 <= j < devices.len() ==> (#[trigger] devices[j]).id != previous[selected as int].id)
            ==> selected_row(previous, Some(selected), devices) == 0,
        selected_row(previous, None, devices) == 0,
{
    let id = previous[selected as int].id;
    let property = has_id(id);
    if 0 <= at < devices.len() && devices[at].id == id && (forall|j: int|
        0 <= j < at ==> (#[trigger] devices[j]).id != id) {
        assert forall|j: int| 0 <= j < at implies !property(#[trigger] devices[j]) by {}
        first_found(devices, property, at);
    }
    if forall|j: int| 0 <= j < devices.len() ==> (#[trigger] devices[j]).id != id {
        assert forall|j: int| 0 <= j < devices.len() implies !property(#[trigger] devices[j]) by {}
        first_absent(devices, property);
    }
}

/// Every trusted device has its row, with its name and its platform, in the
/// order of the store. The summary names the first of them, and how many there
/// are where there are more.
pub proof fn every_trusted_device_has_its_row(devices: Seq<Device>, at: int)
    requires
        0 <= at < devices.len(),
    ensures
        rows_of(devices).len() == devices.len(),
        rows_of(devices)[at] == devices[at].name + " · "@ + name_of_platform(devices[at].platform),
        devices.len() == 1 ==> summary_of(devices) == devices[0].name,
        devices.len() > 1 ==> summary_of(devices) == devices[0].name + " 等 "@ + decimal(
            devices.len(),
        ) + " 台"@,
{
}

/// What the window shows: a row for each trusted device, or one that says that
/// there is none; and a selected row that is one of them.
pub proof fn shown_rows_are_the_devices(
    shown: Shown,
    previous: Seq<Device>,
    selected: Option<usize>,
    devices: Seq<Device>,
)
    requires
        shows(shown, previous, selected, devices),
    ensures
        shown.has_trusted == (devices.len() > 0),
        texts(shown.rows@) == rows_of(devices),
        shown.rows@.len() == if devices.len() == 0 {
            1
        } else {
            devices.len()
        },
        shown.selected < shown.rows@.len(),
{
    assert(texts(shown.rows@).len() == shown.rows@.len());
    if selected is Some && selected->0 < previous.len() {
        first_is_first(devices, has_id(previous[selected->0 as int].id));
    }
}

/// A button that is at rest, one that is pressed and one that can do nothing
/// look different, and so do the two buttons; the one with the focus has a
/// border of its own, and any other has none.
pub proof fn buttons_show_their_state(primary: bool, disabled: bool, pressed: bool, focused: bool)
    ensures
        button_look(primary, false, false, focused).fill != button_look(
            primary,
            false,
            true,
            focused,
        ).fill,
        button_look(primary, false, false, focused).fill != button_look(
            primary,
            true,
            pressed,
            focused,
        ).fill,
        button_look(primary, false, true, focused).fill != button_look(
            primary,
            true,
            pressed,
            focused,
        ).fill,
        button_look(true, disabled, pressed, focused).fill != button_look(
            false,
            disabled,
            pressed,
            focused,
        ).fill,
        button_look(primary, true, true, focused) == button_look(primary, true, false, focused),
        button_look(primary, disabled, pressed, false).border == button_look(
            primary,
            disabled,
            pressed,
            false,
        ).fill,
        button_look(primary, disabled, pressed, true).border != button_look(
            primary,
            disabled,
            pressed,
            true,
        ).fill,
{
    color_keeps_parts(165, 202, 238);
    color_keeps_parts(0, 98, 205);
    color_keeps_parts(10, 132, 255);
    color_keeps_parts(239, 241, 244);
    color_keeps_parts(220, 224, 230);
    color_keeps_parts(232, 235, 240);
    color_keeps_parts(0, 92, 190);
}

/// The connection is drawn in another colour once a device is trusted; no other
/// label is. Only what stands on a card has the colour of the cards behind it.
pub proof fn connection_shows_trust(style: TextStyle)
    ensures
        label_color(Some(TextStyle::Connection), true) != label_color(
            Some(TextStyle::Connection),
            false,
        ),
        style != TextStyle::Connection ==> label_color(Some(style), true) == label_color(
            Some(style),
            false,
        ),
        label_background(Some(style)) != label_background(None) <==> style == TextStyle::CardKind
            || style == TextStyle::CardValue,
{
    color_keeps_parts(10, 132, 255);
    color_keeps_parts(160, 166, 176);
    color_keeps_parts(244, 246, 249);
    color_keeps_parts(249, 250, 252);
}

/// The window is drawn the same whether or not a device is trusted, but for the
/// mark in the badge of the others; and what is drawn without knowing comes
/// first of all that is drawn.
pub proof fn badge_shows_trust(dpi: u32, i: int)
    requires
        0 <= i < drawing_of(dpi, Some(true)).len(),
    ensures
        drawing_of(dpi, Some(true)).len() == drawing_of(dpi, Some(false)).len(),
        i != 7 ==> drawing_of(dpi, Some(true))[i] == drawing_of(dpi, Some(false))[i],
        drawing_of(dpi, Some(true))[7] matches Drawn::Text { text, .. } && text == "✓"@,
        drawing_of(dpi, Some(false))[7] matches Drawn::Text { text, .. } && text == "+"@,
        drawing_of(dpi, None).len() == 3,
        i < 3 ==> drawing_of(dpi, None)[i] == drawing_of(dpi, Some(true))[i],
{
}

/// The two buttons and the list report under their numbers, and no other control
/// does; this device's name is shown.
pub proof fn controls_report_under_their_numbers(name: Seq<char>, i: int)
    requires
        0 <= i < controls_of(name).len(),
    ensures
        ({
            let control = controls_of(name)[i];
            &&& control.role == Role::Add <==> control.id == ADD
            &&& control.role == Role::Remove <==> control.id == REMOVE
            &&& control.role == Role::Picker <==> control.id == PICKER
            &&& control.id == 0 || control.id == ADD || control.id == REMOVE || control.id
                == PICKER
        }),
        exists|j: int|
            0 <= j < controls_of(name).len() && (#[trigger] controls_of(name)[j]).text == name,
{
    assert(controls_of(name)[5].text == name);
}

/// No two controls of the window cover each other, except that the list covers
/// the line below it while it is open; nor does a control cross the edge of a
/// card.
pub proof fn controls_do_not_overlap(name: Seq<char>, i: int, j: int, card: int)
    requires
        0 <= i < j < controls_of(name).len(),
        card == 28 || card == 312,
    ensures
        ({
            let left = controls_of(name)[i].area;
            let right = controls_of(name)[j].area;
            ||| left.x + left.width <= right.x
            ||| right.x + right.width <= left.x
            ||| left.y + left.height <= right.y
            ||| right.y + right.height <= left.y
            ||| controls_of(name)[i].role == Role::Picker
        }),
        ({
            let area = controls_of(name)[i].area;
            ||| card <= area.x && area.x + area.width <= card + 200 && 150 <= area.y && area.y
                + area.height <= 252
            ||| area.x + area.width <= card
            ||| card + 200 <= area.x
            ||| area.y + area.height <= 150
            ||| 252 <= area.y
        }),
{
}

/// What is drawn keeps its place: at 96 dots per inch its edges are where the
/// plan has them, and at any resolution each is within half a dot of there.
pub proof fn drawing_keeps_its_place(dpi: u32, left: int, top: int, right: int, bottom: int)
    requires
        dpi <= 1000000,
        0 <= left <= 1000,
        0 <= top <= 1000,
        0 <= right <= 1000,
        0 <= bottom <= 1000,
    ensures
        bounds_at(96, left, top, right, bottom) == (Bounds {
            left: left as i32,
            top: top as i32,
            right: right as i32,
            bottom: bottom as i32,
        }),
        ({
            let bounds = bounds_at(dpi, left, top, right, bottom);
            &&& 96 * bounds.left - 48 <= left * dpi <= 96 * bounds.left + 48
            &&& 96 * bounds.top - 48 <= top * dpi <= 96 * bounds.top + 48
            &&& 96 * bounds.right - 48 <= right * dpi <= 96 * bounds.right + 48
            &&& 96 * bounds.bottom - 48 <= bottom * dpi <= 96 * bounds.bottom + 48
        }),
{
    edge_keeps_its_place(dpi, left);
    edge_keeps_its_place(dpi, top);
    edge_keeps_its_place(dpi, right);
    edge_keeps_its_place(dpi, bottom);
}

proof fn edge_keeps_its_place(dpi: u32, edge: int)
    requires
        dpi <= 1000000,
        0 <= edge <= 1000,
    ensures
        scaled(edge, 96) == edge,
        0 <= scaled(edge, dpi as int) <= i32::MAX,
        96 * scaled(edge, dpi as int) - 48 <= edge * dpi <= 96 * scaled(edge, dpi as int) + 48,
{
    scaling_keeps_layout(edge);
    scaling_rounds_to_nearest(edge, dpi as int);
    assert(0 <= edge * dpi <= 1000000000) by (nonlinear_arith)
        requires
            0 <= edge <= 1000,
            0 <= dpi <= 1000000,
    ;
}

/// A card is drawn behind what stands on it: the panel of this device behind the
/// controls that name it, and the panel of the others behind those that tell of
/// them.
pub proof fn cards_are_behind_their_text(name: Seq<char>, i: int)
    requires
        0 <= i < controls_of(name).len(),
    ensures
        ({
            let control = controls_of(name)[i];
            let area = control.area;
            control.style == TextStyle::CardKind || control.style == TextStyle::CardValue ==> (
            exists|card: int|
                1 <= card <= 2 && match #[trigger] drawing_of(96, None)[card] {
                    Drawn::Panel { bounds, .. } => bounds.left <= area.x && area.x + area.width
                        <= bounds.right && bounds.top <= area.y && area.y + area.height
                        <= bounds.bottom,
                    _ => false,
                })
        }),
{
    drawing_keeps_its_place(96, 28, 150, 228, 252);
    drawing_keeps_its_place(96, 312, 150, 512, 252);
    let one = drawing_of(96, None)[1];
    let two = drawing_of(96, None)[2];
    assert(one matches Drawn::Panel { bounds, .. } && bounds.left == 28 && bounds.right == 228
        && bounds.top == 150 && bounds.bottom == 252);
    assert(two matches Drawn::Panel { bounds, .. } && bounds.left == 312 && bounds.right == 512
        && bounds.top == 150 && bounds.bottom == 252);
}

} // verus!

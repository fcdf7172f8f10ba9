//! The settings window on Windows: its layout and colours, what it says, and
//! what it does about what the user does.

use vstd::prelude::*;

use crate::device::{
    device_list, name_of_platform, platform_name, same_devices, Device, DeviceId, DeviceInfo,
    LocalDevice, TrustState,
};
use crate::error::{Error, ErrorKind};
use crate::presence::{after, opened, to_write, Session};
use crate::registry::{first, has_id, trusting};
use crate::text::{decimal, decimal_text, same, texts};
use crate::trust_store::{devices_in, TrustStore};

verus! {

/// The width of the window at 96 dots per inch.
pub const WIDTH: i32 = 540;

/// The height of the window at 96 dots per inch.
pub const HEIGHT: i32 = 440;

/// The button that adds a device.
pub const ADD: u16 = 1001;

/// The button that removes a device.
pub const REMOVE: u16 = 1002;

/// The list of the trusted devices.
pub const PICKER: u16 = 1003;

/// The entry of the tray's menu that opens the window.
pub const TRAY_OPEN: u16 = 1101;

/// The entry of the tray's menu that ends the program.
pub const TRAY_EXIT: u16 = 1102;

// Layout
/// A quotient rounded towards zero.
pub open spec fn quotient(dividend: int, divisor: int) -> int {
    if dividend >= 0 {
        dividend / divisor
    } else {
        -((-dividend) / divisor)
    }
}

/// A length at some dots per inch, given the length at 96, rounded to the
/// nearest.
pub open spec fn scaled(value: int, dpi: int) -> int {
    quotient(value * dpi + 48, 96)
}

/// A length at some dots per inch, given the length at 96. Where it does not
/// fit, its low bits.
pub fn scale(value: i32, dpi: u32) -> (res: i32)
    ensures
        res == scaled(value as int, dpi as int) as i32,
{
    assert(-0x8000_0000 * 0xffff_ffff <= value * dpi <= 0x7fff_ffff * 0xffff_ffff)
        by (nonlinear_arith)
        requires
            -0x8000_0000 <= value <= 0x7fff_ffff,
            0 <= dpi <= 0xffff_ffff,
    ;
    let dividend: i64 = value as i64 * dpi as i64 + 48;
    if dividend >= 0 {
        let result: i64 = dividend / 96;
        #[verifier::truncate]
        (result as i32)
    } else {
        let positive: i64 = -dividend;
        let result: i64 = -(positive / 96);
        #[verifier::truncate]
        (result as i32)
    }
}

/// At 96 dots per inch lengths are what they are.
pub proof fn scaling_keeps_layout(value: int)
    requires
        value >= 0,
    ensures
        scaled(value, 96) == value,
{
}

/// A scaled length is the nearest to the exact one.
pub proof fn scaling_rounds_to_nearest(value: int, dpi: int)
    requires
        value >= 0,
        dpi >= 0,
    ensures
        96 * scaled(value, dpi) - 48 <= value * dpi <= 96 * scaled(value, dpi) + 48,
{
    assert(value * dpi >= 0) by (nonlinear_arith)
        requires
            value >= 0,
            dpi >= 0,
    ;
}

/// What is not smaller at 96 dots per inch is not smaller at any.
pub proof fn scaling_keeps_order(smaller: int, larger: int, dpi: int)
    requires
        0 <= smaller <= larger,
        dpi >= 0,
    ensures
        scaled(smaller, dpi) <= scaled(larger, dpi),
{
    assert(0 <= smaller * dpi <= larger * dpi) by (nonlinear_arith)
        requires
            0 <= smaller <= larger,
            dpi >= 0,
    ;
}

/// What a piece of text is for: its font and its colour follow from it.
#[derive(Clone, Copy, Debug, PartialEq, Eq, Structural)]
pub enum TextStyle {
    Header,
    Running,
    Hero,
    Lead,
    CardKind,
    CardValue,
    Connection,
    Status,
    Footer,
}

/// The fonts: size at 96 dots per inch and weight.
pub open spec fn font_table() -> Seq<(i32, i32)> {
    seq![(13, 400), (18, 600), (23, 600), (11, 400), (14, 600), (24, 400)]
}

/// The fonts.
pub fn fonts() -> (res: Vec<(i32, i32)>)
    ensures
        res@ == font_table(),
{
    let mut res: Vec<(i32, i32)> = Vec::new();
    res.push((13, 400));
    res.push((18, 600));
    res.push((23, 600));
    res.push((11, 400));
    res.push((14, 600));
    res.push((24, 400));
    assert(res@ =~= font_table());
    res
}

/// The font of a style, by its place in the table.
pub fn font_index(style: TextStyle) -> (res: usize)
    ensures
        res == match style {
            TextStyle::Header => 1usize,
            TextStyle::Hero => 2,
            TextStyle::Lead | TextStyle::CardKind | TextStyle::Footer => 3,
            TextStyle::CardValue => 4,
            TextStyle::Connection => 5,
            TextStyle::Running | TextStyle::Status => 0,
        },
        res < font_table().len(),
{
    match style {
        TextStyle::Header => 1,
        TextStyle::Hero => 2,
        TextStyle::Lead | TextStyle::CardKind | TextStyle::Footer => 3,
        TextStyle::CardValue => 4,
        TextStyle::Connection => 5,
        TextStyle::Running | TextStyle::Status => 0,
    }
}

/// How a label places its text.
#[derive(Clone, Copy, Debug, PartialEq, Eq, Structural)]
pub enum Placing {
    Left,
    Right,
    Center,
    /// At the left, and cut off where it is too long.
    Ellipsis,
}

/// What a control is.
#[derive(Clone, Copy, Debug, PartialEq, Eq, Structural)]
pub enum ControlKind {
    Label(Placing),
    Button,
    Picker,
}

/// Which controls change while the window is open.
#[derive(Clone, Copy, Debug, PartialEq, Eq, Structural)]
pub enum Role {
    Fixed,
    Title,
    Lead,
    RemoteKind,
    RemoteSummary,
    Status,
    Add,
    Picker,
    Remove,
}

/// A rectangle by its corner and its size.
#[derive(Clone, Copy, Debug, PartialEq, Eq, Structural)]
pub struct Area {
    pub x: i32,
    pub y: i32,
    pub width: i32,
    pub height: i32,
}

/// A control of the window.
#[derive(Debug, PartialEq, Eq)]
pub struct Control {
    pub role: Role,
    pub kind: ControlKind,
    pub text: String,
    pub area: Area,
    /// The number under which it reports, or zero.
    pub id: u16,
    pub style: TextStyle,
}

/// What a control is, as mathematical values.
#[verifier::ext_equal]
pub struct ControlPlan {
    pub role: Role,
    pub kind: ControlKind,
    pub text: Seq<char>,
    pub area: Area,
    pub id: u16,
    pub style: TextStyle,
}

impl View for Control {
    type V = ControlPlan;

    open spec fn view(&self) -> ControlPlan {
        ControlPlan {
            role: self.role,
            kind: self.kind,
            text: self.text@,
            area: self.area,
            id: self.id,
            style: self.style,
        }
    }
}

/// What a list of controls says.
pub open spec fn control_list(controls: Seq<Control>) -> Seq<ControlPlan> {
    Seq::new(controls.len(), |i: int| controls[i]@)
}

/// A rectangle by its corner and its size.
pub open spec fn area(x: i32, y: i32, width: i32, height: i32) -> Area {
    Area { x, y, width, height }
}

/// A label that does not change.
pub open spec fn fixed(text: Seq<char>, placing: Placing, area: Area, style: TextStyle) -> ControlPlan {
    labelled(Role::Fixed, text, placing, area, style)
}

/// A label.
pub open spec fn labelled(
    role: Role,
    text: Seq<char>,
    placing: Placing,
    area: Area,
    style: TextStyle,
) -> ControlPlan {
    ControlPlan { role, kind: ControlKind::Label(placing), text, area, id: 0, style }
}

/// A control that reports what the user does with it.
pub open spec fn active(
    role: Role,
    kind: ControlKind,
    text: Seq<char>,
    area: Area,
    id: u16,
) -> ControlPlan {
    ControlPlan { role, kind, text, area, id, style: TextStyle::Status }
}

/// The controls of the window.
pub open spec fn controls_of(name: Seq<char>) -> Seq<ControlPlan> {
    seq![
        fixed("Span"@, Placing::Left, area(62, 20, 100, 30), TextStyle::Header),
        fixed("●  同步中"@, Placing::Right, area(414, 24, 98, 24), TextStyle::Running),
        labelled(Role::Title, "连接你的设备"@, Placing::Left, area(28, 72, 484, 34), TextStyle::Hero),
        labelled(
            Role::Lead,
            "发现同一网络中的 Span，并建立可信连接。"@,
            Placing::Left,
            area(28, 108, 484, 25),
            TextStyle::Lead,
        ),
        fixed("这台 Windows"@, Placing::Left, area(72, 164, 136, 20), TextStyle::CardKind),
        fixed(name, Placing::Ellipsis, area(72, 190, 136, 42), TextStyle::CardValue),
        fixed("⇄"@, Placing::Center, area(238, 184, 64, 40), TextStyle::Connection),
        labelled(
            Role::RemoteKind,
            "等待连接"@,
            Placing::Left,
            area(356, 164, 136, 20),
            TextStyle::CardKind,
        ),
        labelled(
            Role::RemoteSummary,
            "暂无设备"@,
            Placing::Ellipsis,
            area(356, 190, 136, 42),
            TextStyle::CardValue,
        ),
        labelled(
            Role::Status,
            "仅向可信设备同步剪贴板。"@,
            Placing::Center,
            area(28, 272, 484, 24),
            TextStyle::Status,
        ),
        active(Role::Add, ControlKind::Button, "添加设备…"@, area(176, 306, 188, 36), ADD),
        active(
            Role::Picker,
            ControlKind::Picker,
            Seq::empty(),
            area(96, 354, 258, 180),
            PICKER,
        ),
        active(Role::Remove, ControlKind::Button, "移除"@, area(362, 354, 82, 30), REMOVE),
        fixed(
            "关闭窗口后，后台仍会继续同步。"@,
            Placing::Center,
            area(28, 406, 484, 20),
            TextStyle::Footer,
        ),
    ]
}

fn label(
    role: Role,
    text: &str,
    placing: Placing,
    x: i32,
    y: i32,
    width: i32,
    height: i32,
    style: TextStyle,
) -> (res: Control)
    ensures
        res@ == labelled(role, text@, placing, area(x, y, width, height), style),
{
    Control {
        role,
        kind: ControlKind::Label(placing),
        text: text.to_owned(),
        area: Area { x, y, width, height },
        id: 0,
        style,
    }
}

fn active_control(
    role: Role,
    kind: ControlKind,
    text: &str,
    x: i32,
    y: i32,
    width: i32,
    height: i32,
    id: u16,
) -> (res: Control)
    ensures
        res@ == active(role, kind, text@, area(x, y, width, height), id),
{
    Control {
        role,
        kind,
        text: text.to_owned(),
        area: Area { x, y, width, height },
        id,
        style: TextStyle::Status,
    }
}

/// The controls of the window, in the order in which they are made.
pub fn create_controls(local: &LocalDevice) -> (res: Vec<Control>)
    ensures
        control_list(res@) == controls_of(local.name@),
{
    let mut res: Vec<Control> = Vec::new();
    res.push(label(Role::Fixed, "Span", Placing::Left, 62, 20, 100, 30, TextStyle::Header));
    res.push(
        label(Role::Fixed, "●  同步中", Placing::Right, 414, 24, 98, 24, TextStyle::Running),
    );
    res.push(
        label(Role::Title, "连接你的设备", Placing::Left, 28, 72, 484, 34, TextStyle::Hero),
    );
    res.push(
        label(
            Role::Lead,
            "发现同一网络中的 Span，并建立可信连接。",
            Placing::Left,
            28,
            108,
            484,
            25,
            TextStyle::Lead,
        ),
    );
    res.push(
        label(Role::Fixed, "这台 Windows", Placing::Left, 72, 164, 136, 20, TextStyle::CardKind),
    );
    res.push(
        label(
            Role::Fixed,
            local.name.as_str(),
            Placing::Ellipsis,
            72,
            190,
            136,
            42,
            TextStyle::CardValue,
        ),
    );
    res.push(label(Role::Fixed, "⇄", Placing::Center, 238, 184, 64, 40, TextStyle::Connection));
    res.push(
        label(Role::RemoteKind, "等待连接", Placing::Left, 356, 164, 136, 20, TextStyle::CardKind),
    );
    res.push(
        label(
            Role::RemoteSummary,
            "暂无设备",
            Placing::Ellipsis,
            356,
            190,
            136,
            42,
            TextStyle::CardValue,
        ),
    );
    res.push(
        label(
            Role::Status,
            "仅向可信设备同步剪贴板。",
            Placing::Center,
            28,
            272,
            484,
            24,
            TextStyle::Status,
        ),
    );
    res.push(
        active_control(Role::Add, ControlKind::Button, "添加设备…", 176, 306, 188, 36, ADD),
    );
    let picker = active_control(Role::Picker, ControlKind::Picker, "", 96, 354, 258, 180, PICKER);
    assert(picker@.text =~= Seq::<char>::empty()) by {
        reveal_strlit("");
    }
    res.push(picker);
    res.push(active_control(Role::Remove, ControlKind::Button, "移除", 362, 354, 82, 30, REMOVE));
    res.push(
        label(
            Role::Fixed,
            "关闭窗口后，后台仍会继续同步。",
            Placing::Center,
            28,
            406,
            484,
            20,
            TextStyle::Footer,
        ),
    );
    assert(control_list(res@) =~= controls_of(local.name@));
    res
}

/// Where a control is at some dots per inch.
pub fn scaled_area(area: Area, dpi: u32) -> (res: Area)
    ensures
        res.x == scaled(area.x as int, dpi as int) as i32,
        res.y == scaled(area.y as int, dpi as int) as i32,
        res.width == scaled(area.width as int, dpi as int) as i32,
        res.height == scaled(area.height as int, dpi as int) as i32,
{
    Area {
        x: scale(area.x, dpi),
        y: scale(area.y, dpi),
        width: scale(area.width, dpi),
        height: scale(area.height, dpi),
    }
}

/// Where a control with a label lies inside the window.
pub open spec fn inside(area: Area) -> bool {
    0 <= area.x && 0 <= area.y && 0 <= area.width && 0 <= area.height && area.x + area.width
        <= WIDTH && area.y + area.height <= HEIGHT
}

/// Every control lies inside the window, but for the list that opens over it.
pub proof fn controls_lie_inside(name: Seq<char>, i: int)
    requires
        0 <= i < controls_of(name).len(),
        controls_of(name)[i].role != Role::Picker,
    ensures
        inside(controls_of(name)[i].area),
{
}

// Colours
/// A colour as the system writes it: red in the lowest byte, green in the next,
/// and blue in the one above.
pub open spec fn color(red: u32, green: u32, blue: u32) -> u32 {
    red | (green << 8u32) | (blue << 16u32)
}

/// A colour of its three parts.
pub fn rgb(red: u32, green: u32, blue: u32) -> (res: u32)
    ensures
        res == color(red, green, blue),
{
    red | (green << 8u32) | (blue << 16u32)
}

/// The parts of a colour do not overlap, where each is a byte.
pub proof fn color_keeps_parts(red: u32, green: u32, blue: u32)
    requires
        red < 256,
        green < 256,
        blue < 256,
    ensures
        color(red, green, blue) == red + 256 * green + 65536 * blue,
{
    assert(red < 256 && green < 256 && blue < 256 ==> red | (green << 8u32) | (blue << 16u32)
        == red + 256 * green + 65536 * blue) by (bit_vector);
}

/// The colour of a label.
pub open spec fn label_color(style: Option<TextStyle>, has_trusted: bool) -> u32 {
    match style {
        Some(TextStyle::Running) => color(36, 163, 76),
        Some(TextStyle::Lead) | Some(TextStyle::CardKind) | Some(TextStyle::Footer) => color(
            112,
            118,
            128,
        ),
        Some(TextStyle::Connection) => if has_trusted {
            color(10, 132, 255)
        } else {
            color(160, 166, 176)
        },
        Some(TextStyle::Status) => color(82, 88, 98),
        _ => color(28, 31, 36),
    }
}

/// The colour behind a label: that of a card, or that of the window.
pub open spec fn label_background(style: Option<TextStyle>) -> u32 {
    match style {
        Some(TextStyle::CardKind) | Some(TextStyle::CardValue) => color(244, 246, 249),
        _ => color(249, 250, 252),
    }
}

/// The colours of a label and behind it.
pub fn paint_static(style: Option<TextStyle>, has_trusted: bool) -> (res: (u32, u32))
    ensures
        res == (label_color(style, has_trusted), label_background(style)),
{
    let text: u32 = match style {
        Some(TextStyle::Running) => rgb(36, 163, 76),
        Some(TextStyle::Lead) | Some(TextStyle::CardKind) | Some(TextStyle::Footer) => rgb(
            112,
            118,
            128,
        ),
        Some(TextStyle::Connection) => if has_trusted {
            rgb(10, 132, 255)
        } else {
            rgb(160, 166, 176)
        },
        Some(TextStyle::Status) => rgb(82, 88, 98),
        _ => rgb(28, 31, 36),
    };
    let behind: u32 = match style {
        Some(TextStyle::CardKind) | Some(TextStyle::CardValue) => rgb(244, 246, 249),
        _ => rgb(249, 250, 252),
    };
    (text, behind)
}

/// How a button looks.
#[derive(Clone, Copy, Debug, PartialEq, Eq, Structural)]
pub struct ButtonLook {
    pub fill: u32,
    pub border: u32,
    pub text: u32,
}

/// How a button looks: the one that adds a device is the primary one.
pub open spec fn button_look(
    primary: bool,
    disabled: bool,
    pressed: bool,
    focused: bool,
) -> ButtonLook {
    let fill = if primary {
        if disabled {
            color(165, 202, 238)
        } else if pressed {
            color(0, 98, 205)
        } else {
            color(10, 132, 255)
        }
    } else if disabled {
        color(239, 241, 244)
    } else if pressed {
        color(220, 224, 230)
    } else {
        color(232, 235, 240)
    };
    ButtonLook {
        fill,
        border: if focused {
            color(0, 92, 190)
        } else {
            fill
        },
        text: if primary {
            color(255, 255, 255)
        } else if disabled {
            color(156, 162, 172)
        } else {
            color(45, 49, 56)
        },
    }
}

/// How a button looks.
pub fn paint_button(id: u16, disabled: bool, pressed: bool, focused: bool) -> (res: ButtonLook)
    ensures
        res == button_look(id == ADD, disabled, pressed, focused),
{
    let primary = id == ADD;
    let fill: u32 = if primary {
        if disabled {
            rgb(165, 202, 238)
        } else if pressed {
            rgb(0, 98, 205)
        } else {
            rgb(10, 132, 255)
        }
    } else if disabled {
        rgb(239, 241, 244)
    } else if pressed {
        rgb(220, 224, 230)
    } else {
        rgb(232, 235, 240)
    };
    let border: u32 = if focused {
        rgb(0, 92, 190)
    } else {
        fill
    };
    let text: u32 = if primary {
        rgb(255, 255, 255)
    } else if disabled {
        rgb(156, 162, 172)
    } else {
        rgb(45, 49, 56)
    };
    ButtonLook { fill, border, text }
}

/// A rectangle by two corners.
#[derive(Clone, Copy, Debug, PartialEq, Eq, Structural)]
pub struct Bounds {
    pub left: i32,
    pub top: i32,
    pub right: i32,
    pub bottom: i32,
}

/// One step of drawing the window.
#[derive(Clone, Copy, Debug, PartialEq, Eq)]
pub enum Drawing {
    /// Fill everything.
    Background { color: u32 },
    /// A rectangle with round corners, filled and outlined in one colour, or in
    /// two.
    Panel { fill: u32, outline: u32, bounds: Bounds, corner: i32 },
    /// A text in the middle of a rectangle.
    Text { text: &'static str, color: u32, bounds: Bounds },
}

/// What a step of drawing is, as mathematical values.
pub enum Drawn {
    Background { color: u32 },
    Panel { fill: u32, outline: u32, bounds: Bounds, corner: i32 },
    Text { text: Seq<char>, color: u32, bounds: Bounds },
}

impl View for Drawing {
    type V = Drawn;

    open spec fn view(&self) -> Drawn {
        match self {
            Drawing::Background { color } => Drawn::Background { color: *color },
            Drawing::Panel { fill, outline, bounds, corner } => Drawn::Panel {
                fill: *fill,
                outline: *outline,
                bounds: *bounds,
                corner: *corner,
            },
            Drawing::Text { text, color, bounds } => Drawn::Text {
                text: text@,
                color: *color,
                bounds: *bounds,
            },
        }
    }
}

/// What a list of steps says.
pub open spec fn drawing_list(drawings: Seq<Drawing>) -> Seq<Drawn> {
    Seq::new(drawings.len(), |i: int| drawings[i]@)
}

/// A rectangle at some dots per inch, given its corners at 96.
pub open spec fn bounds_at(dpi: u32, left: int, top: int, right: int, bottom: int) -> Bounds {
    Bounds {
        left: scaled(left, dpi as int) as i32,
        top: scaled(top, dpi as int) as i32,
        right: scaled(right, dpi as int) as i32,
        bottom: scaled(bottom, dpi as int) as i32,
    }
}

fn scaled_bounds(dpi: u32, left: i32, top: i32, right: i32, bottom: i32) -> (res: Bounds)
    ensures
        res == bounds_at(dpi, left as int, top as int, right as int, bottom as int),
{
    Bounds {
        left: scale(left, dpi),
        top: scale(top, dpi),
        right: scale(right, dpi),
        bottom: scale(bottom, dpi),
    }
}

/// A rectangle with round corners at some dots per inch.
pub open spec fn panel_at(
    dpi: u32,
    fill: u32,
    outline: u32,
    left: int,
    top: int,
    right: int,
    bottom: int,
    corner: int,
) -> Drawn {
    Drawn::Panel {
        fill,
        outline,
        bounds: bounds_at(dpi, left, top, right, bottom),
        corner: scaled(corner, dpi as int) as i32,
    }
}

fn panel(
    dpi: u32,
    fill: u32,
    outline: u32,
    left: i32,
    top: i32,
    right: i32,
    bottom: i32,
    corner: i32,
) -> (res: Drawing)
    ensures
        res@ == panel_at(
            dpi,
            fill,
            outline,
            left as int,
            top as int,
            right as int,
            bottom as int,
            corner as int,
        ),
{
    Drawing::Panel {
        fill,
        outline,
        bounds: scaled_bounds(dpi, left, top, right, bottom),
        corner: scale(corner, dpi),
    }
}

/// What is drawn behind the controls in any case: the window and the two cards.
pub open spec fn frame_of(dpi: u32) -> Seq<Drawn> {
    let card = color(244, 246, 249);
    let edge = color(228, 232, 238);
    seq![
        Drawn::Background { color: color(249, 250, 252) },
        panel_at(dpi, card, edge, 28, 150, 228, 252, 16),
        panel_at(dpi, card, edge, 312, 150, 512, 252, 16),
    ]
}

/// What is drawn on the window and the cards: the badge of the program, the
/// badges of this device and of the others, and what is in them.
pub open spec fn badges_of(dpi: u32, has_trusted: bool) -> Seq<Drawn> {
    let dark = color(20, 34, 55);
    let pale = color(226, 239, 255);
    let cyan = color(69, 207, 216);
    let blue = color(10, 105, 220);
    seq![
        panel_at(dpi, dark, dark, 28, 18, 52, 42, 8),
        panel_at(dpi, pale, pale, 40, 180, 64, 204, 12),
        Drawn::Text { text: "W"@, color: blue, bounds: bounds_at(dpi, 40, 180, 64, 204) },
        panel_at(dpi, pale, pale, 324, 180, 348, 204, 12),
        Drawn::Text {
            text: if has_trusted {
                "✓"@
            } else {
                "+"@
            },
            color: blue,
            bounds: bounds_at(dpi, 324, 180, 348, 204),
        },
        Drawn::Text {
            text: "N"@,
            color: color(255, 255, 255),
            bounds: bounds_at(dpi, 28, 18, 52, 42),
        },
        panel_at(dpi, cyan, cyan, 34, 34, 45, 37, 3),
    ]
}

/// What is drawn behind the controls. The badges are there while the window
/// knows whether a device is trusted.
pub open spec fn drawing_of(dpi: u32, has_trusted: Option<bool>) -> Seq<Drawn> {
    match has_trusted {
        Some(known) => frame_of(dpi) + badges_of(dpi, known),
        None => frame_of(dpi),
    }
}

/// What is drawn behind the controls, step by step.
pub fn paint_window(dpi: u32, has_trusted: Option<bool>) -> (res: Vec<Drawing>)
    ensures
        drawing_list(res@) == drawing_of(dpi, has_trusted),
{
    let card: u32 = rgb(244, 246, 249);
    let edge: u32 = rgb(228, 232, 238);
    let dark: u32 = rgb(20, 34, 55);
    let pale: u32 = rgb(226, 239, 255);
    let cyan: u32 = rgb(69, 207, 216);
    let blue: u32 = rgb(10, 105, 220);
    let mut res: Vec<Drawing> = Vec::new();
    res.push(Drawing::Background { color: rgb(249, 250, 252) });
    res.push(panel(dpi, card, edge, 28, 150, 228, 252, 16));
    res.push(panel(dpi, card, edge, 312, 150, 512, 252, 16));
    assert(drawing_list(res@) =~= frame_of(dpi));
    let known = match has_trusted {
        Some(known) => known,
        None => {
            return res;
        },
    };
    res.push(panel(dpi, dark, dark, 28, 18, 52, 42, 8));
    res.push(panel(dpi, pale, pale, 40, 180, 64, 204, 12));
    res.push(
        Drawing::Text { text: "W", color: blue, bounds: scaled_bounds(dpi, 40, 180, 64, 204) },
    );
    res.push(panel(dpi, pale, pale, 324, 180, 348, 204, 12));
    let mark = if known {
        "✓"
    } else {
        "+"
    };
    res.push(
        Drawing::Text { text: mark, color: blue, bounds: scaled_bounds(dpi, 324, 180, 348, 204) },
    );
    res.push(
        Drawing::Text {
            text: "N",
            color: rgb(255, 255, 255),
            bounds: scaled_bounds(dpi, 28, 18, 52, 42),
        },
    );
    res.push(panel(dpi, cyan, cyan, 34, 34, 45, 37, 3));
    assert(drawing_list(res@) =~= drawing_of(dpi, has_trusted));
    res
}

// Messages
/// What a control reports.
#[derive(Clone, Copy, Debug, PartialEq, Eq, Structural)]
pub enum Report {
    Clicked,
    SelectionChanged,
    Other,
}

/// What is done about a report.
#[derive(Clone, Copy, Debug, PartialEq, Eq)]
pub enum CommandAction {
    /// Show the window.
    Show,
    /// Show the window, and say why it stays.
    ShowBusy(&'static str),
    /// End the program.
    Destroy,
    /// Bring the controls up to date.
    Update,
    /// Start adding a device.
    Add,
    /// Start removing a device.
    Remove,
    Ignore,
}

/// What is said where the program is to end while it works on devices.
pub const BUSY_ON_EXIT: &'static str = "正在处理设备操作，请稍候再退出 Span。";

/// What is said where the window is to close while it works on devices.
pub const BUSY_ON_CLOSE: &'static str = "正在处理设备操作，请稍候再关闭窗口。";

/// What is done about the report of a control, or of an entry of the tray's
/// menu. Work on devices is not cut off.
pub fn command_action(id: u16, report: Report, busy: bool) -> (res: CommandAction)
    ensures
        if id == TRAY_OPEN {
            res is Show
        } else if id == TRAY_EXIT {
            if busy {
                res matches CommandAction::ShowBusy(text) && text@ == BUSY_ON_EXIT@
            } else {
                res is Destroy
            }
        } else if id == PICKER && report == Report::SelectionChanged {
            res is Update
        } else if id == ADD && report == Report::Clicked {
            res is Add
        } else if id == REMOVE && report == Report::Clicked {
            res is Remove
        } else {
            res is Ignore
        },
{
    if id == TRAY_OPEN {
        CommandAction::Show
    } else if id == TRAY_EXIT {
        if busy {
            CommandAction::ShowBusy(BUSY_ON_EXIT)
        } else {
            CommandAction::Destroy
        }
    } else if id == PICKER && report == Report::SelectionChanged {
        CommandAction::Update
    } else if report == Report::Clicked && id == ADD {
        CommandAction::Add
    } else if report == Report::Clicked && id == REMOVE {
        CommandAction::Remove
    } else {
        CommandAction::Ignore
    }
}

/// What the user does with the icon in the tray.
#[derive(Clone, Copy, Debug, PartialEq, Eq, Structural)]
pub enum TrayEvent {
    Select,
    KeySelect,
    LeftUp,
    DoubleClick,
    ContextMenu,
    RightUp,
    Other,
}

/// What is done about it.
#[derive(Clone, Copy, Debug, PartialEq, Eq, Structural)]
pub enum TrayAction {
    Show,
    Menu,
    Ignore,
}

/// What is done about what the user does with the icon in the tray.
pub fn tray_action(event: TrayEvent) -> (res: TrayAction)
    ensures
        res == match event {
            TrayEvent::Select
            | TrayEvent::KeySelect
            | TrayEvent::LeftUp
            | TrayEvent::DoubleClick => TrayAction::Show,
            TrayEvent::ContextMenu | TrayEvent::RightUp => TrayAction::Menu,
            TrayEvent::Other => TrayAction::Ignore,
        },
{
    match event {
        TrayEvent::Select
        | TrayEvent::KeySelect
        | TrayEvent::LeftUp
        | TrayEvent::DoubleClick => TrayAction::Show,
        TrayEvent::ContextMenu | TrayEvent::RightUp => TrayAction::Menu,
        TrayEvent::Other => TrayAction::Ignore,
    }
}

/// What is done where the window is to close.
#[derive(Clone, Copy, Debug, PartialEq, Eq)]
pub enum CloseAction {
    /// It stays; the text says why.
    Stay(&'static str),
    /// It is hidden, and is opened again from the tray.
    Hide,
    /// The program ends.
    Destroy,
}

/// What is done where the window is to close: it stays until work on devices
/// is done, and is hidden where the tray has an icon.
pub fn close_action(busy: bool, in_tray: bool) -> (res: CloseAction)
    ensures
        if busy {
            res matches CloseAction::Stay(text) && text@ == BUSY_ON_CLOSE@
        } else if in_tray {
            res is Hide
        } else {
            res is Destroy
        },
{
    if busy {
        CloseAction::Stay(BUSY_ON_CLOSE)
    } else if in_tray {
        CloseAction::Hide
    } else {
        CloseAction::Destroy
    }
}

/// Whether the list of the trusted devices is read again: each second, unless
/// there is work on devices.
pub fn refresh_due(busy: bool, elapsed_milliseconds: u64) -> (res: bool)
    ensures
        res == (!busy && elapsed_milliseconds >= 1000),
{
    !busy && elapsed_milliseconds >= 1000
}

/// Whether the window draws a control itself: its buttons.
pub fn is_drawn(id: u32) -> (res: bool)
    ensures
        res == (id == ADD || id == REMOVE),
{
    id == ADD as u32 || id == REMOVE as u32
}

/// Which controls can be used.
#[derive(Clone, Copy, Debug, PartialEq, Eq, Structural)]
pub struct Enabled {
    pub add: bool,
    pub picker: bool,
    pub remove: bool,
}

/// Which controls can be used: none while there is work on devices; the list
/// where it holds a device; the button that removes one where one is selected.
pub fn update_controls(busy: bool, devices: usize, selected: Option<usize>) -> (res: Enabled)
    ensures
        res.add == !busy,
        res.picker == (!busy && devices > 0),
        res.remove == (!busy && selected is Some && selected->0 < devices),
{
    Enabled {
        add: !busy,
        picker: !busy && devices > 0,
        remove: !busy && match selected {
            Some(index) => index < devices,
            None => false,
        },
    }
}

// The list of the trusted devices
/// What the window shows of the trusted devices.
#[derive(Debug)]
pub struct Shown {
    /// The rows of the list.
    pub rows: Vec<String>,
    /// The selected row.
    pub selected: usize,
    pub has_trusted: bool,
    pub add: &'static str,
    pub title: &'static str,
    pub lead: &'static str,
    pub remote_kind: &'static str,
    pub summary: String,
}

/// The row of a device.
pub open spec fn row_of(device: Device) -> Seq<char> {
    device.name + " · "@ + name_of_platform(device.platform)
}

/// The rows of the list.
pub open spec fn rows_of(devices: Seq<Device>) -> Seq<Seq<char>> {
    if devices.len() == 0 {
        seq!["暂无可信设备"@]
    } else {
        Seq::new(devices.len(), |i: int| row_of(devices[i]))
    }
}

/// The devices in a few words.
pub open spec fn summary_of(devices: Seq<Device>) -> Seq<char> {
    if devices.len() == 0 {
        "暂无设备"@
    } else if devices.len() == 1 {
        devices[0].name
    } else {
        devices[0].name + " 等 "@ + decimal(devices.len()) + " 台"@
    }
}

/// The device that was selected stays selected; else the first is.
pub open spec fn selected_row(
    previous: Seq<Device>,
    selected: Option<usize>,
    devices: Seq<Device>,
) -> int {
    if selected is Some && selected->0 < previous.len() {
        match first(devices, has_id(previous[selected->0 as int].id)) {
            Some(i) => i,
            None => 0,
        }
    } else {
        0
    }
}

/// Whether the window shows devices as it should.
pub open spec fn shows(
    shown: Shown,
    previous: Seq<Device>,
    selected: Option<usize>,
    devices: Seq<Device>,
) -> bool {
    let some = devices.len() > 0;
    &&& texts(shown.rows@) == rows_of(devices)
    &&& shown.selected == selected_row(previous, selected, devices)
    &&& shown.has_trusted == some
    &&& shown.add@ == (if some {
        "添加另一台设备…"@
    } else {
        "添加设备…"@
    })
    &&& shown.title@ == (if some {
        "已添加可信设备"@
    } else {
        "连接你的设备"@
    })
    &&& shown.lead@ == (if some {
        "剪贴板会在可信设备之间自动同步。"@
    } else {
        "发现同一网络中的 Span，并建立可信连接。"@
    })
    &&& shown.remote_kind@ == (if some {
        "可信设备"@
    } else {
        "等待连接"@
    })
    &&& shown.summary@ == summary_of(devices)
}

fn rows(devices: &[DeviceInfo]) -> (res: Vec<String>)
    ensures
        texts(res@) == rows_of(device_list(devices@)),
{
    let ghost list = device_list(devices@);
    let mut res: Vec<String> = Vec::new();
    if devices.len() == 0 {
        res.push("暂无可信设备".to_owned());
        assert(texts(res@) =~= rows_of(list));
        return res;
    }
    let mut i: usize = 0;
    assert(texts(res@) =~= rows_of(list).take(0));
    while i < devices.len()
        invariant
            i <= devices.len(),
            devices.len() > 0,
            list == device_list(devices@),
            texts(res@) == rows_of(list).take(i as int),
        decreases devices.len() - i,
    {
        assert(list[i as int] == devices@[i as int]@);
        let mut row: String = devices[i].name.clone();
        row.append(" · ");
        row.append(platform_name(devices[i].platform));
        let ghost before = texts(res@);
        res.push(row);
        assert(texts(res@) =~= before.push(row@));
        assert(rows_of(list).take(i + 1) =~= rows_of(list).take(i as int).push(
            rows_of(list)[i as int],
        ));
        i += 1;
    }
    assert(rows_of(list).take(i as int) =~= rows_of(list));
    res
}

fn summary(devices: &[DeviceInfo]) -> (res: String)
    ensures
        res@ == summary_of(device_list(devices@)),
{
    let ghost list = device_list(devices@);
    if devices.len() == 0 {
        return "暂无设备".to_owned();
    }
    assert(list[0] == devices@[0]@);
    let mut res: String = devices[0].name.clone();
    if devices.len() > 1 {
        res.append(" 等 ");
        res.append(decimal_text(devices.len() as u64).as_str());
        res.append(" 台");
    }
    res
}

fn position(devices: &[DeviceInfo], id: &DeviceId) -> (res: usize)
    ensures
        res == match first(device_list(devices@), has_id(id@)) {
            Some(i) => i,
            None => 0,
        },
{
    match crate::registry::find_by_id(devices, id) {
        Some(i) => i,
        None => 0,
    }
}

/// What the window shows, given what it showed: nothing new, where it has
/// shown these devices.
pub fn refresh(
    previous: &[DeviceInfo],
    shown_before: bool,
    selected: Option<usize>,
    devices: &[DeviceInfo],
) -> (res: Option<Shown>)
    ensures
        match res {
            Some(shown) => !(shown_before && device_list(previous@) == device_list(devices@))
                && shows(shown, device_list(previous@), selected, device_list(devices@)),
            None => shown_before && device_list(previous@) == device_list(devices@),
        },
{
    if shown_before && same_devices(previous, devices) {
        return None;
    }
    let ghost before = device_list(previous@);
    let row: usize = match selected {
        Some(index) => if index < previous.len() {
            assert(before[index as int] == previous@[index as int]@);
            position(devices, &previous[index].id)
        } else {
            0
        },
        None => 0,
    };
    let some = devices.len() > 0;
    Some(
        Shown {
            rows: rows(devices),
            selected: row,
            has_trusted: some,
            add: if some {
                "添加另一台设备…"
            } else {
                "添加设备…"
            },
            title: if some {
                "已添加可信设备"
            } else {
                "连接你的设备"
            },
            lead: if some {
                "剪贴板会在可信设备之间自动同步。"
            } else {
                "发现同一网络中的 Span，并建立可信连接。"
            },
            remote_kind: if some {
                "可信设备"
            } else {
                "等待连接"
            },
            summary: summary(devices),
        },
    )
}

// Adding and removing
/// The displayed device that is selected.
pub fn selected_device(devices: &[DeviceInfo], selected: Option<usize>) -> (res: Option<DeviceInfo>)
    ensures
        match res {
            Some(device) => selected is Some && selected->0 < devices@.len() && device@
                == devices@[selected->0 as int]@,
            None => selected is None || selected->0 >= devices@.len(),
        },
{
    match selected {
        Some(index) => if index < devices.len() {
            Some(devices[index].clone())
        } else {
            None
        },
        None => None,
    }
}

/// The devices that can be added: neither trusted nor blocked, and not this
/// device.
pub open spec fn addable(devices: Seq<Device>, local: Seq<char>) -> Seq<Device> {
    devices.filter(
        |device: Device|
            device.trust_state != TrustState::Trusted && device.trust_state != TrustState::Blocked
                && device.id != local,
    )
}

/// The devices that can be added.
pub fn addable_devices(devices: &[DeviceInfo], local: &DeviceId) -> (res: Vec<DeviceInfo>)
    ensures
        device_list(res@) == addable(device_list(devices@), local@),
{
    let ghost all = device_list(devices@);
    let ghost pick = |device: Device|
        device.trust_state != TrustState::Trusted && device.trust_state != TrustState::Blocked
            && device.id != local@;
    let mut res: Vec<DeviceInfo> = Vec::new();
    let mut i: usize = 0;
    assert(device_list(res@) =~= all.take(0).filter(pick)) by {
        reveal(Seq::filter);
    }
    while i < devices.len()
        invariant
            i <= devices.len(),
            all == device_list(devices@),
            pick == (|device: Device|
                device.trust_state != TrustState::Trusted && device.trust_state
                    != TrustState::Blocked && device.id != local@),
            device_list(res@) == all.take(i as int).filter(pick),
        decreases devices.len() - i,
    {
        let ghost before = device_list(res@);
        assert(all.take(i + 1).drop_last() =~= all.take(i as int));
        reveal(Seq::filter);
        let device = &devices[i];
        assert(all[i as int] == device@);
        if device.trust_state != TrustState::Trusted && device.trust_state != TrustState::Blocked
            && !device.id.same(local) {
            let copy = device.clone();
            res.push(copy);
            assert(device_list(res@) =~= before.push(all[i as int]));
        }
        i += 1;
    }
    assert(all.take(i as int) =~= all);
    res
}

/// The question whether a device is to be removed.
pub fn remove_question(name: &str) -> (res: String)
    ensures
        res@ == "移除设备“"@ + name@
            + "”？\r\n\r\n移除后将停止与此设备同步剪贴板。再次同步需要重新添加并信任。"@,
{
    let mut res: String = "移除设备“".to_owned();
    res.append(name);
    res.append("”？\r\n\r\n移除后将停止与此设备同步剪贴板。再次同步需要重新添加并信任。");
    res
}

/// The question whether a device is to be added.
pub fn add_question(device: &DeviceInfo) -> (res: String)
    ensures
        res@ == "添加设备“"@ + device@.name + "”（"@ + name_of_platform(device@.platform)
            + "）？\r\n\r\n设备标识："@ + device@.id
            + "\r\n\r\n仅信任你认识的设备。信任后将开启剪贴板同步。"@,
{
    let mut res: String = "添加设备“".to_owned();
    res.append(device.name.as_str());
    res.append("”（");
    res.append(platform_name(device.platform));
    res.append("）？\r\n\r\n设备标识：");
    res.append(device.id.as_str());
    res.append("\r\n\r\n仅信任你认识的设备。信任后将开启剪贴板同步。");
    res
}

/// The question whether a device that announced itself is to be trusted.
pub fn pairing_question(name: &str, platform: &str) -> (res: String)
    ensures
        res@ == name@ + "（"@ + platform@
            + "）请求连接 Span。\r\n\r\n是否信任此设备并开启剪贴板同步？"@,
{
    let mut res: String = name.to_owned();
    res.append("（");
    res.append(platform);
    res.append("）请求连接 Span。\r\n\r\n是否信任此设备并开启剪贴板同步？");
    res
}

/// What is said once such a device is trusted.
pub fn paired_text(name: &str) -> (res: String)
    ensures
        res@ == "已信任 "@ + name@ + "，剪贴板同步已开启。"@,
{
    let mut res: String = "已信任 ".to_owned();
    res.append(name);
    res.append("，剪贴板同步已开启。");
    res
}

/// The device that the user is asked about.
pub fn prompted_device(id: &str) -> (res: Result<DeviceId, Error>)
    ensures
        match res {
            Ok(device) => id@.len() > 0 && device@ == id@,
            Err(error) => id@.len() == 0 && error.is(ErrorKind::InvalidInput, "invalid device id"),
        },
{
    match DeviceId::new(id) {
        Some(device) => Ok(device),
        None => Err(Error::new(ErrorKind::InvalidInput, "invalid device id")),
    }
}

/// What is said once a device is removed.
pub fn removed_text(name: &str) -> (res: String)
    ensures
        res@ == "已移除 "@ + name@ + "。"@,
{
    let mut res: String = "已移除 ".to_owned();
    res.append(name);
    res.append("。");
    res
}

/// What is said once that many devices are added.
pub fn added_text(count: usize) -> (res: String)
    ensures
        res@ == "已添加 "@ + decimal(count as nat) + " 台可信设备。"@,
{
    let mut res: String = "已添加 ".to_owned();
    res.append(decimal_text(count as u64).as_str());
    res.append(" 台可信设备。");
    res
}

/// What is said while devices are being discovered.
pub const DISCOVERING: &'static str = "正在发现同一网络中的设备…";

/// What is said where no device was found that can be added.
pub const NONE_DISCOVERED: &'static str =
    "没有发现新设备。请确认另一台设备已打开 Span，且位于同一网络。";

/// What is said while devices are being added.
pub const ADDING: &'static str = "正在添加可信设备…";

/// What is said where the user accepted no device.
pub const ADDING_CANCELLED: &'static str = "已取消添加，未共享剪贴板内容。";

/// What is said while a device is being removed.
pub const REMOVING: &'static str = "正在移除设备…";

/// What is said where the user did not confirm the removal.
pub const REMOVING_CANCELLED: &'static str = "已取消移除。";

/// What follows the answers of the user, one for each device that can be added.
#[derive(Debug)]
pub enum AddStep {
    /// Nothing; the text says why.
    Stop(&'static str),
    /// These devices are trusted.
    Trust(Vec<DeviceId>),
}

/// The identifiers of the devices to which the user said yes.
pub open spec fn accepted(devices: Seq<Device>, answers: Seq<bool>) -> Seq<Seq<char>>
    decreases devices.len(),
{
    if devices.len() == 0 {
        Seq::empty()
    } else {
        let before = accepted(devices.drop_last(), answers);
        if answers[devices.len() - 1] {
            before.push(devices.last().id)
        } else {
            before
        }
    }
}

/// The views of a list of identifiers.
pub open spec fn id_list(ids: Seq<DeviceId>) -> Seq<Seq<char>> {
    Seq::new(ids.len(), |i: int| ids[i]@)
}

/// What follows the answers of the user. Without a device to add nothing is
/// asked; without a yes nothing is shared.
pub fn after_answers(devices: &[DeviceInfo], answers: &[bool]) -> (res: AddStep)
    requires
        answers@.len() == devices@.len(),
    ensures
        ({
            let ids = accepted(device_list(devices@), answers@);
            if devices@.len() == 0 {
                res matches AddStep::Stop(text) && text@ == NONE_DISCOVERED@
            } else if ids.len() == 0 {
                res matches AddStep::Stop(text) && text@ == ADDING_CANCELLED@
            } else {
                res matches AddStep::Trust(trusted) && id_list(trusted@) == ids
            }
        }),
{
    if devices.len() == 0 {
        return AddStep::Stop(NONE_DISCOVERED);
    }
    let ghost list = device_list(devices@);
    let mut ids: Vec<DeviceId> = Vec::new();
    let mut i: usize = 0;
    assert(id_list(ids@) =~= accepted(list.take(0), answers@));
    while i < devices.len()
        invariant
            i <= devices.len(),
            answers@.len() == devices@.len(),
            list == device_list(devices@),
            id_list(ids@) == accepted(list.take(i as int), answers@),
        decreases devices.len() - i,
    {
        assert(list[i as int] == devices@[i as int]@);
        assert(list.take(i + 1).drop_last() =~= list.take(i as int));
        if answers[i] {
            let ghost before = id_list(ids@);
            let id = devices[i].id.clone();
            ids.push(id);
            assert(id_list(ids@) =~= before.push(id@));
        }
        i += 1;
    }
    assert(list.take(i as int) =~= list);
    assert(id_list(ids@).len() == ids@.len());
    if ids.len() == 0 {
        AddStep::Stop(ADDING_CANCELLED)
    } else {
        AddStep::Trust(ids)
    }
}

/// A session after the user trusted these devices, one after the other.
pub open spec fn trusted_all(session: Session, ids: Seq<Seq<char>>) -> Session
    decreases ids.len(),
{
    if ids.len() == 0 {
        session
    } else {
        let before = trusted_all(session, ids.drop_last());
        after(before, trusting(devices_in(before.contents), ids.last()))
    }
}

/// The user trusts these devices. Returns what has to be written to the file,
/// if anything.
pub fn trust_all(contents: &str, ids: &[DeviceId]) -> (res: Option<String>)
    ensures
        crate::device::optional_text(res) == to_write(
            trusted_all(opened(contents@), id_list(ids@)),
        ),
{
    let ghost list = id_list(ids@);
    let ghost start = opened(contents@);
    let (mut store, rewrite) = TrustStore::load(contents);
    let mut saved = false;
    let mut current: String = match rewrite {
        Some(text) => {
            saved = true;
            text
        },
        None => contents.to_owned(),
    };
    let mut i: usize = 0;
    assert(trusted_all(start, list.take(0)) == start);
    while i < ids.len()
        invariant
            i <= ids@.len(),
            list == id_list(ids@),
            store@ == trusted_all(start, list.take(i as int)).devices,
            current@ == trusted_all(start, list.take(i as int)).contents,
            saved == trusted_all(start, list.take(i as int)).saved,
        decreases ids@.len() - i,
    {
        assert(list.take(i + 1).drop_last() =~= list.take(i as int));
        assert(list.take(i + 1).last() == ids@[i as int]@);
        let commit = store.trust_existing(current.as_str(), &ids[i]);
        match commit.contents {
            Some(text) => {
                current = text;
                saved = true;
            },
            None => {},
        }
        i += 1;
    }
    assert(list.take(i as int) =~= list);
    if saved {
        Some(current)
    } else {
        None
    }
}

/// What is said once work on devices has ended.
#[derive(Debug)]
pub struct WorkEnd {
    pub status: String,
    /// What the user is alerted to, if anything.
    pub alert: Option<String>,
    /// What is said in place of the status once the user has seen the alert, if
    /// anything.
    pub last_status: Option<String>,
}

/// What is said once work on devices has ended: its outcome, or why it failed,
/// which the user is alerted to; and after that, where the list could not be
/// read again, that.
pub fn work_end(
    done: Result<&str, &str>,
    refresh_error: Option<&str>,
) -> (res: WorkEnd)
    ensures
        ({
            let outcome = match done {
                Ok(text) => text@,
                Err(error) => "操作失败："@ + error@,
            };
            &&& res.status@ == outcome
            &&& match refresh_error {
                Some(error) => res.last_status matches Some(text) && text@
                    == "刷新设备列表失败："@ + error@,
                None => res.last_status is None,
            }
            &&& match done {
                Ok(_) => res.alert is None,
                Err(_) => res.alert matches Some(text) && text@ == outcome,
            }
        }),
{
    let mut alert: Option<String> = None;
    let status: String = match done {
        Ok(text) => text.to_owned(),
        Err(error) => {
            let mut text: String = "操作失败：".to_owned();
            text.append(error);
            alert = Some(text.clone());
            text
        },
    };
    let last_status: Option<String> = match refresh_error {
        Some(error) => {
            let mut text: String = "刷新设备列表失败：".to_owned();
            text.append(error);
            Some(text)
        },
        None => None,
    };
    WorkEnd { status, alert, last_status }
}

/// What work says that ended without a result.
pub const WORK_LOST: &'static str = "后台操作意外结束，请重试。";

// Opening the window
/// Whether the window starts hidden.
pub fn starts_hidden(arguments: &[String]) -> (res: bool)
    ensures
        res == exists|i: int|
            0 <= i < arguments@.len() && (#[trigger] arguments@[i])@ == "--hidden"@,
{
    let mut i: usize = 0;
    while i < arguments.len()
        invariant
            i <= arguments@.len(),
            forall|k: int| 0 <= k < i ==> (#[trigger] arguments@[k])@ != "--hidden"@,
        decreases arguments@.len() - i,
    {
        if same(arguments[i].as_str(), "--hidden") {
            return true;
        }
        i += 1;
    }
    false
}

/// What is said when the window opens and something did not start.
#[derive(Debug)]
pub struct Startup {
    pub status: Option<&'static str>,
    /// What the user is alerted to about the background process.
    pub daemon_alert: Option<String>,
    /// What the user is alerted to about starting with the system.
    pub autostart_alert: Option<String>,
}

/// What the window says where the background process did not start.
pub const DAEMON_FAILED: &'static str = "后台同步启动失败，请重新打开 Span 重试。";

/// What is said when the window opens: a hidden window alerts to nothing.
pub fn startup(
    daemon_error: Option<&str>,
    autostart_error: Option<&str>,
    hidden: bool,
) -> (res: Startup)
    ensures
        match daemon_error {
            Some(error) => {
                &&& res.status matches Some(text) && text@ == DAEMON_FAILED@
                &&& if hidden {
                    res.daemon_alert is None
                } else {
                    res.daemon_alert matches Some(text) && text@
                        == "后台同步启动失败，当前无法保证剪贴板同步。\r\n\r\n"@ + error@
                        + "\r\n\r\n请重新打开 Span 重试。"@
                }
            },
            None => res.status is None && res.daemon_alert is None,
        },
        match autostart_error {
            Some(error) => if hidden {
                res.autostart_alert is None
            } else {
                res.autostart_alert matches Some(text) && text@
                    == "未能设置开机自启，仍可使用此窗口。\r\n\r\n"@ + error@
            },
            None => res.autostart_alert is None,
        },
{
    let mut status: Option<&'static str> = None;
    let mut daemon_alert: Option<String> = None;
    let mut autostart_alert: Option<String> = None;
    if let Some(error) = daemon_error {
        status = Some(DAEMON_FAILED);
        if !hidden {
            let mut text: String =
                "后台同步启动失败，当前无法保证剪贴板同步。\r\n\r\n".to_owned();
            text.append(error);
            text.append("\r\n\r\n请重新打开 Span 重试。");
            daemon_alert = Some(text);
        }
    }
    if let Some(error) = autostart_error {
        if !hidden {
            let mut text: String = "未能设置开机自启，仍可使用此窗口。\r\n\r\n".to_owned();
            text.append(error);
            autostart_alert = Some(text);
        }
    }
    Startup { status, daemon_alert, autostart_alert }
}

} // verus!

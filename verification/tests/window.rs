use span::device::{DeviceId, DeviceInfo, LocalDevice, Platform, TrustState};
use span::error::ErrorKind;
use span::window::{
    add_question, addable_devices, added_text, after_answers, close_action, command_action,
    create_controls, font_index, fonts, is_drawn, paint_button, paint_static, paint_window,
    paired_text, pairing_question, prompted_device, refresh, refresh_due, remove_question,
    removed_text, rgb, scale, scaled_area, selected_device, starts_hidden, startup, tray_action,
    trust_all, update_controls, work_end, AddStep, Area, CloseAction, CommandAction, Drawing,
    Enabled, Report, Role, TextStyle, TrayAction, TrayEvent, ADD, HEIGHT, PICKER, REMOVE,
    TRAY_EXIT, TRAY_OPEN, WIDTH,
};

fn device(id: &str, name: &str, state: TrustState) -> DeviceInfo {
    DeviceInfo {
        id: DeviceId::new(id).unwrap(),
        name: name.to_string(),
        platform: Platform::Android,
        trust_state: state,
        endpoint: None,
        public_key: None,
    }
}

#[test]
fn dpi_scaling_preserves_logical_layout() {
    assert_eq!(scale(WIDTH, 96), WIDTH);
    assert_eq!(scale(WIDTH, 144), 810);
    assert_eq!(scale(HEIGHT, 192), 880);
}

#[test]
fn scaling_rounds() {
    assert_eq!(scale(1, 48), 1);
    assert_eq!(scale(1, 47), 0);
    assert_eq!(scale(13, 120), 16);
    assert_eq!(scale(-100, 96), -99);
    assert_eq!(scale(i32::MAX, 192), -2);
    assert_eq!(scale(0, u32::MAX), 0);
    let area = Area { x: 10, y: 20, width: 30, height: 40 };
    assert_eq!(
        scaled_area(area, 192),
        Area { x: 20, y: 40, width: 60, height: 80 }
    );
}

#[test]
fn controls_are_laid_out() {
    let local = LocalDevice {
        id: DeviceId::new("me").unwrap(),
        name: "My PC".to_string(),
        platform: Platform::Windows,
        private_key: [0; 32],
        public_key: [0; 32],
    };
    let controls = create_controls(&local);
    assert_eq!(controls.len(), 14);
    assert_eq!(controls[0].text, "Span");
    assert_eq!(controls[5].text, "My PC");
    assert_eq!(controls[5].area, Area { x: 72, y: 190, width: 136, height: 42 });
    let add = controls.iter().find(|control| control.role == Role::Add).unwrap();
    assert_eq!((add.id, add.text.as_str()), (ADD, "添加设备…"));
    assert_eq!(controls.iter().filter(|control| control.id != 0).count(), 3);
    assert_eq!(fonts()[font_index(TextStyle::Hero)], (23, 600));
    assert_eq!(fonts()[font_index(TextStyle::Status)], (13, 400));
    assert_eq!(fonts()[font_index(TextStyle::Footer)], (11, 400));
    assert_eq!(fonts()[font_index(TextStyle::Connection)], (24, 400));
}

#[test]
fn colours_follow_style_and_state() {
    assert_eq!(rgb(1, 2, 3), 0x030201);
    assert_eq!(
        paint_static(Some(TextStyle::Running), false),
        (rgb(36, 163, 76), rgb(249, 250, 252))
    );
    assert_eq!(paint_static(Some(TextStyle::Connection), true).0, rgb(10, 132, 255));
    assert_eq!(paint_static(Some(TextStyle::Connection), false).0, rgb(160, 166, 176));
    assert_eq!(paint_static(Some(TextStyle::CardValue), false).1, rgb(244, 246, 249));
    assert_eq!(paint_static(None, true), (rgb(28, 31, 36), rgb(249, 250, 252)));
    let plain = paint_button(ADD, false, false, false);
    assert_eq!((plain.fill, plain.border), (rgb(10, 132, 255), rgb(10, 132, 255)));
    assert_eq!(plain.text, rgb(255, 255, 255));
    assert_eq!(paint_button(ADD, true, true, false).fill, rgb(165, 202, 238));
    assert_eq!(paint_button(ADD, false, true, true).border, rgb(0, 92, 190));
    assert_eq!(paint_button(REMOVE, true, false, false).text, rgb(156, 162, 172));
    assert_eq!(paint_button(REMOVE, false, true, false).fill, rgb(220, 224, 230));
}

#[test]
fn badge_shows_whether_a_device_is_trusted() {
    let drawn = paint_window(96, Some(true));
    assert_eq!(drawn.len(), 10);
    let text = |drawings: &[Drawing]| -> Vec<&'static str> {
        drawings
            .iter()
            .filter_map(|drawing| match drawing {
                Drawing::Text { text, .. } => Some(*text),
                _ => None,
            })
            .collect()
    };
    assert_eq!(text(&drawn), vec!["W", "✓", "N"]);
    assert_eq!(text(&paint_window(96, Some(false))), vec!["W", "+", "N"]);
    let frame = paint_window(96, None);
    assert_eq!(frame.len(), 3);
    assert!(text(&frame).is_empty());
    assert!(matches!(
        drawn[1],
        Drawing::Panel { bounds, corner: 16, .. } if bounds.right == 228 && bounds.bottom == 252
    ));
}

#[test]
fn reports_lead_to_actions() {
    assert_eq!(command_action(TRAY_OPEN, Report::Other, true), CommandAction::Show);
    assert_eq!(command_action(TRAY_EXIT, Report::Other, false), CommandAction::Destroy);
    assert_eq!(
        command_action(TRAY_EXIT, Report::Other, true),
        CommandAction::ShowBusy("正在处理设备操作，请稍候再退出 Span。")
    );
    assert_eq!(
        command_action(PICKER, Report::SelectionChanged, false),
        CommandAction::Update
    );
    assert_eq!(command_action(PICKER, Report::Clicked, false), CommandAction::Ignore);
    assert_eq!(command_action(ADD, Report::Clicked, false), CommandAction::Add);
    assert_eq!(command_action(REMOVE, Report::Clicked, false), CommandAction::Remove);
    assert_eq!(command_action(ADD, Report::Other, false), CommandAction::Ignore);
    assert_eq!(tray_action(TrayEvent::DoubleClick), TrayAction::Show);
    assert_eq!(tray_action(TrayEvent::RightUp), TrayAction::Menu);
    assert_eq!(tray_action(TrayEvent::Other), TrayAction::Ignore);
    assert_eq!(
        close_action(true, true),
        CloseAction::Stay("正在处理设备操作，请稍候再关闭窗口。")
    );
    assert_eq!(close_action(false, true), CloseAction::Hide);
    assert_eq!(close_action(false, false), CloseAction::Destroy);
    assert!(refresh_due(false, 1000));
    assert!(!refresh_due(false, 999));
    assert!(!refresh_due(true, 5000));
    assert!(is_drawn(1002));
    assert!(!is_drawn(1003));
}

#[test]
fn controls_can_be_used_when_there_is_something_to_do() {
    assert_eq!(
        update_controls(false, 2, Some(1)),
        Enabled { add: true, picker: true, remove: true }
    );
    assert_eq!(
        update_controls(false, 0, Some(0)),
        Enabled { add: true, picker: false, remove: false }
    );
    assert_eq!(
        update_controls(true, 2, Some(1)),
        Enabled { add: false, picker: false, remove: false }
    );
    assert!(!update_controls(false, 2, None).remove);
}

#[test]
fn list_follows_the_trusted_devices() {
    let one = [device("a", "Phone", TrustState::Trusted)];
    let two = [
        device("b", "Tablet", TrustState::Trusted),
        device("a", "Phone", TrustState::Trusted),
    ];
    let empty = refresh(&[], false, None, &[]).unwrap();
    assert_eq!(empty.rows, vec!["暂无可信设备"]);
    assert_eq!((empty.summary.as_str(), empty.title), ("暂无设备", "连接你的设备"));
    assert!(!empty.has_trusted);
    assert!(refresh(&[], true, None, &[]).is_none());
    let first = refresh(&[], true, None, &one).unwrap();
    assert_eq!(first.rows, vec!["Phone · android"]);
    assert_eq!((first.summary.as_str(), first.add), ("Phone", "添加另一台设备…"));
    assert_eq!(first.remote_kind, "可信设备");
    let second = refresh(&one, true, Some(0), &two).unwrap();
    assert_eq!(second.selected, 1);
    assert_eq!(second.summary, "Tablet 等 2 台");
    assert_eq!(second.lead, "剪贴板会在可信设备之间自动同步。");
    assert_eq!(refresh(&two, true, Some(7), &one).unwrap().selected, 0);
    assert!(refresh(&two, true, Some(1), &two).is_none());
    assert_eq!(selected_device(&two, Some(1)).unwrap().id.as_str(), "a");
    assert!(selected_device(&two, Some(2)).is_none());
    assert!(selected_device(&two, None).is_none());
}

#[test]
fn devices_are_added_on_a_yes_only() {
    let me = DeviceId::new("me").unwrap();
    let all = [
        device("a", "A", TrustState::Discovered),
        device("b", "B", TrustState::Blocked),
        device("c", "C", TrustState::Trusted),
        device("me", "Me", TrustState::Discovered),
        device("d", "D", TrustState::Revoked),
    ];
    let addable = addable_devices(&all, &me);
    assert_eq!(addable.len(), 2);
    assert_eq!(addable[1].id.as_str(), "d");
    let AddStep::Trust(ids) = after_answers(&addable, &[false, true]) else {
        panic!("nothing to trust");
    };
    assert_eq!(ids, vec![DeviceId::new("d").unwrap()]);
    assert!(matches!(
        after_answers(&addable, &[false, false]),
        AddStep::Stop("已取消添加，未共享剪贴板内容。")
    ));
    assert!(matches!(
        after_answers(&[], &[]),
        AddStep::Stop("没有发现新设备。请确认另一台设备已打开 Span，且位于同一网络。")
    ));
    let contents = "a\tA\tandroid\tdiscovered\t\t\nd\tD\tandroid\trevoked\t\t\n";
    assert_eq!(
        trust_all(contents, &ids).unwrap(),
        "a\tA\tandroid\tdiscovered\t\t\nd\tD\tandroid\ttrusted\t\t\n"
    );
    assert_eq!(trust_all(contents, &[me]), None);
}

#[test]
fn questions_name_the_device() {
    assert_eq!(
        remove_question("Phone"),
        "移除设备“Phone”？\r\n\r\n移除后将停止与此设备同步剪贴板。再次同步需要重新添加并信任。"
    );
    assert_eq!(
        add_question(&device("a", "Phone", TrustState::Discovered)),
        "添加设备“Phone”（android）？\r\n\r\n设备标识：a\r\n\r\n仅信任你认识的设备。信任后将开启剪贴板同步。"
    );
    assert_eq!(
        pairing_question("Phone", "android"),
        "Phone（android）请求连接 Span。\r\n\r\n是否信任此设备并开启剪贴板同步？"
    );
    assert_eq!(paired_text("Phone"), "已信任 Phone，剪贴板同步已开启。");
    assert_eq!(removed_text("Phone"), "已移除 Phone。");
    assert_eq!(added_text(3), "已添加 3 台可信设备。");
    assert_eq!(prompted_device("a").unwrap().as_str(), "a");
    let error = prompted_device("").unwrap_err();
    assert_eq!((error.kind, error.message), (ErrorKind::InvalidInput, "invalid device id"));
}

#[test]
fn outcome_of_work_is_shown() {
    let done = work_end(Ok("已移除 Phone。"), None);
    assert_eq!(done.status, "已移除 Phone。");
    assert!(done.alert.is_none());
    let failed = work_end(Err("disk full"), None);
    assert_eq!(failed.status, "操作失败：disk full");
    assert_eq!(failed.alert.as_deref(), Some("操作失败：disk full"));
    let unread = work_end(Ok("x"), Some("gone"));
    assert_eq!(unread.status, "x");
    assert_eq!(unread.last_status.as_deref(), Some("刷新设备列表失败：gone"));
    assert!(failed.last_status.is_none());
}

#[test]
fn hidden_window_alerts_to_nothing() {
    assert!(starts_hidden(&["x".to_string(), "--hidden".to_string()]));
    assert!(!starts_hidden(&["hidden".to_string()]));
    let shown = startup(Some("no port"), Some("no task"), false);
    assert_eq!(shown.status, Some("后台同步启动失败，请重新打开 Span 重试。"));
    assert_eq!(
        shown.daemon_alert.as_deref(),
        Some("后台同步启动失败，当前无法保证剪贴板同步。\r\n\r\nno port\r\n\r\n请重新打开 Span 重试。")
    );
    assert_eq!(
        shown.autostart_alert.as_deref(),
        Some("未能设置开机自启，仍可使用此窗口。\r\n\r\nno task")
    );
    let hidden = startup(Some("no port"), Some("no task"), true);
    assert!(hidden.status.is_some());
    assert!(hidden.daemon_alert.is_none() && hidden.autostart_alert.is_none());
    let fine = startup(None, None, false);
    assert!(fine.status.is_none() && fine.daemon_alert.is_none());
}

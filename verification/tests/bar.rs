use stele_undead::bar::{
    clock_modules, config, corner_module, next_minute_delay, workspace_modules, Alignment, Content,
    SvgAsset,
};
use stele_undead::clock::{update_module, ClockTime};
use stele_undead::tree::{Icon, Workspace};

#[test]
fn corner_module_layer() {
    let m = corner_module("x", Alignment::End, true);
    assert_eq!(m.id, "x");
    assert_eq!(m.alignment, Alignment::End);
    assert_eq!(m.index, None);
    assert_eq!(m.layers.len(), 1);
    assert_eq!(m.layers[0].content, Content::Svg(SvgAsset::BgCornerLeft));
    assert_eq!((m.layers[0].width, m.layers[0].height), (Some(35), Some(35)));
    let m = corner_module("y", Alignment::Start, false);
    assert_eq!(m.layers[0].content, Content::Svg(SvgAsset::BgCornerRight));
}

#[test]
fn config_with_empty_workspace() {
    let c = config("eDP-1".to_string(), true);
    assert_eq!(c.output, "eDP-1");
    assert_eq!(c.size, 35);
    assert_eq!(c.backgrounds, None);
    let ids: Vec<(&str, Option<u8>, usize)> =
        c.modules.iter().map(|m| (m.id.as_str(), m.index, m.layers.len())).collect();
    assert_eq!(ids, vec![
        ("start_corner", Some(255), 1),
        ("center_corner_left", Some(0), 1),
        ("center_corner_right", Some(255), 1),
        ("end_corner", Some(0), 1),
        ("bg", None, 0),
    ]);
}

#[test]
fn config_with_full_workspace() {
    let c = config("eDP-1".to_string(), false);
    assert_eq!(c.backgrounds, Some(vec![SvgAsset::Bg]));
    let ids: Vec<(&str, usize)> = c.modules.iter().map(|m| (m.id.as_str(), m.layers.len())).collect();
    assert_eq!(ids, vec![("start_corner", 0), ("center_corner_left", 0), ("center_corner_right", 0), ("end_corner", 0)]);
    assert_eq!(c.modules[3].alignment, Alignment::End);
}

#[test]
fn svg_ids_count_down() {
    assert_eq!(SvgAsset::Bg.id(), u32::MAX);
    assert_eq!(SvgAsset::WsFull.id(), u32::MAX - 4);
    assert_eq!(SvgAsset::BgCornerRight.id(), u32::MAX - 6);
}

#[test]
fn workspace_module_list() {
    let workspaces = vec![
        Workspace { icon: Icon::Empty, focused: false },
        Workspace { icon: Icon::Full, focused: true },
        Workspace { icon: Icon::Path(b"/i.png".to_vec()), focused: false },
    ];
    let modules = workspace_modules(&workspaces);
    let ids: Vec<(&str, Option<u8>)> = modules.iter().map(|m| (m.id.as_str(), m.index)).collect();
    assert_eq!(ids, vec![
        ("ws_corner_left", Some(0)),
        ("ws_0", Some(1)),
        ("ws_1", Some(2)),
        ("ws_2", Some(3)),
        ("ws_corner_right", Some(255)),
    ]);
    assert_eq!(modules[1].layers[0].content, Content::Svg(SvgAsset::Bg));
    assert_eq!(modules[1].layers[0].width, Some(35));
    assert_eq!(modules[1].layers[1].content, Content::Svg(SvgAsset::WsEmpty));
    assert_eq!(modules[2].layers[0].content, Content::Svg(SvgAsset::BgAlt));
    assert_eq!(modules[2].layers[1].content, Content::Svg(SvgAsset::WsFull));
    assert_eq!(modules[3].layers[1].content, Content::Image(b"/i.png".to_vec()));
    assert_eq!((modules[3].layers[1].width, modules[3].layers[1].height), (Some(24), Some(24)));
    assert_eq!(modules[3].layers[1].margin_bottom, Some(3));
}

#[test]
fn clock_module_list() {
    let modules = clock_modules("Mon. 1".to_string(), "12:34".to_string());
    let ids: Vec<(&str, Option<u8>)> = modules.iter().map(|m| (m.id.as_str(), m.index)).collect();
    assert_eq!(ids, vec![
        ("date_module", Some(0)),
        ("date_corner", Some(1)),
        ("time_corner", Some(0)),
        ("time_module", Some(1)),
    ]);
    assert_eq!(modules[0].layers[0].content, Content::Color(24, 24, 24));
    assert_eq!(modules[0].layers[1].content, Content::Svg(SvgAsset::Bg));
    assert_eq!(modules[0].layers[2].content, Content::Text("Mon. 1".to_string()));
    assert_eq!(modules[0].layers[2].margin, Some((0, 25, 0, 25)));
    assert_eq!(modules[3].layers[2].content, Content::Text("12:34".to_string()));
    assert_eq!(modules[3].alignment, Alignment::End);
}

#[test]
fn minute_delay() {
    assert_eq!(next_minute_delay(0), 61);
    assert_eq!(next_minute_delay(59), 2);
    assert_eq!(next_minute_delay(30), 31);
}

#[test]
fn clock_update_from_time() {
    let now = ClockTime { year: 2024, month: 1, day: 1, hour: 9, minute: 5, second: 56 };
    let update = update_module(&now);
    assert_eq!(update.delay_secs, 5);
    assert_eq!(update.modules[0].layers[2].content, Content::Text("Mon. 1".to_string()));
    assert_eq!(update.modules[3].layers[2].content, Content::Text("09:05".to_string()));
}

#[test]
fn clock_update_two_digit_fields() {
    let now = ClockTime { year: 2023, month: 12, day: 31, hour: 23, minute: 59, second: 0 };
    let update = update_module(&now);
    assert_eq!(update.delay_secs, 61);
    assert_eq!(update.modules[0].layers[2].content, Content::Text("Sun. 31".to_string()));
    assert_eq!(update.modules[3].layers[2].content, Content::Text("23:59".to_string()));
    let leap = ClockTime { year: 2024, month: 2, day: 29, hour: 0, minute: 0, second: 59 };
    let update = update_module(&leap);
    assert_eq!(update.delay_secs, 2);
    assert_eq!(update.modules[0].layers[2].content, Content::Text("Thu. 29".to_string()));
    assert_eq!(update.modules[3].layers[2].content, Content::Text("00:00".to_string()));
}

#[test]
fn clock_time_validity() {
    assert!(ClockTime { year: 2024, month: 2, day: 29, hour: 0, minute: 0, second: 0 }.is_valid());
    assert!(!ClockTime { year: 2023, month: 2, day: 29, hour: 0, minute: 0, second: 0 }.is_valid());
    assert!(ClockTime { year: 2000, month: 2, day: 29, hour: 0, minute: 0, second: 0 }.is_valid());
    assert!(!ClockTime { year: 1900, month: 2, day: 29, hour: 0, minute: 0, second: 0 }.is_valid());
    assert!(!ClockTime { year: 2024, month: 4, day: 31, hour: 0, minute: 0, second: 0 }.is_valid());
    assert!(!ClockTime { year: 2024, month: 13, day: 1, hour: 0, minute: 0, second: 0 }.is_valid());
    assert!(!ClockTime { year: 2024, month: 1, day: 0, hour: 0, minute: 0, second: 0 }.is_valid());
    assert!(!ClockTime { year: 2024, month: 1, day: 1, hour: 24, minute: 0, second: 0 }.is_valid());
    assert!(!ClockTime { year: 2024, month: 1, day: 1, hour: 0, minute: 60, second: 0 }.is_valid());
    assert!(!ClockTime { year: 2024, month: 1, day: 1, hour: 0, minute: 0, second: 60 }.is_valid());
    assert!(!ClockTime { year: 262143, month: 1, day: 1, hour: 0, minute: 0, second: 0 }.is_valid());
    assert!(ClockTime { year: -4, month: 2, day: 29, hour: 0, minute: 0, second: 0 }.is_valid());
}

#[test]
fn clock_weekday_names() {
    let names = ["Mon", "Tue", "Wed", "Thu", "Fri", "Sat", "Sun"];
    for (i, name) in names.iter().enumerate() {
        let day = 8 + i as u32;
        let now = ClockTime { year: 2024, month: 1, day, hour: 12, minute: 0, second: 0 };
        let update = update_module(&now);
        assert_eq!(update.modules[0].layers[2].content, Content::Text(format!("{name}. {day}")));
    }
    let y2k = ClockTime { year: 2000, month: 1, day: 1, hour: 0, minute: 0, second: 0 };
    assert_eq!(update_module(&y2k).modules[0].layers[2].content, Content::Text("Sat. 1".into()));
}

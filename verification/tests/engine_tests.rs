use wallpaper_engine::engine::{
    get_output_name, get_output_pos, get_output_proper_name, get_output_size,
    pool_size, DrawContent, EngineAction, SimpleLayer, GridLine, LayerData, OutputInfo,
};
use wallpaper_engine::ipc::{change_wallpaper_request, option_request, parse_legacy_request, parse_request};

fn info(name: &str, model: &str, pos: (i32, i32), size: (i32, i32)) -> OutputInfo {
    OutputInfo {
        name: Some(name.to_string()),
        model: model.to_string(),
        logical_position: Some(pos),
        logical_size: Some(size),
    }
}

fn two_outputs() -> SimpleLayer {
    let mut e = SimpleLayer::new(true);
    assert_eq!(e.new_output(info("DP-1", "Dell U2720Q", (0, 0), (1920, 1080))), 1920 * 1080 * 4);
    assert_eq!(e.new_output(info("HDMI-A-1", "LG", (-1280, 0), (1280, 1024))), 1280 * 1024 * 4);
    e
}

#[test]
fn output_accessors() {
    let i = info("DP-1", "Dell", (10, -20), (-1, 30));
    assert_eq!(get_output_size(&i), (u32::MAX, 30));
    assert_eq!(get_output_pos(&i), (10, -20));
    assert_eq!(get_output_name(&i), "DP-1");
    assert_eq!(get_output_proper_name(&i), "Dell");
}

#[test]
fn pool_size_is_four_bytes_a_pixel() {
    assert_eq!(pool_size(100, 50), 20000);
    assert_eq!(pool_size(0, 50), 0);
}

#[test]
fn debug_grid_lines() {
    let lines = LayerData::debug_background(250, 120);
    assert_eq!(
        lines,
        vec![
            GridLine { x0: 0, y0: 0, x1: 0, y1: 120 },
            GridLine { x0: 100, y0: 0, x1: 100, y1: 120 },
            GridLine { x0: 200, y0: 0, x1: 200, y1: 120 },
            GridLine { x0: 0, y0: 0, x1: 250, y1: 0 },
            GridLine { x0: 0, y0: 100, x1: 250, y1: 100 },
        ]
    );
}

#[test]
fn new_outputs_are_listed_in_order() {
    let e = two_outputs();
    assert_eq!(e.len(), 2);
    assert_eq!(e.name_at(0), "DP-1");
    assert_eq!(e.name_at(1), "HDMI-A-1");
    assert_eq!(e.find("HDMI-A-1"), Some(1));
    assert_eq!(e.find("DP-2"), None);
    let l = e.layer_at(0);
    assert!(!l.configured);
    assert_eq!(l.wallpaper, None);
    assert_eq!((l.width, l.height, l.frames), (1920, 1080, 0));
}

#[test]
fn list_outputs_text() {
    let mut e = two_outputs();
    e.set_wallpaper("HDMI-A-1", "forest".to_string());
    let expected = "DP-1: Dell U2720Q\n  -Pos:        (0, 0)\n  -Size:       (1920, 1080)\n  -Current WP: None\n  -Tmp:        No value yet\n\nHDMI-A-1: LG\n  -Pos:        (-1280, 0)\n  -Size:       (1280, 1024)\n  -Current WP: forest\n  -Tmp:        No value yet\n\n";
    assert_eq!(e.list_outputs(false), expected);
    let legacy = e.list_outputs(true);
    assert!(legacy.contains("  -Tmp:        \"No value yet\"\n\n"));
}

#[test]
fn set_on_known_output() {
    let e = two_outputs();
    let req = parse_request(&change_wallpaper_request("DP-1", "forest"));
    match e.respond(&req, false) {
        EngineAction::Apply { outputs, wallpaper } => {
            assert_eq!(outputs, vec!["DP-1".to_string()]);
            assert_eq!(wallpaper, Some("forest".to_string()));
        }
        _ => panic!("expected apply"),
    }
}

#[test]
fn set_on_all_outputs() {
    let e = two_outputs();
    let req = parse_request("set:all,city");
    match e.respond(&req, false) {
        EngineAction::Apply { outputs, wallpaper } => {
            assert_eq!(outputs, vec!["DP-1".to_string(), "HDMI-A-1".to_string()]);
            assert_eq!(wallpaper, Some("city".to_string()));
        }
        _ => panic!("expected apply"),
    }
    let empty = SimpleLayer::new(true);
    match empty.respond(&parse_request("set:all"), false) {
        EngineAction::Apply { outputs, wallpaper } => {
            assert!(outputs.is_empty());
            assert_eq!(wallpaper, None);
        }
        _ => panic!("expected apply"),
    }
}

#[test]
fn set_on_unknown_output() {
    let e = two_outputs();
    match e.respond(&parse_request("set:DP-9,forest"), false) {
        EngineAction::Reply(t) => assert_eq!(t, "Output doesn't exist."),
        _ => panic!("expected a reply"),
    }
}

#[test]
fn other_answers() {
    let e = two_outputs();
    assert!(matches!(e.respond(&parse_request(&option_request("silent", "true")), false), EngineAction::NoReply));
    assert!(matches!(e.respond(&parse_request("save:"), false), EngineAction::NoReply));
    match e.respond(&parse_request("list-outputs>"), false) {
        EngineAction::Reply(t) => assert_eq!(t, "Not recognised."),
        _ => panic!("expected a reply"),
    }
    match e.respond(&parse_request("list-outputs:"), false) {
        EngineAction::Reply(t) => assert_eq!(t, e.list_outputs(false)),
        _ => panic!("expected a reply"),
    }
    match e.respond(&parse_legacy_request("list-outputs>"), true) {
        EngineAction::Reply(t) => assert_eq!(t, e.list_outputs(true)),
        _ => panic!("expected a reply"),
    }
}

#[test]
fn configure_draws_then_configures() {
    let mut e = two_outputs();
    let plan = e.configure("DP-1", 2560, 1440).unwrap();
    assert_eq!((plan.width, plan.height, plan.stride), (2560, 1440, 2560 * 4));
    assert!(!plan.attach);
    match plan.content {
        DrawContent::DebugGrid(lines) => assert_eq!(lines, LayerData::debug_background(2560, 1440)),
        _ => panic!("expected the debug grid"),
    }
    let l = e.layer_at(0);
    assert!(l.configured);
    assert_eq!((l.width, l.height, l.frames), (2560, 1440, 1));
    let plan = e.frame("DP-1").unwrap();
    assert!(plan.attach);
    assert_eq!(e.layer_at(0).frames, 2);
    assert!(e.frame("nowhere").is_none());
    assert!(e.configure("nowhere", 1, 1).is_none());
}

#[test]
fn frame_with_wallpaper_or_without_debug() {
    let mut e = SimpleLayer::new(false);
    e.new_output(info("DP-1", "m", (0, 0), (10, 10)));
    assert!(matches!(e.frame("DP-1").unwrap().content, DrawContent::Nothing));
    e.set_wallpaper("DP-1", "w".to_string());
    assert!(matches!(e.frame("DP-1").unwrap().content, DrawContent::Wallpaper));
}

#[test]
fn layer_draw_counts_frames() {
    let mut l = LayerData::new(info("X", "m", (0, 0), (4, 4)), 4, 4);
    let p = l.draw(false);
    assert_eq!(l.frames, 1);
    assert_eq!(p.stride, 16);
}

#[test]
fn update_and_destroy_outputs() {
    let mut e = two_outputs();
    e.set_wallpaper("DP-1", "forest".to_string());
    assert_eq!(e.update_output(info("DP-1", "Dell", (0, 0), (800, 600))), 800 * 600 * 4);
    let l = e.layer_at(0);
    assert_eq!((l.width, l.height), (800, 600));
    assert_eq!(l.wallpaper, Some("forest".to_string()));
    e.output_destroyed(&info("DP-1", "Dell", (0, 0), (800, 600)));
    assert_eq!(e.len(), 1);
    assert_eq!(e.name_at(0), "HDMI-A-1");
}

#[test]
fn a_new_output_with_a_known_name_replaces_its_layer() {
    let mut e = two_outputs();
    e.set_wallpaper("DP-1", "forest".to_string());
    e.new_output(info("DP-1", "Other", (0, 0), (640, 480)));
    assert_eq!(e.len(), 2);
    let l = e.layer_at(0);
    assert_eq!(l.wallpaper, None);
    assert_eq!(l.info.model, "Other");
}

#[test]
fn closing_stops_the_daemon() {
    let mut e = two_outputs();
    assert!(!e.exit());
    e.closed();
    assert!(e.exit());
}

#[test]
fn legacy_draw_stops_at_first_unconfigured_layer() {
    let mut e = SimpleLayer::new(true);
    e.new_output(info("A", "m", (0, 0), (10, 10)));
    e.new_output(info("B", "m", (0, 0), (20, 20)));
    e.new_output(info("C", "m", (0, 0), (30, 30)));
    let plans = e.legacy_configure("A", 11, 12);
    assert_eq!(plans.len(), 1);
    assert_eq!((plans[0].width, plans[0].height), (11, 12));
    assert!(plans[0].attach);
    assert!(matches!(plans[0].content, DrawContent::Nothing));
    let plans = e.legacy_configure("C", 30, 30);
    assert_eq!(plans.len(), 1);
    e.set_wallpaper("B", "/tmp/b.png".to_string());
    let plans = e.legacy_configure("B", 20, 20);
    assert_eq!(plans.len(), 3);
    assert!(matches!(plans[1].content, DrawContent::Wallpaper));
    assert_eq!(e.frames(), 3);
    let plans = e.draw();
    assert_eq!(plans.len(), 3);
    assert_eq!(e.frames(), 4);
}

#[test]
fn legacy_configure_ignores_layers_it_does_not_draw() {
    let mut e = SimpleLayer::new(true);
    e.new_output(info("A", "m", (0, 0), (10, 10)));
    e.new_output(info("B", "m", (0, 0), (600_000_000, 1)));
    e.note_well_formed();
    let plans = e.legacy_configure("A", 11, 12);
    assert_eq!(plans.len(), 1);
    assert_eq!(plans[0].stride, 44);
    assert_eq!(e.frames(), 1);
}

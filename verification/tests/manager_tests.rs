use wallpaper_engine::manager::{
    panel_step, AnimData, Banners, Clamp, ManagerSettings, PanelEvent, Scaling, ScreenInfo, Subpage, Wallpaper,
    WallpaperCatalog,
};
use wallpaper_engine::wallpaper::{ProjectInfo, WallpaperInfo};

fn wp(id: &str) -> WallpaperInfo {
    WallpaperInfo::new(
        id.to_string(),
        format!("/w/{}", id),
        ProjectInfo {
            content_rating: String::new(),
            file: String::new(),
            preview: "preview.jpg".to_string(),
            tags: vec![],
            title: id.to_string(),
            background_type: String::new(),
            version: 0,
        },
    )
}

#[test]
fn animation_end() {
    let a = AnimData::with_default_frames(100, 40);
    assert_eq!((a.start, a.start_frames, a.end, a.end_frames), (100, 5, 40, 30));
    assert!(!a.has_reached_end(174));
    assert!(a.has_reached_end(175));
}

#[test]
fn banners() {
    let mut b = Banners::new();
    assert!(!b.check_banners_open(0));
    b.push_banner("Error".to_string(), AnimData::with_default_frames(0, 40));
    assert!(b.check_banners_open(1000));
    b.push_banner("Saved".to_string(), AnimData::with_default_frames(3, 10));
    assert_eq!(b.len(), 2);
    assert_eq!(b.text_at(0), "Error");
    assert_eq!(b.text_at(1), "Saved");
}

#[test]
fn load_all_keeps_ids_in_order() {
    let mut c = WallpaperCatalog::new();
    assert!(c.load_all_wallpapers(vec![wp("b"), wp("a"), wp("c"), wp("a")]));
    assert_eq!(c.len(), 3);
    let ids: Vec<String> = (0..c.len()).map(|i| c.get(i).0.clone()).collect();
    assert_eq!(ids, vec!["a", "b", "c"]);
    assert!(c.get(0).1.image.is_none());
    assert!(!c.load_all_wallpapers(vec![wp("c"), wp("a")]));
    assert!(c.contains_key("b"));
    assert!(!c.contains_key("d"));
}

#[test]
fn load_next_image_one_at_a_time() {
    let mut c = WallpaperCatalog::new();
    c.load_all_wallpapers(vec![wp("a"), wp("b")]);
    assert!(c.load_next_image(vec![wp("a"), wp("b")]));
    assert_eq!(c.get(0).1.image, Some("file:///w/a/preview.jpg".to_string()));
    assert!(c.get(1).1.image.is_none());
    assert!(c.load_next_image(vec![wp("a"), wp("b")]));
    assert_eq!(c.get(1).1.image, Some("file:///w/b/preview.jpg".to_string()));
    assert!(!c.load_next_image(vec![wp("a"), wp("b")]));
    assert!(c.load_next_image(vec![wp("a"), wp("0")]));
    assert_eq!(c.get(0).0, "0");
    assert_eq!(c.get(0).1.image, Some("file:///w/0/preview.jpg".to_string()));
}

#[test]
fn remove_wallpaper() {
    let mut c = WallpaperCatalog::new();
    c.load_all_wallpapers(vec![wp("a"), wp("b")]);
    c.remove("a");
    assert_eq!(c.len(), 1);
    assert_eq!(c.get(0).0, "b");
    c.remove("zzz");
    assert_eq!(c.len(), 1);
    let w: &Wallpaper = c.get(0).1;
    assert_eq!(w.wallpaper_info.id, "b");
}

fn settings() -> ManagerSettings {
    ManagerSettings {
        debugging: false,
        silent: false,
        no_audio_processing: false,
        no_fullscreen_pause: false,
        fps: None,
        clamp: Clamp::Clamp,
        screens: vec![("DP-1".to_string(), Some(ScreenInfo { id: "42".to_string(), scaling: Scaling::Fit }))],
    }
}

#[test]
fn missing_screens_get_a_placeholder() {
    let mut s = settings();
    s.add_missing_screens(&vec!["DP-1".to_string(), "HDMI-A-1".to_string()]);
    assert_eq!(s.screens.len(), 2);
    assert_eq!(s.screens[0].1.as_ref().unwrap().id, "42");
    assert_eq!(s.screens[1].0, "HDMI-A-1");
    let placeholder = s.screens[1].1.as_ref().unwrap();
    assert_eq!(placeholder.id, "test");
    assert_eq!(placeholder.scaling, Scaling::Default);
}

#[test]
fn option_messages() {
    let mut s = settings();
    assert_eq!(s.set_silent(true), ("silent".to_string(), "true".to_string()));
    assert_eq!(s.set_no_audio_processing(false), ("audio_processing".to_string(), "false".to_string()));
    assert_eq!(s.set_fps_enabled(true), ("fps-enabled".to_string(), "true".to_string()));
    assert_eq!(s.fps, Some(30));
    assert_eq!(s.set_fps(75), ("fps".to_string(), "Some(75)".to_string()));
    assert_eq!(s.set_fps_enabled(false), ("fps-enabled".to_string(), "false".to_string()));
    assert_eq!(s.fps, None);
    assert_eq!(s.set_clamp(Clamp::Border), ("clamp".to_string(), "Border".to_string()));
    assert_eq!(s.set_scaling("DP-1", Scaling::Stretch), ("scaling".to_string(), "DP-1,Stretch".to_string()));
    assert_eq!(s.screens[0].1.as_ref().unwrap().scaling, Scaling::Stretch);
    assert_eq!(s.set_no_fullscreen_pause(true), ("fullscreen_pause".to_string(), "true".to_string()));
}

#[test]
fn panels_open_and_close() {
    assert_eq!(panel_step(Subpage::Hidden, PanelEvent::OpenAbout), (Subpage::About, false));
    assert_eq!(panel_step(Subpage::Hidden, PanelEvent::OpenGetWallpapers), (Subpage::GetWallpapers, false));
    assert_eq!(panel_step(Subpage::Hidden, PanelEvent::RequestDelete), (Subpage::Delete, false));
    assert_eq!(panel_step(Subpage::Delete, PanelEvent::ConfirmDelete), (Subpage::Hidden, true));
    assert_eq!(panel_step(Subpage::About, PanelEvent::ConfirmDelete), (Subpage::About, false));
    assert_eq!(panel_step(Subpage::Delete, PanelEvent::Close), (Subpage::Hidden, false));
    assert_eq!(panel_step(Subpage::Import, PanelEvent::ClickOutside), (Subpage::Hidden, false));
}

#[test]
fn loading_images_settles() {
    let wps = || vec![wp("b"), wp("a"), wp("b"), wp("c")];
    let mut c = WallpaperCatalog::new();
    c.note_well_formed();
    let mut loaded = 0;
    for _ in 0..10 {
        if c.load_next_image(wps()) {
            loaded += 1;
        }
    }
    assert_eq!(loaded, 3);
    assert_eq!(c.len(), 3);
    assert!((0..3).all(|i| c.get(i).1.image.is_some()));
}

use wallpaper_engine::ctl::legacy::{legacy_command, legacy_ctl_plan, LegacyCommand, LegacyPlan};
use wallpaper_engine::ctl::{contains_flag, ctl_command, ctl_plan, ensure_parameters, help_message, CtlCommand, CtlPlan, HELP_TEXT};
use wallpaper_engine::runner::{default_runner_config, runner_config_file, RunnerArgError, RunnerConfig};
use wallpaper_engine::wallpaper::{
    config_dir_path, config_file_path, get_wallpaper_dir, project_file_path, wallpaper_image_path, ProjectInfo,
    WallpaperInfo,
};

fn args(v: &[&str]) -> Vec<String> {
    v.iter().map(|s| s.to_string()).collect()
}

#[test]
fn flags_and_parameters() {
    let a = args(&["wallpaper-ctl", "--help"]);
    assert!(contains_flag(&a, "-h", "--help"));
    assert!(!contains_flag(&a, "-v", "--version"));
    ensure_parameters(&args(&["p", "set", "a", "b"]), 2);
    ensure_parameters(&args(&["p", "list-outputs"]), 0);
}

#[test]
fn subcommand_from_lowered_name() {
    let a = args(&["c", "SET", "DP-1", "forest"]);
    assert!(matches!(ctl_command(&a, "set"), CtlCommand::SetWallpaper { .. }));
    assert!(matches!(ctl_command(&a, "SET"), CtlCommand::Help));
    assert!(matches!(ctl_command(&args(&["c", "set", "x"]), "set"), CtlCommand::WrongParameters { expected: 2 }));
    assert!(matches!(ctl_command(&args(&["c", "option", "x"]), "option"), CtlCommand::WrongParameters { expected: 2 }));
    assert!(matches!(ctl_command(&args(&["c", "restart", "x"]), "restart"), CtlCommand::WrongParameters { expected: 0 }));
    assert!(matches!(ctl_command(&args(&["c", "current-config", "x"]), "current-config"), CtlCommand::CurrentConfig));
    assert!(matches!(legacy_command(&a, "set"), LegacyCommand::SetWallpaper { .. }));
    assert!(matches!(legacy_command(&args(&["c", "list-wallpapers", "x"]), "list-wallpapers"), LegacyCommand::WrongParameters { expected: 0 }));
    assert!(matches!(legacy_command(&args(&["c", "current-config"]), "current-config"), LegacyCommand::Help));
}

#[test]
fn help_when_asked_or_without_subcommand() {
    assert!(matches!(ctl_plan(&args(&["wallpaper-ctl"])), CtlPlan::Help { no_commands: true }));
    assert!(matches!(ctl_plan(&args(&["wallpaper-ctl", "set", "-h"])), CtlPlan::Help { no_commands: false }));
    assert!(matches!(ctl_plan(&args(&["wallpaper-ctl", "-v"])), CtlPlan::Version));
    assert!(matches!(ctl_plan(&args(&[])), CtlPlan::Help { no_commands: false }));
}

#[test]
fn subcommands() {
    match ctl_plan(&args(&["wallpaper-ctl", "SET", "DP-1", "forest"])) {
        CtlPlan::Run(CtlCommand::SetWallpaper { output, wallpaper }) => {
            assert_eq!(output, "DP-1");
            assert_eq!(wallpaper, "forest");
        }
        _ => panic!("expected set"),
    }
    assert!(matches!(ctl_plan(&args(&["c", "list-outputs"])), CtlPlan::Run(CtlCommand::ListOutputs)));
    assert!(matches!(ctl_plan(&args(&["c", "list-wallpapers"])), CtlPlan::Run(CtlCommand::ListWallpapers)));
    assert!(matches!(ctl_plan(&args(&["c", "restart"])), CtlPlan::Run(CtlCommand::Restart)));
    assert!(matches!(ctl_plan(&args(&["c", "current-config", "x"])), CtlPlan::Run(CtlCommand::CurrentConfig)));
    assert!(matches!(ctl_plan(&args(&["c", "frobnicate"])), CtlPlan::Run(CtlCommand::Help)));
    match ctl_plan(&args(&["c", "option", "silent", "true"])) {
        CtlPlan::Run(CtlCommand::SetOption { setting, value }) => {
            assert_eq!(setting, "silent");
            assert_eq!(value, "true");
        }
        _ => panic!("expected option"),
    }
}

#[test]
fn wrong_number_of_parameters() {
    assert!(matches!(
        ctl_plan(&args(&["c", "set", "DP-1"])),
        CtlPlan::Run(CtlCommand::WrongParameters { expected: 2 })
    ));
    assert!(matches!(
        ctl_plan(&args(&["c", "list-outputs", "x"])),
        CtlPlan::Run(CtlCommand::WrongParameters { expected: 0 })
    ));
}

#[test]
fn legacy_tool() {
    assert!(matches!(legacy_ctl_plan(&args(&["c"])), LegacyPlan::Help { no_commands: true }));
    assert!(matches!(legacy_ctl_plan(&args(&["c", "--version"])), LegacyPlan::Version));
    match legacy_ctl_plan(&args(&["c", "set", "DP-1", "/tmp/a.png"])) {
        LegacyPlan::Run(LegacyCommand::SetWallpaper { output, wallpaper }) => {
            assert_eq!(output, "DP-1");
            assert_eq!(wallpaper, "/tmp/a.png");
        }
        _ => panic!("expected set"),
    }
    assert!(matches!(legacy_ctl_plan(&args(&["c", "option", "a", "b"])), LegacyPlan::Run(LegacyCommand::Help)));
    assert!(matches!(
        legacy_ctl_plan(&args(&["c", "restart", "now"])),
        LegacyPlan::Run(LegacyCommand::WrongParameters { expected: 0 })
    ));
}

#[test]
fn help_texts() {
    assert_eq!(help_message(), HELP_TEXT);
    assert!(help_message().starts_with("Control an active wallpaper-engine instance.\n\nUsage:"));
    let legacy = wallpaper_engine::ctl::legacy::help_message();
    assert!(!legacy.contains("current-config"));
    assert!(legacy.ends_with("  -s, --save     Saves the current wallpaper configuration.\n"));
    wallpaper_engine::ctl::save_to_config();
    wallpaper_engine::ctl::legacy::save_to_config();
}

#[test]
fn runner_arguments() {
    let default = default_runner_config("/home/rose");
    assert_eq!(default, "/home/rose/.local/share/wallpaper.conf");
    assert_eq!(runner_config_file(&args(&["runner"]), default.clone()).ok(), Some(default.clone()));
    assert_eq!(
        runner_config_file(&args(&["runner", "--config=/a", "--config=/b"]), default.clone()).ok(),
        Some("/b".to_string())
    );
    match runner_config_file(&args(&["runner", "--config=/a", "bad"]), default.clone()) {
        Err(e @ RunnerArgError::Malformed { .. }) => assert_eq!(e.message(), "Error with argument 1, bad"),
        _ => panic!("expected a malformed argument"),
    }
    match runner_config_file(&args(&["runner", "--other=1"]), default) {
        Err(e @ RunnerArgError::Unknown { .. }) => assert_eq!(e.message(), "Argument 0 unknown; --other=1"),
        _ => panic!("expected an unknown argument"),
    }
}

#[test]
fn engine_process_arguments() {
    let c = RunnerConfig {
        silent: true,
        audio_processing: false,
        screens: vec![("DP-1".to_string(), "123".to_string()), ("HDMI-A-1".to_string(), "456".to_string())],
    };
    assert_eq!(
        c.engine_arguments(),
        args(&["--silent", "--no-audio-processing", "--screen-root", "DP-1", "--bg", "123", "--screen-root", "HDMI-A-1", "--bg", "456"])
    );
    let c = RunnerConfig { silent: false, audio_processing: true, screens: vec![] };
    assert!(c.engine_arguments().is_empty());
}

#[test]
fn paths() {
    assert_eq!(get_wallpaper_dir("/home/r", None), "/home/r/.config/wallpaper-engine/wallpapers");
    assert_eq!(get_wallpaper_dir("/home/r", Some("42".to_string())), "/home/r/.config/wallpaper-engine/wallpapers/42");
    assert_eq!(config_dir_path("/home/r"), "/home/r/.config/wallpaper-engine");
    assert_eq!(config_file_path("/home/r"), "/home/r/.config/wallpaper-engine/wallpaper.conf");
    assert_eq!(wallpaper_image_path("/home/r", "42"), "/home/r/.config/wallpaper-engine/wallpapers/42/");
    assert_eq!(project_file_path("/w/42"), "/w/42/project.json");
}

#[test]
fn wallpaper_info() {
    let data = ProjectInfo {
        content_rating: "Everyone".to_string(),
        file: "scene.json".to_string(),
        preview: "preview.gif".to_string(),
        tags: vec!["Nature".to_string()],
        title: "Forest".to_string(),
        background_type: "scene".to_string(),
        version: 1,
    };
    let w = WallpaperInfo::new("42".to_string(), "/w/42".to_string(), data);
    assert_eq!(w.project_file, "/w/42/project.json");
    assert_eq!(w.preview_uri(), "file:///w/42/preview.gif");
}

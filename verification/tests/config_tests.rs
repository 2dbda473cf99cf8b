use wallpaper_engine::config::{Config, ConfigError};

#[test]
fn reads_values_and_monitors() {
    let text = "# a comment\nsilent:true\nmonitor:DP-1:forest\nfps:30\n";
    let c = Config::from_text(text).unwrap();
    assert_eq!(c.value("silent"), Some("true".to_string()));
    assert_eq!(c.value("fps"), Some("30".to_string()));
    assert_eq!(c.monitor("dp-1"), Some("forest".to_string()));
    assert_eq!(c.monitor("DP-1"), None);
    assert_eq!(c.value("monitor"), None);
}

#[test]
fn lowercases_each_line() {
    let c = Config::from_text("Silent:TRUE\n").unwrap();
    assert_eq!(c.value("silent"), Some("true".to_string()));
    assert_eq!(c.value("Silent"), None);
}

#[test]
fn later_lines_replace_earlier_values() {
    let c = Config::from_text("a:1\nb:2\na:3\n").unwrap();
    assert_eq!(c.value("a"), Some("3".to_string()));
    assert_eq!(c.to_text(), "a:3\nb:2\n");
}

#[test]
fn extra_fields_of_a_value_line_are_ignored() {
    let c = Config::from_text("path:/tmp:x").unwrap();
    assert_eq!(c.value("path"), Some("/tmp".to_string()));
}

#[test]
fn crlf_line_endings_are_accepted() {
    let c = Config::from_text("a:1\r\nb:2\r\n").unwrap();
    assert_eq!(c.value("a"), Some("1".to_string()));
    assert_eq!(c.value("b"), Some("2".to_string()));
}

#[test]
fn invalid_monitor_names_its_line() {
    let text = "# comment\na:1\n# other\nmonitor:DP-1\nb:2\n";
    let err = Config::from_text(text).err().unwrap();
    assert_eq!(err, ConfigError::InvalidMonitor { line: 1 });
    assert_eq!(err.message(), "Invalid monitor config at line 1");
}

#[test]
fn monitor_with_too_many_fields_is_invalid() {
    let err = Config::from_text("monitor:a:b:c\n").err().unwrap();
    assert_eq!(err, ConfigError::InvalidMonitor { line: 0 });
}

#[test]
fn line_without_separator_is_not_read() {
    assert!(Config::try_from_text("a:1\nnonsense\n").is_none());
    assert!(Config::try_from_text("\n").is_none());
    // An invalid monitor line before the bad line ends the reading first.
    let r = Config::try_from_text("monitor:x\nnonsense\n").unwrap();
    assert_eq!(r.err().unwrap(), ConfigError::InvalidMonitor { line: 0 });
}

#[test]
fn empty_text_is_an_empty_config() {
    let c = Config::from_text("").unwrap();
    assert_eq!(c.to_text(), "");
    let c = Config::try_from_text("# only a comment").unwrap().unwrap();
    assert_eq!(c.to_text(), "");
}

#[test]
fn writes_values_then_monitors() {
    let mut c = Config::new();
    c.set_monitor("hdmi-a-1".to_string(), "ocean".to_string());
    c.set_value("silent".to_string(), "false".to_string());
    c.set_value("clamp".to_string(), "border".to_string());
    assert_eq!(c.to_text(), "silent:false\nclamp:border\nmonitor:hdmi-a-1:ocean\n");
}

#[test]
fn written_text_reads_back() {
    let mut c = Config::new();
    c.set_value("silent".to_string(), "true".to_string());
    c.set_value("fps".to_string(), "60".to_string());
    c.set_monitor("dp-1".to_string(), "forest".to_string());
    c.set_monitor("dp-2".to_string(), "city".to_string());
    let text = c.to_text();
    let back = Config::from_text(&text).unwrap();
    assert_eq!(back.to_text(), text);
    assert_eq!(back.value("fps"), Some("60".to_string()));
    assert_eq!(back.monitor("dp-2"), Some("city".to_string()));
}

#[test]
fn set_value_then_value_reads_it() {
    let mut c = Config::new();
    assert_eq!(c.value("k"), None);
    c.set_value("k".to_string(), "v1".to_string());
    assert_eq!(c.value("k"), Some("v1".to_string()));
    c.set_value("k".to_string(), "v2".to_string());
    assert_eq!(c.value("k"), Some("v2".to_string()));
    assert_eq!(c.to_text(), "k:v2\n");
}

#[test]
fn one_lowered_line_at_a_time() {
    let mut c = Config::new();
    assert_eq!(c.read_lowered_line(0, "silent:true"), Some(Ok(())));
    assert_eq!(c.read_lowered_line(1, "monitor:dp-1:forest"), Some(Ok(())));
    assert_eq!(c.read_lowered_line(2, "monitor:dp-1"), Some(Err(ConfigError::InvalidMonitor { line: 2 })));
    assert_eq!(c.read_lowered_line(2, "nonsense"), None);
    assert_eq!(c.read_lowered_line(2, "Fps:30:x"), Some(Ok(())));
    assert_eq!(c.value("silent"), Some("true".to_string()));
    assert_eq!(c.value("Fps"), Some("30".to_string()));
    assert_eq!(c.monitor("dp-1"), Some("forest".to_string()));
    assert_eq!(c.monitor("DP-1"), None);
}

#[test]
fn comment_lines_change_nothing() {
    let plain = "a:1\nmonitor:x\n";
    let commented = "# head\na:1\n#monitor:y:z\n# more\nmonitor:x\n";
    assert_eq!(Config::from_text(plain).err(), Config::from_text(commented).err());
    assert_eq!(
        Config::from_text(commented).err(),
        Some(ConfigError::InvalidMonitor { line: 1 })
    );
    let a = Config::from_text("b:2\nmonitor:m:w\n").unwrap();
    let b = Config::from_text("#x\nb:2\n#y:z\nmonitor:m:w\n#\n").unwrap();
    assert_eq!(a.to_text(), b.to_text());
}

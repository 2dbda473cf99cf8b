use wallpaper_engine::ipc::{
    change_wallpaper_request, decode_reply, legacy_change_wallpaper_request, list_outputs_request,
    list_wallpapers_request, option_request, parse_legacy_request, parse_request, socket_message,
    IpcError, Request,
};

#[test]
fn request_texts() {
    assert_eq!(change_wallpaper_request("DP-1", "forest"), "set:DP-1,forest");
    assert_eq!(option_request("silent", "true"), "option:silent,true");
    assert_eq!(list_outputs_request(), "list-outputs>");
    assert_eq!(list_wallpapers_request(), "list-wallpapers>");
    assert_eq!(legacy_change_wallpaper_request("DP-1", "/tmp/a.png"), "set>DP-1:/tmp/a.png");
}

#[test]
fn set_request_reads_back() {
    match parse_request(&change_wallpaper_request("DP-1", "forest")) {
        Request::SetWallpaper { target, wallpaper } => {
            assert_eq!(target, "DP-1");
            assert_eq!(wallpaper, Some("forest".to_string()));
        }
        _ => panic!("not a set request"),
    }
}

#[test]
fn set_request_without_wallpaper() {
    match parse_request("set:all") {
        Request::SetWallpaper { target, wallpaper } => {
            assert_eq!(target, "all");
            assert_eq!(wallpaper, None);
        }
        _ => panic!("not a set request"),
    }
}

#[test]
fn arguments_come_after_the_last_colon() {
    match parse_request("set:a:b,c,d") {
        Request::SetWallpaper { target, wallpaper } => {
            assert_eq!(target, "b");
            assert_eq!(wallpaper, Some("c".to_string()));
        }
        _ => panic!("not a set request"),
    }
}

#[test]
fn other_requests() {
    assert!(matches!(parse_request("list-outputs:"), Request::ListOutputs));
    assert!(matches!(parse_request("option:silent,true"), Request::SetOption));
    assert!(matches!(parse_request("save:"), Request::Save));
    match parse_request("list-outputs>") {
        Request::Unknown { command, args } => {
            assert_eq!(command, "list-outputs>");
            assert_eq!(args, vec!["list-outputs>".to_string()]);
        }
        _ => panic!("expected an unknown request"),
    }
}

#[test]
fn legacy_requests() {
    match parse_legacy_request("set>DP-1:/tmp/a.png") {
        Request::SetWallpaper { target, wallpaper } => {
            assert_eq!(target, "DP-1");
            assert_eq!(wallpaper, Some("/tmp/a.png".to_string()));
        }
        _ => panic!("not a set request"),
    }
    assert!(matches!(parse_legacy_request("list-outputs>"), Request::ListOutputs));
    assert!(matches!(parse_legacy_request("option>a:b"), Request::Unknown { .. }));
    assert!(matches!(parse_legacy_request("save>"), Request::Unknown { .. }));
}

#[test]
fn reply_is_trimmed() {
    assert_eq!(decode_reply(b"  Done.\n"), Ok("Done.".to_string()));
    assert_eq!(decode_reply(b"\t\r\n"), Ok(String::new()));
    assert_eq!(decode_reply("h\u{e9}llo ".as_bytes()), Ok("h\u{e9}llo".to_string()));
}

#[test]
fn empty_reply_is_an_error() {
    assert_eq!(decode_reply(b""), Err(IpcError::NoMessage));
}

#[test]
fn socket_message_keeps_the_whole_buffer() {
    let mut buffer = vec![0u8; 255];
    let msg = b"set:DP-1,forest";
    buffer[..msg.len()].copy_from_slice(msg);
    let text = socket_message(&buffer, msg.len()).unwrap();
    assert_eq!(text.len(), 255);
    assert!(text.starts_with("set:DP-1,forest\0"));
    assert_eq!(socket_message(&buffer, 0), None);
    match parse_request(&text) {
        Request::SetWallpaper { target, wallpaper } => {
            assert_eq!(target, "DP-1");
            let w = wallpaper.unwrap();
            assert!(w.starts_with("forest\0"));
            assert_eq!(w.len(), 255 - "set:DP-1,".len());
        }
        _ => panic!("not a set request"),
    }
}

#[test]
fn whitespace_is_what_std_says() {
    for n in 0u32..=0x10ffff {
        if let Some(c) = char::from_u32(n) {
            assert_eq!(wallpaper_engine::ipc::is_whitespace(c), c.is_whitespace(), "{:x}", n);
        }
    }
    assert_eq!(decode_reply("\u{3000}Done.\u{85}\u{2028}".as_bytes()), Ok("Done.".to_string()));
}

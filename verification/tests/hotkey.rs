use clipboard_manager::hotkey::{finish_rebind, parse_hotkey, MOD_ALT, MOD_CONTROL, MOD_NOREPEAT, MOD_SHIFT, MOD_WIN};

#[test]
fn parses_ctrl_alt_v() {
    let (mods, vk) = parse_hotkey("Ctrl+Alt+V").unwrap();
    assert_eq!(mods, MOD_CONTROL | MOD_ALT | MOD_NOREPEAT);
    assert_eq!(vk, 'V' as u32);
}

#[test]
fn parses_lowercase_and_extra_whitespace() {
    let (mods, vk) = parse_hotkey(" ctrl + shift + 5 ").unwrap();
    assert_eq!(mods, MOD_CONTROL | MOD_SHIFT | MOD_NOREPEAT);
    assert_eq!(vk, '5' as u32);
}

#[test]
fn rejects_combo_with_no_modifier() {
    assert!(parse_hotkey("V").is_err());
}

#[test]
fn rejects_combo_with_no_key() {
    assert!(parse_hotkey("Ctrl+Alt").is_err());
}

#[test]
fn rejects_combo_with_two_keys() {
    assert!(parse_hotkey("Ctrl+V+B").is_err());
}

#[test]
fn rejects_unsupported_token() {
    assert!(parse_hotkey("Ctrl+F1").is_err());
}

#[test]
fn error_messages_name_the_combo_and_token() {
    assert_eq!(parse_hotkey("V"), Err("\"V\" needs at least one modifier (Ctrl/Alt/Shift/Win)".to_string()));
    assert_eq!(parse_hotkey("Ctrl+Alt"), Err("\"Ctrl+Alt\" has no key, only modifiers".to_string()));
    assert_eq!(
        parse_hotkey("Ctrl+V+B"),
        Err("multiple keys in \"Ctrl+V+B\" -- only one non-modifier key is supported".to_string())
    );
    assert_eq!(parse_hotkey("Ctrl+f1"), Err("unsupported key \"F1\" in \"Ctrl+f1\"".to_string()));
}

#[test]
fn every_modifier_name_is_recognised() {
    assert_eq!(parse_hotkey("control+a"), Ok((MOD_CONTROL | MOD_NOREPEAT, 'A' as u32)));
    assert_eq!(parse_hotkey("Win+Super+Meta+9"), Ok((MOD_WIN | MOD_NOREPEAT, '9' as u32)));
    assert_eq!(parse_hotkey("shift+alt+ctrl+win+z"), Ok((MOD_SHIFT | MOD_ALT | MOD_CONTROL | MOD_WIN | MOD_NOREPEAT, 'Z' as u32)));
}

#[test]
fn empty_pieces_are_skipped() {
    assert_eq!(parse_hotkey("Ctrl++V+"), Ok((MOD_CONTROL | MOD_NOREPEAT, 'V' as u32)));
    assert_eq!(parse_hotkey(""), Err("\"\" has no key, only modifiers".to_string()));
}

#[test]
fn non_ascii_key_is_unsupported() {
    assert_eq!(parse_hotkey("Ctrl+é"), Err("unsupported key \"é\" in \"Ctrl+é\"".to_string()));
}

#[test]
fn rebind_success_switches_and_activates() {
    let out = finish_rebind((0x4003, 'V' as u32), (0x4006, 'X' as u32), "Ctrl+Shift+X", None, false);
    assert_eq!(out.binding, (0x4006, 'X' as u32));
    assert!(out.active);
    assert_eq!(out.reply, Ok(()));
}

#[test]
fn rebind_failure_reverts_and_reports() {
    let out = finish_rebind((0x4003, 'V' as u32), (0x4006, 'X' as u32), "Ctrl+Shift+X", Some("hotkey already taken".into()), true);
    assert_eq!(out.binding, (0x4003, 'V' as u32));
    assert!(out.active);
    assert_eq!(out.reply, Err("couldn't register \"Ctrl+Shift+X\": hotkey already taken (reverted to the previous hotkey)".to_string()));
    let out = finish_rebind((0x4003, 'V' as u32), (0x4006, 'X' as u32), "Ctrl+Shift+X", Some("e".into()), false);
    assert!(!out.active);
}

#[test]
fn rejects_key_before_modifier() {
    assert_eq!(
        parse_hotkey("V+Ctrl"),
        Err("modifier after the key in \"V+Ctrl\" -- the key must come last".to_string())
    );
    assert!(parse_hotkey("Ctrl+V+Alt").is_err());
    assert!(parse_hotkey("Ctrl+V+").is_ok());
}

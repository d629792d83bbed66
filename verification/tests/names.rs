use yscale::names::{sanitize_fir_name, sanitize_preset_name, Firs, NameError, Presets};

#[test]
fn preset_names() {
    assert_eq!(sanitize_preset_name("  Living Room  ").unwrap(), "Living Room");
    assert_eq!(sanitize_preset_name("a.b-c_d 1").unwrap(), "a.b-c_d 1");
    assert_eq!(sanitize_preset_name("   "), Err(NameError::Length));
    assert_eq!(sanitize_preset_name(&"x".repeat(65)), Err(NameError::Length));
    assert!(sanitize_preset_name(&"x".repeat(64)).is_ok());
    assert_eq!(sanitize_preset_name("../etc/passwd"), Err(NameError::Charset));
    assert_eq!(sanitize_preset_name("caf\u{e9}"), Err(NameError::Charset));
    // 22 two-byte characters are 44 bytes, 33 are 66 bytes
    assert_eq!(sanitize_preset_name(&"\u{e9}".repeat(33)), Err(NameError::Length));
    assert_eq!(sanitize_preset_name(&"\u{e9}".repeat(22)), Err(NameError::Charset));
}

#[test]
fn fir_names_drop_extension() {
    assert_eq!(sanitize_fir_name("room.fir").unwrap(), "room");
    assert_eq!(sanitize_fir_name(" room.fir.fir ").unwrap(), "room");
    assert_eq!(sanitize_fir_name(".fir"), Err(NameError::Length));
    assert_eq!(sanitize_fir_name("room.fir ").unwrap(), "room");
    assert_eq!(Firs::sanitize("a/b"), Err(NameError::Charset));
    assert_eq!(Presets::sanitize("ok").unwrap(), "ok");
}

#[test]
fn store_paths() {
    let firs = Firs::with_dir("/home/pi/.config/yscale-server/firs".to_string());
    assert_eq!(firs.path("room.fir").unwrap(), "/home/pi/.config/yscale-server/firs/room.fir");
    assert_eq!(firs.dir(), "/home/pi/.config/yscale-server/firs");
    let presets = Presets::with_dir("/tmp/presets/".to_string());
    assert_eq!(presets.path(" Night ").unwrap(), "/tmp/presets/Night.json");
    assert_eq!(presets.path(""), Err(NameError::Length));
    let bare = Presets::with_dir(String::new());
    assert_eq!(bare.path("x").unwrap(), "x.json");
}

#[test]
fn name_messages() {
    assert_eq!(NameError::Length.message("FIR"), "FIR name must be 1\u{2013}64 characters");
    assert_eq!(
        NameError::Charset.message("preset"),
        "preset name: letters, numbers, space, '-', '_' and '.' only"
    );
}

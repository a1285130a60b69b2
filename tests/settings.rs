use voicereader::settings::{
    build_variant_name, current_target_triple, default_hotkey, is_hotkey_os_reserved,
    is_lowered_hotkey_reserved, is_sidecar_filename, model_options, normalize_hotkey,
    normalize_optional_text, normalize_windows_extended_path, normalized_clipboard_text,
    check_speak_settings, now_unix_timestamp_string, qwen_modes_enabled, sidecar_executable_filename, to_cmd_error,
    BuildVariant, HostArch, HostOs,
};
use voicereader::{EngineError, ErrorKind};

#[test]
fn build_variants() {
    assert_eq!(build_variant_name(BuildVariant::Full), "full");
    assert_eq!(build_variant_name(BuildVariant::Base), "base");
    assert!(qwen_modes_enabled(BuildVariant::Full));
    assert!(!qwen_modes_enabled(BuildVariant::Base));
}

#[test]
fn model_options_by_variant() {
    let base = model_options(BuildVariant::Base);
    assert_eq!(base.len(), 1);
    assert_eq!(base[0].id, "kyutai_pocket_tts");
    let full = model_options(BuildVariant::Full);
    let ids: Vec<&str> = full.iter().map(|m| m.id.as_str()).collect();
    assert_eq!(ids, vec!["kyutai_pocket_tts", "qwen_custom_voice", "qwen_base_clone"]);
    assert_eq!(full[2].status, "planned");
}

#[test]
fn default_hotkeys() {
    assert_eq!(default_hotkey(HostOs::MacOs), "Cmd+Shift+Space");
    assert_eq!(default_hotkey(HostOs::Windows), "Alt+Shift+Space");
    assert_eq!(default_hotkey(HostOs::Linux), "Ctrl+Shift+S");
}

#[test]
fn optional_text_is_trimmed() {
    assert_eq!(normalize_optional_text(Some("  hi there \n".to_string())).as_deref(), Some("hi there"));
    assert_eq!(normalize_optional_text(Some(" \t ".to_string())), None);
    assert_eq!(normalize_optional_text(None), None);
    assert_eq!(normalized_clipboard_text(Some("\u{a0}copied\u{3000}".to_string())).as_deref(), Some("copied"));
}

#[test]
fn hotkeys_are_normalized() {
    assert_eq!(normalize_hotkey("  Ctrl + Shift + S ").unwrap(), "Ctrl+Shift+S");
    let e: EngineError = normalize_hotkey("   ").unwrap_err();
    assert_eq!(e.kind, ErrorKind::ConfigurationError);
    assert_eq!(to_cmd_error(&e), "Hotkey cannot be empty");
}

#[test]
fn reserved_hotkeys() {
    assert!(is_hotkey_os_reserved(" Alt + Space "));
    assert!(is_hotkey_os_reserved("CMD+SPACE"));
    assert!(is_hotkey_os_reserved("Super+Space"));
    assert!(!is_hotkey_os_reserved("Ctrl+Space"));
    assert!(is_lowered_hotkey_reserved("meta + space"));
    assert!(!is_lowered_hotkey_reserved("Meta+Space"));
}

#[test]
fn sidecar_names() {
    assert!(is_sidecar_filename(HostOs::Windows, "tts-engine.exe"));
    assert!(is_sidecar_filename(HostOs::Windows, "tts-engine-x86_64-pc-windows-msvc.exe"));
    assert!(!is_sidecar_filename(HostOs::Windows, "tts-engine-x86_64"));
    assert!(is_sidecar_filename(HostOs::Linux, "tts-engine"));
    assert!(is_sidecar_filename(HostOs::Linux, "tts-engine-aarch64-unknown-linux-gnu"));
    assert!(!is_sidecar_filename(HostOs::MacOs, "engine"));
    assert_eq!(sidecar_executable_filename(HostOs::Windows), "tts-engine.exe");
    assert_eq!(sidecar_executable_filename(HostOs::MacOs), "tts-engine");
}

#[test]
fn target_triples() {
    assert_eq!(current_target_triple(HostOs::Linux, HostArch::X86_64), Some("x86_64-unknown-linux-gnu"));
    assert_eq!(current_target_triple(HostOs::MacOs, HostArch::Aarch64), Some("aarch64-apple-darwin"));
    assert_eq!(current_target_triple(HostOs::Windows, HostArch::Aarch64), Some("aarch64-pc-windows-msvc"));
    assert_eq!(current_target_triple(HostOs::Other, HostArch::X86_64), None);
}

#[test]
fn extended_windows_paths() {
    assert_eq!(normalize_windows_extended_path(HostOs::Windows, r"\\?\UNC\server\share"), r"\\server\share");
    assert_eq!(normalize_windows_extended_path(HostOs::Windows, r"\\?\C:\models"), r"C:\models");
    assert_eq!(normalize_windows_extended_path(HostOs::Windows, r"C:\models"), r"C:\models");
    assert_eq!(normalize_windows_extended_path(HostOs::Linux, r"\\?\C:\models"), r"\\?\C:\models");
}

#[test]
fn timestamp_is_decimal_seconds() {
    let t = now_unix_timestamp_string();
    assert!(!t.is_empty());
    assert!(t.chars().all(|c| c.is_ascii_digit()));
    assert!(t.parse::<u64>().unwrap() > 1_600_000_000);
}

#[test]
fn speak_settings_ranges() {
    let ok = check_speak_settings(1500, 1000, 1000, 200).unwrap();
    assert_eq!((ok.rate, ok.pitch, ok.volume, ok.chunk_max_chars), (1500, 1000, 1000, 200));
    assert_eq!(check_speak_settings(249, 1000, 1000, 200).unwrap_err().message, "rate must be in [0.25, 4.0]");
    assert_eq!(check_speak_settings(4001, 1000, 1000, 200).unwrap_err().message, "rate must be in [0.25, 4.0]");
    assert_eq!(check_speak_settings(1000, 499, 1000, 200).unwrap_err().message, "pitch must be in [0.5, 2.0]");
    assert_eq!(check_speak_settings(1000, 1000, 2001, 200).unwrap_err().message, "volume must be in [0.0, 2.0]");
    assert_eq!(check_speak_settings(1000, 1000, 0, 99).unwrap_err().message, "chunk_max_chars must be in [100, 2000]");
    assert!(check_speak_settings(250, 500, 0, 2000).is_ok());
}

use vstd::prelude::*;
use vstd::string::StringExecFns;
use crate::{EngineError, ErrorKind};
use crate::text::{chars_of, string_of, trim, trim_chars};
use crate::config::starts_with;

verus! {

/// The operating system the application runs on.
#[derive(Clone, Copy, PartialEq, Eq, Structural, Debug)]
pub enum HostOs {
    Windows,
    MacOs,
    Linux,
    Other,
}

/// The processor architecture the application runs on.
#[derive(Clone, Copy, PartialEq, Eq, Structural, Debug)]
pub enum HostArch {
    X86_64,
    Aarch64,
    Other,
}

/// Which build of the application: the full one reaches the out-of-process engine and
/// its Qwen models; the base one runs the embedded model alone.
#[derive(Clone, Copy, PartialEq, Eq, Structural, Debug)]
pub enum BuildVariant {
    Full,
    Base,
}

/// A model the user can pick.
#[derive(Clone, Debug)]
pub struct ModelOption {
    pub id: String,
    pub label: String,
    pub status: String,
    pub notes: String,
}

/// The name of a build variant.
pub fn build_variant_name(variant: BuildVariant) -> (r: &'static str)
    ensures
        r@ == match variant {
            BuildVariant::Full => "full"@,
            BuildVariant::Base => "base"@,
        },
{
    match variant {
        BuildVariant::Full => "full",
        BuildVariant::Base => "base",
    }
}

/// The Qwen models are offered only in the full build.
pub fn qwen_modes_enabled(variant: BuildVariant) -> (r: bool)
    ensures
        r == (variant == BuildVariant::Full),
{
    match variant {
        BuildVariant::Full => true,
        BuildVariant::Base => false,
    }
}

/// The models offered: the Kyutai model always, the two Qwen models in the full build.
pub fn model_options(variant: BuildVariant) -> (r: Vec<ModelOption>)
    ensures
        r@.len() == if variant == BuildVariant::Full {
            3nat
        } else {
            1nat
        },
        r@[0].id@ == "kyutai_pocket_tts"@,
        r@[0].status@ == "ready"@,
        variant == BuildVariant::Full ==> r@[1].id@ == "qwen_custom_voice"@ && r@[1].status@
            == "ready"@ && r@[2].id@ == "qwen_base_clone"@ && r@[2].status@ == "planned"@,
{
    let mut options: Vec<ModelOption> = Vec::new();
    options.push(
        ModelOption {
            id: String::from_str("kyutai_pocket_tts"),
            label: String::from_str("Kyutai Pocket TTS"),
            status: String::from_str("ready"),
            notes: String::from_str("Main read-aloud path (Verylicious/pocket-tts-ungated)"),
        },
    );
    if qwen_modes_enabled(variant) {
        options.push(
            ModelOption {
                id: String::from_str("qwen_custom_voice"),
                label: String::from_str("Qwen CustomVoice (preset speakers)"),
                status: String::from_str("ready"),
                notes: String::from_str("Secondary path (Qwen/Qwen3-TTS-12Hz-0.6B-CustomVoice)"),
            },
        );
        options.push(
            ModelOption {
                id: String::from_str("qwen_base_clone"),
                label: String::from_str("Qwen Base (clone path)"),
                status: String::from_str("planned"),
                notes: String::from_str("Model repo prefetched: Qwen/Qwen3-TTS-12Hz-0.6B-Base"),
            },
        );
    }
    options
}

/// The hotkey offered before the user picks one.
pub fn default_hotkey(os: HostOs) -> (r: String)
    ensures
        r@ == match os {
            HostOs::MacOs => "Cmd+Shift+Space"@,
            HostOs::Windows => "Alt+Shift+Space"@,
            _ => "Ctrl+Shift+S"@,
        },
{
    match os {
        HostOs::MacOs => String::from_str("Cmd+Shift+Space"),
        HostOs::Windows => String::from_str("Alt+Shift+Space"),
        _ => String::from_str("Ctrl+Shift+S"),
    }
}

/// Trimmed text, or none when nothing is left.
pub open spec fn trimmed_or_none(value: Option<Seq<char>>) -> Option<Seq<char>> {
    match value {
        Some(v) => if trim(v).len() > 0 {
            Some(trim(v))
        } else {
            None
        },
        None => None,
    }
}

pub open spec fn opt_view(o: Option<String>) -> Option<Seq<char>> {
    match o {
        Some(s) => Some(s@),
        None => None,
    }
}

/// Optional text from the user, trimmed; blank text counts as none.
pub fn normalize_optional_text(value: Option<String>) -> (r: Option<String>)
    ensures
        opt_view(r) == trimmed_or_none(opt_view(value)),
{
    match value {
        Some(raw) => {
            let t = trim_chars(&chars_of(raw.as_str()));
            if t.len() == 0 {
                None
            } else {
                Some(string_of(&t))
            }
        },
        None => None,
    }
}

/// Text read from the clipboard, trimmed; blank text counts as none.
pub fn normalized_clipboard_text(raw: Option<String>) -> (r: Option<String>)
    ensures
        opt_view(r) == trimmed_or_none(opt_view(raw)),
{
    normalize_optional_text(raw)
}

/// `s` without its spaces.
pub open spec fn without_spaces(s: Seq<char>) -> Seq<char>
    decreases s.len(),
{
    if s.len() == 0 {
        s
    } else if s.last() == ' ' {
        without_spaces(s.drop_last())
    } else {
        without_spaces(s.drop_last()).push(s.last())
    }
}

fn drop_spaces(v: &Vec<char>) -> (r: Vec<char>)
    ensures
        r@ == without_spaces(v@),
{
    let mut out: Vec<char> = Vec::new();
    let mut i: usize = 0;
    while i < v.len()
        invariant
            i <= v@.len(),
            out@ == without_spaces(v@.take(i as int)),
        decreases v@.len() - i,
    {
        assert(v@.take(i + 1).drop_last() =~= v@.take(i as int));
        if v[i] != ' ' {
            out.push(v[i]);
        }
        i = i + 1;
    }
    assert(v@.take(v@.len() as int) =~= v@);
    out
}

/// A hotkey as typed, trimmed and without spaces; an empty one is refused.
pub fn normalize_hotkey(value: &str) -> (r: Result<String, EngineError>)
    ensures
        r is Err <==> without_spaces(trim(value@)).len() == 0,
        r matches Ok(s) ==> s@ == without_spaces(trim(value@)),
        r matches Err(e) ==> e.kind == ErrorKind::ConfigurationError,
{
    let t = trim_chars(&chars_of(value));
    let n = drop_spaces(&t);
    if n.len() == 0 {
        return Err(
            EngineError {
                kind: ErrorKind::ConfigurationError,
                message: String::from_str("Hotkey cannot be empty"),
            },
        );
    }
    Ok(string_of(&n))
}

/// The lower-case form of a text.
pub uninterp spec fn lower_of(s: Seq<char>) -> Seq<char>;

/// Relies on `str::to_lowercase`: the lower-case form depends on the characters alone.
#[verifier::external_body]
fn lowercase(s: &str) -> (r: String)
    ensures
        r@ == lower_of(s@),
{
    s.to_lowercase()
}

/// The hotkeys that the operating system keeps for itself, lower case, without spaces.
pub open spec fn is_reserved_compact(h: Seq<char>) -> bool {
    h == "alt+space"@ || h == "cmd+space"@ || h == "command+space"@ || h == "meta+space"@ || h
        == "super+space"@
}

fn chars_eq(a: &Vec<char>, b: &Vec<char>) -> (r: bool)
    ensures
        r == (a@ == b@),
{
    if a.len() != b.len() {
        return false;
    }
    let mut i: usize = 0;
    while i < a.len()
        invariant
            i <= a@.len(),
            a@.len() == b@.len(),
            forall|j: int| 0 <= j < i ==> a@[j] == b@[j],
        decreases a@.len() - i,
    {
        if a[i] != b[i] {
            return false;
        }
        i = i + 1;
    }
    assert(a@ =~= b@);
    true
}

/// A hotkey already in lower case is kept by the operating system, once its spaces are
/// dropped.
pub fn is_lowered_hotkey_reserved(lowered: &str) -> (r: bool)
    ensures
        r == is_reserved_compact(without_spaces(lowered@)),
{
    let h = drop_spaces(&chars_of(lowered));
    chars_eq(&h, &chars_of("alt+space")) || chars_eq(&h, &chars_of("cmd+space")) || chars_eq(
        &h,
        &chars_of("command+space"),
    ) || chars_eq(&h, &chars_of("meta+space")) || chars_eq(&h, &chars_of("super+space"))
}

/// The hotkey is one the operating system keeps for itself, whatever its case and spaces.
pub fn is_hotkey_os_reserved(hotkey: &str) -> (r: bool)
    ensures
        r == is_reserved_compact(without_spaces(lower_of(trim(hotkey@)))),
{
    let t = string_of(&trim_chars(&chars_of(hotkey)));
    let l = lowercase(t.as_str());
    is_lowered_hotkey_reserved(l.as_str())
}

/// The file name is one of the engine's executables, with or without a target suffix.
pub open spec fn is_sidecar_name(os: HostOs, name: Seq<char>) -> bool {
    if os == HostOs::Windows {
        name == "tts-engine.exe"@ || (starts_with(name, "tts-engine-"@) && name.len() >= 4
            && name.skip(name.len() - 4) == ".exe"@)
    } else {
        name == "tts-engine"@ || starts_with(name, "tts-engine-"@)
    }
}

fn prefix_is(s: &Vec<char>, p: &Vec<char>) -> (r: bool)
    ensures
        r == starts_with(s@, p@),
{
    if p.len() > s.len() {
        return false;
    }
    let mut i: usize = 0;
    while i < p.len()
        invariant
            i <= p@.len() <= s@.len(),
            forall|j: int| 0 <= j < i ==> s@[j] == p@[j],
        decreases p@.len() - i,
    {
        if s[i] != p[i] {
            assert(s@.take(p@.len() as int)[i as int] != p@[i as int]);
            return false;
        }
        i = i + 1;
    }
    assert(s@.take(p@.len() as int) =~= p@);
    true
}

fn suffix_is(s: &Vec<char>, p: &Vec<char>) -> (r: bool)
    ensures
        r == (s@.len() >= p@.len() && s@.skip(s@.len() - p@.len()) == p@),
{
    if p.len() > s.len() {
        return false;
    }
    let off = s.len() - p.len();
    let mut i: usize = 0;
    while i < p.len()
        invariant
            i <= p@.len() <= s@.len(),
            s@.len() == s.len(),
            off == s@.len() - p@.len(),
            forall|j: int| 0 <= j < i ==> s@[off + j] == p@[j],
        decreases p@.len() - i,
    {
        if s[off + i] != p[i] {
            assert(s@.skip(off as int)[i as int] != p@[i as int]);
            return false;
        }
        i = i + 1;
    }
    assert(s@.skip(off as int) =~= p@);
    true
}

/// The file name is one of the engine's executables on `os`.
pub fn is_sidecar_filename(os: HostOs, name: &str) -> (r: bool)
    ensures
        r == is_sidecar_name(os, name@),
{
    let n = chars_of(name);
    let prefix = chars_of("tts-engine-");
    if os == HostOs::Windows {
        let exe = chars_of(".exe");
        proof {
            reveal_strlit(".exe");
        }
        chars_eq(&n, &chars_of("tts-engine.exe")) || (prefix_is(&n, &prefix) && suffix_is(&n, &exe))
    } else {
        chars_eq(&n, &chars_of("tts-engine")) || prefix_is(&n, &prefix)
    }
}

/// The target triple that names the engine executable built for a platform, for the
/// platforms it is built for.
pub fn current_target_triple(os: HostOs, arch: HostArch) -> (r: Option<&'static str>)
    ensures
        match r {
            Some(t) => match (os, arch) {
                (HostOs::Windows, HostArch::X86_64) => t@ == "x86_64-pc-windows-msvc"@,
                (HostOs::Windows, HostArch::Aarch64) => t@ == "aarch64-pc-windows-msvc"@,
                (HostOs::MacOs, HostArch::X86_64) => t@ == "x86_64-apple-darwin"@,
                (HostOs::MacOs, HostArch::Aarch64) => t@ == "aarch64-apple-darwin"@,
                (HostOs::Linux, HostArch::X86_64) => t@ == "x86_64-unknown-linux-gnu"@,
                (HostOs::Linux, HostArch::Aarch64) => t@ == "aarch64-unknown-linux-gnu"@,
                _ => false,
            },
            None => os == HostOs::Other || arch == HostArch::Other,
        },
{
    match (os, arch) {
        (HostOs::Windows, HostArch::X86_64) => Some("x86_64-pc-windows-msvc"),
        (HostOs::Windows, HostArch::Aarch64) => Some("aarch64-pc-windows-msvc"),
        (HostOs::MacOs, HostArch::X86_64) => Some("x86_64-apple-darwin"),
        (HostOs::MacOs, HostArch::Aarch64) => Some("aarch64-apple-darwin"),
        (HostOs::Linux, HostArch::X86_64) => Some("x86_64-unknown-linux-gnu"),
        (HostOs::Linux, HostArch::Aarch64) => Some("aarch64-unknown-linux-gnu"),
        _ => None,
    }
}

/// The engine executable's file name on `os`.
pub fn sidecar_executable_filename(os: HostOs) -> (r: &'static str)
    ensures
        r@ == if os == HostOs::Windows {
            "tts-engine.exe"@
        } else {
            "tts-engine"@
        },
{
    if os == HostOs::Windows {
        "tts-engine.exe"
    } else {
        "tts-engine"
    }
}

/// A Windows path without its extended-length prefix: `\\?\UNC\server\share` becomes
/// `\\server\share` and `\\?\C:\x` becomes `C:\x`. Other systems' paths stay as they are.
pub open spec fn plain_windows_path(os: HostOs, p: Seq<char>) -> Seq<char> {
    if os == HostOs::Windows && starts_with(p, "\\\\?\\UNC\\"@) {
        "\\\\"@ + p.skip(8)
    } else if os == HostOs::Windows && starts_with(p, "\\\\?\\"@) {
        p.skip(4)
    } else {
        p
    }
}

fn tail_from(v: &Vec<char>, from: usize) -> (r: Vec<char>)
    requires
        from <= v@.len(),
    ensures
        r@ == v@.skip(from as int),
{
    let mut out: Vec<char> = Vec::new();
    let mut i: usize = from;
    while i < v.len()
        invariant
            from <= i <= v@.len(),
            out@ == v@.subrange(from as int, i as int),
        decreases v@.len() - i,
    {
        out.push(v[i]);
        assert(out@ =~= v@.subrange(from as int, i + 1));
        i = i + 1;
    }
    out
}

/// The path without a Windows extended-length prefix.
pub fn normalize_windows_extended_path(os: HostOs, path: &str) -> (r: String)
    ensures
        r@ == plain_windows_path(os, path@),
{
    let p = chars_of(path);
    if os == HostOs::Windows {
        let unc = chars_of("\\\\?\\UNC\\");
        let ext = chars_of("\\\\?\\");
        proof {
            reveal_strlit("\\\\?\\UNC\\");
            reveal_strlit("\\\\?\\");
            reveal_strlit("\\\\");
        }
        if prefix_is(&p, &unc) {
            let mut out: Vec<char> = Vec::new();
            out.push('\\');
            out.push('\\');
            let rest = tail_from(&p, 8);
            let mut i: usize = 0;
            while i < rest.len()
                invariant
                    i <= rest@.len(),
                    out@ == seq!['\\', '\\'] + rest@.take(i as int),
                decreases rest@.len() - i,
            {
                out.push(rest[i]);
                assert(out@ =~= seq!['\\', '\\'] + rest@.take(i + 1));
                i = i + 1;
            }
            assert(rest@.take(rest@.len() as int) =~= rest@);
            assert(out@ =~= "\\\\"@ + p@.skip(8));
            return string_of(&out);
        }
        if prefix_is(&p, &ext) {
            return string_of(&tail_from(&p, 4));
        }
    }
    string_of(&p)
}

/// The text that a command reports for a failure.
pub fn to_cmd_error(err: &EngineError) -> (r: String)
    ensures
        r@ == err.message@,
{
    err.message.clone()
}

/// Relies on `std::time::SystemTime::now`: the seconds since the Unix epoch, zero for a
/// clock set before it.
#[verifier::external_body]
fn unix_seconds_now() -> (r: u64) {
    std::time::SystemTime::now().duration_since(std::time::UNIX_EPOCH).unwrap_or_default().as_secs()
}

/// The time now as decimal seconds since the Unix epoch.
pub fn now_unix_timestamp_string() -> (r: String)
    ensures
        exists|secs: nat| r@ == crate::tempo::decimal(secs),
{
    let secs = unix_seconds_now();
    crate::tempo::decimal_string(secs as u128)
}

/// Playback settings: rate, pitch and volume in thousandths, and the chunk budget in
/// characters.
#[derive(Clone, Copy, PartialEq, Eq, Structural, Debug)]
pub struct SpeakSettings {
    pub rate: u32,
    pub pitch: u32,
    pub volume: u32,
    pub chunk_max_chars: u32,
}

fn settings_error(message: &str) -> (e: EngineError)
    ensures
        e.kind == ErrorKind::ConfigurationError,
        e.message@ == message@,
{
    EngineError { kind: ErrorKind::ConfigurationError, message: String::from_str(message) }
}

/// Playback settings as the user asks for them: rate within [0.25, 4], pitch within
/// [0.5, 2], volume within [0, 2] (all in thousandths) and a chunk budget within
/// [100, 2000] characters. The first setting out of range is refused with its message.
pub fn check_speak_settings(rate: u32, pitch: u32, volume: u32, chunk_max_chars: u32) -> (r: Result<
    SpeakSettings,
    EngineError,
>)
    ensures
        r is Ok <==> (250 <= rate <= 4000 && 500 <= pitch <= 2000 && volume <= 2000 && 100
            <= chunk_max_chars <= 2000),
        r matches Ok(s) ==> s == (SpeakSettings { rate, pitch, volume, chunk_max_chars }),
        r matches Err(e) ==> e.kind == ErrorKind::ConfigurationError && e.message@ == if !(250
            <= rate <= 4000) {
            "rate must be in [0.25, 4.0]"@
        } else if !(500 <= pitch <= 2000) {
            "pitch must be in [0.5, 2.0]"@
        } else if volume > 2000 {
            "volume must be in [0.0, 2.0]"@
        } else {
            "chunk_max_chars must be in [100, 2000]"@
        },
{
    if !(250 <= rate && rate <= 4000) {
        return Err(settings_error("rate must be in [0.25, 4.0]"));
    }
    if !(500 <= pitch && pitch <= 2000) {
        return Err(settings_error("pitch must be in [0.5, 2.0]"));
    }
    if volume > 2000 {
        return Err(settings_error("volume must be in [0.0, 2.0]"));
    }
    if !(100 <= chunk_max_chars && chunk_max_chars <= 2000) {
        return Err(settings_error("chunk_max_chars must be in [100, 2000]"));
    }
    Ok(SpeakSettings { rate, pitch, volume, chunk_max_chars })
}

} // verus!

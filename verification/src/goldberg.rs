//! Goldberg Steam emulator setup: emulator settings files, PE architecture
//! detection, which emulator files replace which, and the outcome reports.
use vstd::prelude::*;
use crate::text::{
    concat, concat3, decimal, decimal_string, has_substring, has_suffix, hex4_string,
    hex4_upper, lowercase, owned, remove_all, has_prefix, occurs_at, str_contains, str_ends_with, str_remove_all,
    to_lowercase,
};

verus! {

broadcast use vstd::string::group_string_axioms;

/// Goldberg emulator options.
#[derive(Debug, Clone)]
pub struct GoldbergConfig {
    pub account_name: String,
    pub steam_id: String,
    pub language: String,
    pub listen_port: u32,
    pub custom_broadcast_ip: Option<String>,
    pub disable_networking: bool,
    pub offline_mode: bool,
    pub enable_overlay: bool,
    pub use_experimental: bool,
    pub custom_save_location: Option<String>,
    pub generate_interfaces: bool,
    pub force_generate_all: bool,
}

impl Default for GoldbergConfig {
    fn default() -> (r: GoldbergConfig)
        ensures
            r.account_name@ == "Goldberg"@,
            r.steam_id@ == "76561197960287930"@,
            r.language@ == "english"@,
            r.listen_port == 47584,
            r.custom_broadcast_ip is None,
            !r.disable_networking,
            !r.offline_mode,
            !r.enable_overlay,
            !r.use_experimental,
            r.custom_save_location is None,
            !r.generate_interfaces,
            !r.force_generate_all,
    {
        GoldbergConfig {
            account_name: "Goldberg".to_string(),
            steam_id: "76561197960287930".to_string(),
            language: "english".to_string(),
            listen_port: 47584,
            custom_broadcast_ip: None,
            disable_networking: false,
            offline_mode: false,
            enable_overlay: false,
            use_experimental: false,
            custom_save_location: None,
            generate_interfaces: false,
            force_generate_all: false,
        }
    }
}

/// What applying the emulator to a game did.
#[derive(Debug, Clone)]
pub struct GoldbergApplyResult {
    pub success: bool,
    pub message: String,
    pub steam_api_files: Vec<String>,
    pub config_path: Option<String>,
    pub backups_created: Vec<String>,
}

/// The languages the emulator offers, in menu order.
pub open spec fn languages() -> Seq<Seq<char>> {
    seq![
        "english"@,
        "arabic"@,
        "bulgarian"@,
        "schinese"@,
        "tchinese"@,
        "czech"@,
        "danish"@,
        "dutch"@,
        "finnish"@,
        "french"@,
        "german"@,
        "greek"@,
        "hungarian"@,
        "indonesian"@,
        "italian"@,
        "japanese"@,
        "koreana"@,
        "latam"@,
        "norwegian"@,
        "polish"@,
        "portuguese"@,
        "brazilian"@,
        "romanian"@,
        "russian"@,
        "spanish"@,
        "swedish"@,
        "thai"@,
        "turkish"@,
        "ukrainian"@,
        "vietnamese"@,
    ]
}

/// The languages the emulator offers.
pub fn get_goldberg_languages() -> (r: Vec<String>)
    ensures
        r@.map_values(|s: String| s@) == languages(),
{
    let r = vec![
        "english".to_string(),
        "arabic".to_string(),
        "bulgarian".to_string(),
        "schinese".to_string(),
        "tchinese".to_string(),
        "czech".to_string(),
        "danish".to_string(),
        "dutch".to_string(),
        "finnish".to_string(),
        "french".to_string(),
        "german".to_string(),
        "greek".to_string(),
        "hungarian".to_string(),
        "indonesian".to_string(),
        "italian".to_string(),
        "japanese".to_string(),
        "koreana".to_string(),
        "latam".to_string(),
        "norwegian".to_string(),
        "polish".to_string(),
        "portuguese".to_string(),
        "brazilian".to_string(),
        "romanian".to_string(),
        "russian".to_string(),
        "spanish".to_string(),
        "swedish".to_string(),
        "thai".to_string(),
        "turkish".to_string(),
        "ukrainian".to_string(),
        "vietnamese".to_string(),
    ];
    assert(r@.map_values(|s: String| s@) =~= languages());
    r
}

// ---------------------------------------------------------------------------
// The steam_settings folder.
// ---------------------------------------------------------------------------

/// The files of a `steam_settings` folder.
#[derive(Debug)]
pub struct SteamSettingsFiles {
    /// `steam_appid.txt`
    pub steam_appid_txt: String,
    /// `configs.user.ini`
    pub configs_user_ini: String,
    /// `configs.main.ini`
    pub configs_main_ini: String,
    /// `custom_broadcasts.txt`, written only with a custom broadcast address.
    pub custom_broadcasts_txt: Option<String>,
    /// `configs.overlay.ini`, written only with the overlay enabled.
    pub configs_overlay_ini: Option<String>,
}

/// `1` for true, `0` for false.
pub open spec fn flag(b: bool) -> Seq<char> {
    if b {
        "1"@
    } else {
        "0"@
    }
}

/// The user settings file.
pub open spec fn user_ini(config: GoldbergConfig) -> Seq<char> {
    "[user::general]\naccount_name="@ + config.account_name@ + "\naccount_steamid="@
        + config.steam_id@ + "\nlanguage="@ + config.language@
        + "\nip_country=US\n\n[user::saves]\n"@ + match config.custom_save_location {
        Some(p) => "local_save_path="@ + p@,
        None => "# local_save_path="@,
    } + "\n"@
}

/// The connectivity settings file.
pub open spec fn main_ini(config: GoldbergConfig) -> Seq<char> {
    "[main::connectivity]\ndisable_networking="@ + flag(config.disable_networking)
        + "\nlisten_port="@ + decimal(config.listen_port as nat) + "\noffline="@ + flag(
        config.offline_mode,
    ) + "\n"@ + match config.custom_broadcast_ip {
        Some(_) => "# Custom broadcast will use custom_broadcasts.txt"@,
        None => seq![],
    } + "\n\n[main::general]\nenable_account_avatar=0\n"@
}

/// The overlay settings file.
pub open spec fn overlay_ini() -> Seq<char> {
    "[overlay::general]\nenable_experimental_overlay=1\n"@
}

fn flag_str(b: bool) -> (r: &'static str)
    ensures
        r@ == flag(b),
{
    if b {
        "1"
    } else {
        "0"
    }
}

/// The contents of the `steam_settings` files for `app_id` with `config`.
pub fn steam_settings_files(app_id: &str, config: &GoldbergConfig) -> (r: SteamSettingsFiles)
    ensures
        r.steam_appid_txt@ == app_id@,
        r.configs_user_ini@ == user_ini(*config),
        r.configs_main_ini@ == main_ini(*config),
        match config.custom_broadcast_ip {
            Some(ip) => r.custom_broadcasts_txt matches Some(t) && t@ == ip@,
            None => r.custom_broadcasts_txt is None,
        },
        r.configs_overlay_ini matches Some(t) ==> t@ == overlay_ini(),
        r.configs_overlay_ini is Some == config.enable_overlay,
{
    let mut user = "[user::general]\naccount_name=".to_string();
    user.append(config.account_name.as_str());
    user.append("\naccount_steamid=");
    user.append(config.steam_id.as_str());
    user.append("\nlanguage=");
    user.append(config.language.as_str());
    user.append("\nip_country=US\n\n[user::saves]\n");
    match &config.custom_save_location {
        Some(p) => {
            user.append("local_save_path=");
            user.append(p.as_str());
        },
        None => {
            user.append("# local_save_path=");
        },
    }
    user.append("\n");
    let mut main = "[main::connectivity]\ndisable_networking=".to_string();
    main.append(flag_str(config.disable_networking));
    main.append("\nlisten_port=");
    let port = decimal_string(config.listen_port as u64);
    main.append(port.as_str());
    main.append("\noffline=");
    main.append(flag_str(config.offline_mode));
    main.append("\n");
    if config.custom_broadcast_ip.is_some() {
        main.append("# Custom broadcast will use custom_broadcasts.txt");
    }
    main.append("\n\n[main::general]\nenable_account_avatar=0\n");
    let broadcasts = match &config.custom_broadcast_ip {
        Some(ip) => Some(ip.clone()),
        None => None,
    };
    let overlay = if config.enable_overlay {
        Some("[overlay::general]\nenable_experimental_overlay=1\n".to_string())
    } else {
        None
    };
    proof {
        assert(user@ =~= user_ini(*config));
        assert(main@ =~= main_ini(*config));
    }
    SteamSettingsFiles {
        steam_appid_txt: owned(app_id),
        configs_user_ini: user,
        configs_main_ini: main,
        custom_broadcasts_txt: broadcasts,
        configs_overlay_ini: overlay,
    }
}

// ---------------------------------------------------------------------------
// PE architecture detection.
// ---------------------------------------------------------------------------

/// A little-endian 32-bit value.
pub open spec fn le_u32(b0: u8, b1: u8, b2: u8, b3: u8) -> int {
    b0 + 256 * b1 + 65536 * b2 + 16777216 * b3
}

/// The architecture of a PE image ("x32" for i386, "x64" for AMD64) from its
/// MZ header, the PE header offset at 0x3C, the PE signature and the machine
/// field; or why it cannot be told.
pub open spec fn pe_architecture(data: Seq<u8>) -> Result<Seq<char>, Seq<char>> {
    if data.len() < 64 {
        Err("File too small to be a valid DLL"@)
    } else if data[0] != 77 || data[1] != 90 {
        Err("Not a valid PE file"@)
    } else {
        let off = le_u32(data[0x3C], data[0x3D], data[0x3E], data[0x3F]);
        if data.len() < off + 6 {
            Err("Invalid PE offset"@)
        } else if data[off] != 80 || data[off + 1] != 69 {
            Err("Invalid PE signature"@)
        } else {
            let machine = data[off + 4] + 256 * data[off + 5];
            if machine == 0x014c {
                Ok("x32"@)
            } else if machine == 0x8664 {
                Ok("x64"@)
            } else {
                Err("Unknown architecture: 0x"@ + hex4_upper(machine as u16))
            }
        }
    }
}

/// The architecture is read from the machine field of the PE header: an image
/// that starts with "MZ" and whose header offset (at 0x3C, little-endian)
/// points at "PE" is "x64" with machine bytes 0x64 0x86 (AMD64) and "x32" with
/// 0x4C 0x01 (i386); and an architecture is only ever given for such an image.
pub proof fn law_pe_machine_decides(data: Seq<u8>, off: int)
    ensures
        data.len() >= 64 && data[0] == 0x4D && data[1] == 0x5A && off == data[0x3C] + 256
            * data[0x3D] + 65536 * data[0x3E] + 16777216 * data[0x3F] && off + 6 <= data.len()
            && data[off] == 0x50 && data[off + 1] == 0x45 ==> {
            &&& (data[off + 4] == 0x64 && data[off + 5] == 0x86) ==> pe_architecture(data) == Ok::<
                Seq<char>,
                Seq<char>,
            >("x64"@)
            &&& (data[off + 4] == 0x4C && data[off + 5] == 0x01) ==> pe_architecture(data) == Ok::<
                Seq<char>,
                Seq<char>,
            >("x32"@)
        },
        pe_architecture(data) is Ok ==> {
            &&& data.len() >= 64
            &&& data[0] == 0x4D && data[1] == 0x5A
            &&& (pe_architecture(data) == Ok::<Seq<char>, Seq<char>>("x64"@)
                || pe_architecture(data) == Ok::<Seq<char>, Seq<char>>("x32"@))
        },
{
}

/// Tells whether a DLL image is 32-bit ("x32") or 64-bit ("x64").
pub fn detect_dll_architecture(data: &[u8]) -> (r: Result<String, String>)
    ensures
        match pe_architecture(data@) {
            Ok(a) => r matches Ok(s) && s@ == a,
            Err(e) => r matches Err(s) && s@ == e,
        },
{
    if data.len() < 64 {
        return Err("File too small to be a valid DLL".to_string());
    }
    if data[0] != 77 || data[1] != 90 {
        return Err("Not a valid PE file".to_string());
    }
    let pe_offset: u64 = data[0x3C] as u64 + 256 * (data[0x3D] as u64) + 65536 * (data[0x3E] as u64)
        + 16777216 * (data[0x3F] as u64);
    if (data.len() as u64) < pe_offset + 6 {
        return Err("Invalid PE offset".to_string());
    }
    let off = pe_offset as usize;
    if data[off] != 80 || data[off + 1] != 69 {
        return Err("Invalid PE signature".to_string());
    }
    let machine: u16 = data[off + 4] as u16 + 256 * (data[off + 5] as u16);
    if machine == 0x014c {
        Ok("x32".to_string())
    } else if machine == 0x8664 {
        Ok("x64".to_string())
    } else {
        Err(concat("Unknown architecture: 0x", hex4_string(machine).as_str()))
    }
}

// ---------------------------------------------------------------------------
// Which emulator files go where.
// ---------------------------------------------------------------------------

/// Whether a file is one of the Steam API DLLs the emulator replaces
/// (`steam_api.dll` or `steam_api64.dll`, in any letter case).
pub fn is_steam_api_dll(file_name: &str) -> (r: bool)
    ensures
        r == (lowercase(file_name@) == "steam_api.dll"@ || lowercase(file_name@)
            == "steam_api64.dll"@),
{
    let lower = to_lowercase(file_name);
    lower == "steam_api.dll".to_string() || lower == "steam_api64.dll".to_string()
}

/// The emulator build used: "experimental" or "regular".
pub open spec fn variant_name(use_experimental: bool) -> Seq<char> {
    if use_experimental {
        "experimental"@
    } else {
        "regular"@
    }
}

/// The emulator build used (see `variant_name`).
pub fn emulator_variant(use_experimental: bool) -> (r: &'static str)
    ensures
        r@ == variant_name(use_experimental),
{
    if use_experimental {
        "experimental"
    } else {
        "regular"
    }
}

/// The emulator DLL that replaces a game's Steam API DLL: the 64-bit one when
/// the (lower-cased) name mentions "64".
pub open spec fn emulator_dll(file_name: Seq<char>) -> Seq<char> {
    if has_substring(lowercase(file_name), "64"@) {
        "steam_api64.dll"@
    } else {
        "steam_api.dll"@
    }
}

/// The emulator DLL that replaces a game's Steam API DLL (see `emulator_dll`).
pub fn emulator_dll_name(file_name: &str) -> (r: &'static str)
    ensures
        r@ == emulator_dll(file_name@),
{
    let lower = to_lowercase(file_name);
    if str_contains(lower.as_str(), "64") {
        "steam_api64.dll"
    } else {
        "steam_api.dll"
    }
}

/// The steamclient DLL for an architecture.
pub open spec fn steamclient_dll(arch: Seq<char>) -> Seq<char> {
    if arch == "x64"@ {
        "steamclient64.dll"@
    } else {
        "steamclient.dll"@
    }
}

/// The steamclient DLL for an architecture (see `steamclient_dll`).
pub fn steamclient_dll_name(arch: &str) -> (r: &'static str)
    ensures
        r@ == steamclient_dll(arch@),
{
    if owned(arch) == "x64".to_string() {
        "steamclient64.dll"
    } else {
        "steamclient.dll"
    }
}

/// The interface generator tool for an architecture.
pub fn interface_generator_name(arch: &str) -> (r: &'static str)
    ensures
        r@ == if arch@ == "x64"@ {
            "generate_interfaces_x64.exe"@
        } else {
            "generate_interfaces_x32.exe"@
        },
{
    if owned(arch) == "x64".to_string() {
        "generate_interfaces_x64.exe"
    } else {
        "generate_interfaces_x32.exe"
    }
}

/// Where the emulator release folder is looked for, in order.
pub fn emulator_candidates() -> (r: Vec<&'static str>)
    ensures
        r@.map_values(|s: &str| s@) == seq![
            "emu-win-release/release"@,
            "../emu-win-release/release"@,
            "gbe_fork/release"@,
        ],
{
    let r = vec!["emu-win-release/release", "../emu-win-release/release", "gbe_fork/release"];
    assert(r@.map_values(|s: &str| s@) =~= seq![
        "emu-win-release/release"@,
        "../emu-win-release/release"@,
        "gbe_fork/release"@,
    ]);
    r
}

// ---------------------------------------------------------------------------
// Outcome reports.
// ---------------------------------------------------------------------------

/// `parts` joined with `sep`.
pub open spec fn join(parts: Seq<Seq<char>>, sep: Seq<char>) -> Seq<char>
    decreases parts.len(),
{
    if parts.len() == 0 {
        seq![]
    } else if parts.len() == 1 {
        parts[0]
    } else {
        join(parts.drop_last(), sep) + sep + parts.last()
    }
}

/// The strings joined with `sep`.
pub fn join_strings(parts: &[String], sep: &str) -> (r: String)
    ensures
        r@ == join(parts@.map_values(|s: String| s@), sep@),
{
    let ghost ps = parts@.map_values(|s: String| s@);
    let mut out = String::new();
    let mut i: usize = 0;
    while i < parts.len()
        invariant
            i <= parts.len(),
            ps == parts@.map_values(|s: String| s@),
            out@ == join(ps.take(i as int), sep@),
        decreases parts.len() - i,
    {
        proof {
            assert(ps.take(i + 1).drop_last() =~= ps.take(i as int));
        }
        if i > 0 {
            out.append(sep);
        }
        out.append(parts[i].as_str());
        proof {
            if i == 0 {
                assert(ps.take(1) =~= seq![ps[0]]);
                assert(out@ =~= join(ps.take(1), sep@));
            }
        }
        i += 1;
    }
    proof {
        assert(ps.take(parts.len() as int) =~= ps);
    }
    out
}

/// The report message after applying the emulator.
pub open spec fn apply_message(file_count: nat, errors: Seq<Seq<char>>) -> Seq<char> {
    if file_count > 0 && errors.len() == 0 {
        "Successfully applied Goldberg Emulator to "@ + decimal(file_count) + " file(s)"@
    } else if file_count > 0 {
        "Applied with warnings: "@ + decimal(file_count) + ". Errors: "@ + join(errors, ", "@)
    } else {
        "Failed: "@ + join(errors, ", "@)
    }
}

/// The report after applying the emulator: successful when some DLL was
/// replaced and nothing failed.
pub fn apply_report(
    steam_api_files: Vec<String>,
    backups_created: Vec<String>,
    errors: &[String],
    config_path: Option<String>,
) -> (r: GoldbergApplyResult)
    ensures
        r.success == (steam_api_files@.len() > 0 && errors@.len() == 0),
        r.message@ == apply_message(
            steam_api_files@.len(),
            errors@.map_values(|s: String| s@),
        ),
        r.steam_api_files@ == steam_api_files@,
        r.backups_created@ == backups_created@,
        r.config_path == config_path,
{
    let n = steam_api_files.len();
    let success = n > 0 && errors.len() == 0;
    let message = if success {
        let count = decimal_string(n as u64);
        concat3("Successfully applied Goldberg Emulator to ", count.as_str(), " file(s)")
    } else if n > 0 {
        let count = decimal_string(n as u64);
        let joined = join_strings(errors, ", ");
        let mut m = concat3("Applied with warnings: ", count.as_str(), ". Errors: ");
        m.append(joined.as_str());
        m
    } else {
        let joined = join_strings(errors, ", ");
        concat("Failed: ", joined.as_str())
    };
    GoldbergApplyResult { success, message, steam_api_files, config_path, backups_created }
}

/// The report when the emulator could not be applied at all.
pub fn apply_failure(message: String) -> (r: GoldbergApplyResult)
    ensures
        !r.success,
        r.message@ == message@,
        r.steam_api_files@.len() == 0,
        r.backups_created@.len() == 0,
        r.config_path is None,
{
    GoldbergApplyResult {
        success: false,
        message,
        steam_api_files: Vec::new(),
        config_path: None,
        backups_created: Vec::new(),
    }
}

// ---------------------------------------------------------------------------
// Applying the emulator, one Steam API DLL at a time.
// ---------------------------------------------------------------------------

/// What the file work reports while the emulator is applied.
pub enum ApplyEvent {
    /// The architecture of the DLL at hand could not be read (the error).
    ArchitectureFailed(String),
    /// The DLL at hand: its file name and its architecture.
    ArchitectureFound(String, String),
    /// A backup of the DLL was written (the backup's path).
    BackupCreated(String),
    /// No backup could be written; the work goes on without one.
    BackupFailed,
    /// The emulator DLL to copy does not exist (its path as shown).
    EmulatorMissing(String),
    /// Copying the emulator DLL over the game's failed (the error).
    CopyFailed(String),
    /// The emulator DLL replaced the game's (the game DLL's path).
    Replaced(String),
}

/// The file work to do next.
pub enum ApplyAction {
    /// Go on with the next DLL (or finish when there is none).
    NextDll,
    /// Back up the DLL at hand.
    MakeBackup,
    /// Copy `<emulator>/<variant>/<arch>/<dll_name>` over the DLL at hand.
    CopyEmulator { variant: &'static str, arch: String, dll_name: &'static str },
    /// Copy the steamclient DLL when named, generate the interfaces file when
    /// asked (failures there are only warnings), then go on with the next DLL.
    CopyExtras { arch: String, steamclient: Option<&'static str>, interfaces: bool },
}

/// An action as values.
pub enum ActionView {
    NextDll,
    MakeBackup,
    CopyEmulator { variant: Seq<char>, arch: Seq<char>, dll_name: Seq<char> },
    CopyExtras { arch: Seq<char>, steamclient: Option<Seq<char>>, interfaces: bool },
}

impl View for ApplyAction {
    type V = ActionView;

    open spec fn view(&self) -> ActionView {
        match self {
            ApplyAction::NextDll => ActionView::NextDll,
            ApplyAction::MakeBackup => ActionView::MakeBackup,
            ApplyAction::CopyEmulator { variant, arch, dll_name } => ActionView::CopyEmulator {
                variant: variant@,
                arch: arch@,
                dll_name: dll_name@,
            },
            ApplyAction::CopyExtras { arch, steamclient, interfaces } => ActionView::CopyExtras {
                arch: arch@,
                steamclient: match steamclient {
                    Some(n) => Some(n@),
                    None => None,
                },
                interfaces: *interfaces,
            },
        }
    }
}

/// What has been done so far while applying the emulator, and the DLL at hand.
pub struct ApplyProgress {
    pub use_experimental: bool,
    pub generate_interfaces: bool,
    pub steam_api_files: Vec<String>,
    pub backups_created: Vec<String>,
    pub errors: Vec<String>,
    pub arch: String,
    pub dll_file: String,
}

/// The progress as values.
pub struct ProgressView {
    pub use_experimental: bool,
    pub generate_interfaces: bool,
    pub files: Seq<Seq<char>>,
    pub backups: Seq<Seq<char>>,
    pub errors: Seq<Seq<char>>,
    pub arch: Seq<char>,
    pub dll_file: Seq<char>,
}

/// The characters of each string.
pub open spec fn strings_of(v: Seq<String>) -> Seq<Seq<char>> {
    v.map_values(|s: String| s@)
}

impl View for ApplyProgress {
    type V = ProgressView;

    open spec fn view(&self) -> ProgressView {
        ProgressView {
            use_experimental: self.use_experimental,
            generate_interfaces: self.generate_interfaces,
            files: strings_of(self.steam_api_files@),
            backups: strings_of(self.backups_created@),
            errors: strings_of(self.errors@),
            arch: self.arch@,
            dll_file: self.dll_file@,
        }
    }
}

/// Nothing done yet.
pub open spec fn start_progress(use_experimental: bool, generate_interfaces: bool) -> ProgressView {
    ProgressView {
        use_experimental,
        generate_interfaces,
        files: seq![],
        backups: seq![],
        errors: seq![],
        arch: seq![],
        dll_file: seq![],
    }
}

/// The progress after an event: errors are collected, a backup is recorded
/// when written, and a DLL counts as replaced only once its copy succeeded.
pub open spec fn apply_next(v: ProgressView, e: ApplyEvent) -> ProgressView {
    match e {
        ApplyEvent::ArchitectureFailed(err) => ProgressView { errors: v.errors.push(err@), ..v },
        ApplyEvent::ArchitectureFound(file, arch) => ProgressView {
            arch: arch@,
            dll_file: file@,
            ..v
        },
        ApplyEvent::BackupCreated(path) => ProgressView { backups: v.backups.push(path@), ..v },
        ApplyEvent::BackupFailed => v,
        ApplyEvent::EmulatorMissing(source) => ProgressView {
            errors: v.errors.push("Emulator DLL not found: "@ + source@),
            ..v
        },
        ApplyEvent::CopyFailed(err) => ProgressView {
            errors: v.errors.push("Failed to copy emulator: "@ + err@),
            ..v
        },
        ApplyEvent::Replaced(path) => ProgressView { files: v.files.push(path@), ..v },
    }
}

/// The work after an event: a failure moves on to the next DLL, a known
/// architecture asks for a backup, the backup (made or not) is followed by the
/// emulator copy, and a replaced DLL gets its extras.
pub open spec fn apply_action(v: ProgressView, e: ApplyEvent) -> ActionView {
    match e {
        ApplyEvent::ArchitectureFailed(_) => ActionView::NextDll,
        ApplyEvent::ArchitectureFound(_, _) => ActionView::MakeBackup,
        ApplyEvent::BackupCreated(_) | ApplyEvent::BackupFailed => ActionView::CopyEmulator {
            variant: variant_name(v.use_experimental),
            arch: v.arch,
            dll_name: emulator_dll(v.dll_file),
        },
        ApplyEvent::EmulatorMissing(_) | ApplyEvent::CopyFailed(_) => ActionView::NextDll,
        ApplyEvent::Replaced(_) => ActionView::CopyExtras {
            arch: v.arch,
            steamclient: if v.use_experimental {
                Some(steamclient_dll(v.arch))
            } else {
                None
            },
            interfaces: v.generate_interfaces,
        },
    }
}

/// The errors once the steam_settings outcome is known: its error, if any,
/// is added to the others.
pub open spec fn final_errors(v: ProgressView, settings: Option<Result<String, String>>) -> Seq<
    Seq<char>,
> {
    match settings {
        Some(Err(e)) => v.errors.push(e@),
        _ => v.errors,
    }
}

impl ApplyProgress {
    /// The progress before the first DLL, for a configuration.
    pub fn new(config: &GoldbergConfig) -> (r: ApplyProgress)
        ensures
            r@ == start_progress(config.use_experimental, config.generate_interfaces),
    {
        let r = ApplyProgress {
            use_experimental: config.use_experimental,
            generate_interfaces: config.generate_interfaces,
            steam_api_files: Vec::new(),
            backups_created: Vec::new(),
            errors: Vec::new(),
            arch: String::new(),
            dll_file: String::new(),
        };
        assert(r@.files =~= seq![]);
        assert(r@.backups =~= seq![]);
        assert(r@.errors =~= seq![]);
        r
    }

    /// Takes in what the file work reported and says what to do next.
    pub fn step(&mut self, event: ApplyEvent) -> (action: ApplyAction)
        ensures
            final(self)@ == apply_next(old(self)@, event),
            action@ == apply_action(old(self)@, event),
    {
        match event {
            ApplyEvent::ArchitectureFailed(err) => {
                self.errors.push(err);
                assert(self@.errors =~= old(self)@.errors.push(err@));
                ApplyAction::NextDll
            },
            ApplyEvent::ArchitectureFound(file, arch) => {
                self.arch = arch;
                self.dll_file = file;
                ApplyAction::MakeBackup
            },
            ApplyEvent::BackupCreated(path) => {
                self.backups_created.push(path);
                assert(self@.backups =~= old(self)@.backups.push(path@));
                self.copy_emulator()
            },
            ApplyEvent::BackupFailed => self.copy_emulator(),
            ApplyEvent::EmulatorMissing(source) => {
                let err = concat("Emulator DLL not found: ", source.as_str());
                self.errors.push(err);
                assert(self@.errors =~= old(self)@.errors.push("Emulator DLL not found: "@ + source@));
                ApplyAction::NextDll
            },
            ApplyEvent::CopyFailed(e) => {
                let err = concat("Failed to copy emulator: ", e.as_str());
                self.errors.push(err);
                assert(self@.errors =~= old(self)@.errors.push("Failed to copy emulator: "@ + e@));
                ApplyAction::NextDll
            },
            ApplyEvent::Replaced(path) => {
                self.steam_api_files.push(path);
                assert(self@.files =~= old(self)@.files.push(path@));
                let steamclient = if self.use_experimental {
                    Some(steamclient_dll_name(self.arch.as_str()))
                } else {
                    None
                };
                ApplyAction::CopyExtras {
                    arch: owned(self.arch.as_str()),
                    steamclient,
                    interfaces: self.generate_interfaces,
                }
            },
        }
    }

    /// The emulator copy for the DLL at hand.
    fn copy_emulator(&self) -> (action: ApplyAction)
        ensures
            action@ == (ActionView::CopyEmulator {
                variant: variant_name(self.use_experimental),
                arch: self.arch@,
                dll_name: emulator_dll(self.dll_file@),
            }),
    {
        ApplyAction::CopyEmulator {
            variant: emulator_variant(self.use_experimental),
            arch: owned(self.arch.as_str()),
            dll_name: emulator_dll_name(self.dll_file.as_str()),
        }
    }

    /// The report once every DLL is done and steam_settings was written
    /// (`Some(Ok(path))`), failed (`Some(Err(error))`), or had no folder
    /// (`None`).
    pub fn finish(self, settings: Option<Result<String, String>>) -> (r: GoldbergApplyResult)
        ensures
            r.success == (self@.files.len() > 0 && final_errors(self@, settings).len() == 0),
            r.message@ == apply_message(self@.files.len(), final_errors(self@, settings)),
            strings_of(r.steam_api_files@) == self@.files,
            strings_of(r.backups_created@) == self@.backups,
            r.config_path == match settings {
                Some(Ok(p)) => Some(p),
                _ => None::<String>,
            },
    {
        let ghost v = self@;
        let mut errors = self.errors;
        let config_path = match settings {
            Some(Ok(p)) => Some(p),
            Some(Err(e)) => {
                errors.push(e);
                assert(strings_of(errors@) =~= v.errors.push(e@));
                None
            },
            None => None,
        };
        apply_report(self.steam_api_files, self.backups_created, &errors, config_path)
    }
}

/// Each step keeps what was recorded before it: a DLL is added to the replaced
/// ones exactly on a successful copy, an error exactly on a failed step, a
/// backup exactly when one was written, each at the end and one at a time.
pub proof fn law_apply_step_records(v: ProgressView, e: ApplyEvent)
    ensures
        apply_next(v, e).files.len() == v.files.len() + if e is Replaced {
            1int
        } else {
            0int
        },
        apply_next(v, e).errors.len() == v.errors.len() + if e is ArchitectureFailed
            || e is EmulatorMissing || e is CopyFailed {
            1int
        } else {
            0int
        },
        apply_next(v, e).backups.len() == v.backups.len() + if e is BackupCreated {
            1int
        } else {
            0int
        },
        apply_next(v, e).files.take(v.files.len() as int) == v.files,
        apply_next(v, e).errors.take(v.errors.len() as int) == v.errors,
        apply_next(v, e).backups.take(v.backups.len() as int) == v.backups,
{
    assert(apply_next(v, e).files.take(v.files.len() as int) =~= v.files);
    assert(apply_next(v, e).errors.take(v.errors.len() as int) =~= v.errors);
    assert(apply_next(v, e).backups.take(v.backups.len() as int) =~= v.backups);
}

/// The progress after a run of events, from `v`.
pub open spec fn apply_run(v: ProgressView, events: Seq<ApplyEvent>) -> ProgressView
    decreases events.len(),
{
    if events.len() == 0 {
        v
    } else {
        apply_next(apply_run(v, events.drop_last()), events.last())
    }
}

/// Steps never change the configuration they started with.
proof fn lemma_run_keeps_config(v: ProgressView, events: Seq<ApplyEvent>)
    ensures
        apply_run(v, events).use_experimental == v.use_experimental,
        apply_run(v, events).generate_interfaces == v.generate_interfaces,
    decreases events.len(),
{
    if events.len() > 0 {
        lemma_run_keeps_config(v, events.drop_last());
    }
}

/// Whatever happened to earlier DLLs, the work asked for follows the
/// configuration the run started with (`ApplyProgress::new`): a replaced DLL
/// gets the interfaces file exactly when it was asked for, and a steamclient
/// DLL exactly with the experimental build (the 64-bit one for x64); the
/// emulator copy for a DLL comes from the configured build, for the
/// architecture found for that DLL, and is the 64-bit DLL exactly when the
/// lower-cased file name mentions "64".
pub proof fn law_apply_follows_config(
    use_experimental: bool,
    generate_interfaces: bool,
    events: Seq<ApplyEvent>,
    file_name: String,
    arch: String,
    backup: ApplyEvent,
    path: String,
)
    requires
        backup is BackupCreated || backup is BackupFailed,
    ensures
        ({
            let v = apply_run(start_progress(use_experimental, generate_interfaces), events);
            let found = apply_next(v, ApplyEvent::ArchitectureFound(file_name, arch));
            let copied = apply_next(found, backup);
            &&& apply_action(v, ApplyEvent::ArchitectureFound(file_name, arch)) == ActionView::MakeBackup
            &&& apply_action(found, backup) == ActionView::CopyEmulator {
                variant: if use_experimental {
                    "experimental"@
                } else {
                    "regular"@
                },
                arch: arch@,
                dll_name: if has_substring(lowercase(file_name@), "64"@) {
                    "steam_api64.dll"@
                } else {
                    "steam_api.dll"@
                },
            }
            &&& apply_action(copied, ApplyEvent::Replaced(path)) == ActionView::CopyExtras {
                arch: arch@,
                steamclient: if use_experimental {
                    Some(
                        if arch@ == "x64"@ {
                            "steamclient64.dll"@
                        } else {
                            "steamclient.dll"@
                        },
                    )
                } else {
                    None
                },
                interfaces: generate_interfaces,
            }
        }),
{
    lemma_run_keeps_config(start_progress(use_experimental, generate_interfaces), events);
}

/// What a step records is what the file work reported: an unreadable
/// architecture's error, a missing emulator DLL's path and a failed copy's
/// error become the last error; a written backup becomes the last backup; a
/// replaced DLL the last replaced file.
pub proof fn law_apply_records_reports(v: ProgressView, text: String)
    ensures
        apply_next(v, ApplyEvent::ArchitectureFailed(text)).errors == v.errors.push(text@),
        apply_next(v, ApplyEvent::EmulatorMissing(text)).errors == v.errors.push(
            "Emulator DLL not found: "@ + text@,
        ),
        apply_next(v, ApplyEvent::CopyFailed(text)).errors == v.errors.push(
            "Failed to copy emulator: "@ + text@,
        ),
        apply_next(v, ApplyEvent::BackupCreated(text)).backups == v.backups.push(text@),
        apply_next(v, ApplyEvent::Replaced(text)).files == v.files.push(text@),
        apply_next(v, ApplyEvent::Replaced(text)).errors == v.errors,
        apply_next(v, ApplyEvent::BackupFailed) == v,
{
}

/// The settings files carry the configuration: the user file has the lines
/// `account_name=`, `account_steamid=` and `language=` with the configured
/// name, Steam id and language, and the connectivity file the lines
/// `disable_networking=`, `listen_port=` and `offline=` with the configured
/// values.
pub proof fn law_settings_hold_config(config: GoldbergConfig)
    ensures
        has_substring(user_ini(config), "\naccount_name="@ + config.account_name@ + "\n"@),
        has_substring(user_ini(config), "\naccount_steamid="@ + config.steam_id@ + "\n"@),
        has_substring(user_ini(config), "\nlanguage="@ + config.language@ + "\n"@),
        has_substring(
            main_ini(config),
            "\ndisable_networking="@ + (if config.disable_networking {
                "1"@
            } else {
                "0"@
            }) + "\n"@,
        ),
        has_substring(main_ini(config), "\nlisten_port="@ + decimal(config.listen_port as nat) + "\n"@),
        has_substring(
            main_ini(config),
            "\noffline="@ + (if config.offline_mode {
                "1"@
            } else {
                "0"@
            }) + "\n"@,
        ),
{
    reveal_strlit("[user::general]\naccount_name=");
    reveal_strlit("\naccount_name=");
    reveal_strlit("\naccount_steamid=");
    reveal_strlit("\nlanguage=");
    reveal_strlit("\nip_country=US\n\n[user::saves]\n");
    reveal_strlit("\n");
    reveal_strlit("[main::connectivity]\ndisable_networking=");
    reveal_strlit("\ndisable_networking=");
    reveal_strlit("\nlisten_port=");
    reveal_strlit("\noffline=");
    reveal_strlit("1");
    reveal_strlit("0");
    let u = user_ini(config);
    let name = config.account_name@;
    let id = config.steam_id@;
    let lang = config.language@;
    let x1 = "\naccount_name="@ + name + "\n"@;
    let i1: int = 15;
    assert(u.subrange(i1, i1 + x1.len()) =~= x1);
    assert(occurs_at(u, x1, i1));
    let x2 = "\naccount_steamid="@ + id + "\n"@;
    let i2: int = 29 + name.len() as int;
    assert(u.subrange(i2, i2 + x2.len()) =~= x2);
    assert(occurs_at(u, x2, i2));
    let x3 = "\nlanguage="@ + lang + "\n"@;
    let i3: int = 46 + name.len() as int + id.len() as int;
    assert(u.subrange(i3, i3 + x3.len()) =~= x3);
    assert(occurs_at(u, x3, i3));
    let m = main_ini(config);
    let d = flag(config.disable_networking);
    let port = decimal(config.listen_port as nat);
    let x4 = "\ndisable_networking="@ + d + "\n"@;
    let i4: int = 20;
    assert(m.subrange(i4, i4 + x4.len()) =~= x4);
    assert(occurs_at(m, x4, i4));
    let x5 = "\nlisten_port="@ + port + "\n"@;
    let i5: int = 40 + d.len() as int;
    assert(m.subrange(i5, i5 + x5.len()) =~= x5);
    assert(occurs_at(m, x5, i5));
    let x6 = "\noffline="@ + flag(config.offline_mode) + "\n"@;
    let i6: int = 53 + d.len() as int + port.len() as int;
    assert(m.subrange(i6, i6 + x6.len()) =~= x6);
    assert(occurs_at(m, x6, i6));
}

/// What generating the crack-only files copies for one Steam API DLL.
pub struct CrackCopy {
    /// The emulator build folder ("experimental" or "regular").
    pub variant: &'static str,
    /// The emulator DLL copied to the output folder.
    pub dll_name: &'static str,
    /// The steamclient DLL copied too, with the experimental build.
    pub steamclient: Option<&'static str>,
}

/// The crack-only copy for a DLL with file name `file_name` and architecture
/// `arch`.
pub fn crack_copy_plan(use_experimental: bool, file_name: &str, arch: &str) -> (r: CrackCopy)
    ensures
        r.variant@ == variant_name(use_experimental),
        r.dll_name@ == emulator_dll(file_name@),
        match r.steamclient {
            Some(n) => use_experimental && n@ == steamclient_dll(arch@),
            None => !use_experimental,
        },
{
    CrackCopy {
        variant: emulator_variant(use_experimental),
        dll_name: emulator_dll_name(file_name),
        steamclient: if use_experimental {
            Some(steamclient_dll_name(arch))
        } else {
            None
        },
    }
}

// ---------------------------------------------------------------------------
// Restoring the original DLLs.
// ---------------------------------------------------------------------------

/// Whether a file is a backup of an original DLL.
pub fn is_backup_name(file_name: &str) -> (r: bool)
    ensures
        r == has_suffix(file_name@, ".dll.original"@),
{
    str_ends_with(file_name, ".dll.original")
}

/// The name an original DLL is restored under: the backup name without ".original".
pub fn restored_name(backup_name: &str) -> (r: String)
    ensures
        r@ == remove_all(backup_name@, ".original"@),
{
    str_remove_all(backup_name, ".original")
}

/// The report after restoring originals.
pub fn restored_message(count: u64) -> (r: String)
    ensures
        r@ == "Restored "@ + decimal(count as nat) + " original file(s)"@,
{
    let n = decimal_string(count);
    concat3("Restored ", n.as_str(), " original file(s)")
}

proof fn lemma_remove_suffix(x: Seq<char>, p: Seq<char>)
    requires
        p == ".original"@,
        !has_substring(x, p),
    ensures
        remove_all(x + p, p) == x,
    decreases x.len(),
{
    reveal_strlit(".original");
    let s = x + p;
    if x.len() == 0 {
        assert(s =~= p);
        assert(has_prefix(s, p)) by {
            assert(s.subrange(0, p.len() as int) =~= p);
        }
        assert(s.subrange(p.len() as int, s.len() as int) =~= Seq::<char>::empty());
        assert(remove_all(Seq::<char>::empty(), p) == Seq::<char>::empty());
    } else {
        assert(!has_prefix(s, p)) by {
            if has_prefix(s, p) {
                if x.len() >= p.len() {
                    assert(x.subrange(0, p.len() as int) =~= s.subrange(0, p.len() as int));
                    assert(occurs_at(x, p, 0));
                } else {
                    let k = x.len() as int;
                    assert(s[k] == p[0]);
                    assert(s.subrange(0, p.len() as int)[k] == p[k]);
                    assert(p[k] != '.');
                }
            }
        }
        let t = x.drop_first();
        assert(!has_substring(t, p)) by {
            if has_substring(t, p) {
                let i = choose|i: int| occurs_at(t, p, i);
                assert(x.subrange(i + 1, i + 1 + p.len()) =~= t.subrange(i, i + p.len()));
                assert(occurs_at(x, p, i + 1));
            }
        }
        lemma_remove_suffix(t, p);
        assert(s.drop_first() =~= t + p);
        assert(seq![s[0]] + t =~= x);
    }
}

/// Restoring a backup gives back the name of the DLL it was made from: the
/// backup of `name` is `name` followed by ".original", and restoring it
/// removes that suffix again (for names that do not themselves hold ".original").
pub proof fn law_restore_undoes_backup_name(name: Seq<char>)
    requires
        !has_substring(name, ".original"@),
    ensures
        remove_all(name + ".original"@, ".original"@) == name,
{
    lemma_remove_suffix(name, ".original"@);
}

} // verus!

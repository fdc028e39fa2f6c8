use vstd::prelude::*;

use crate::setup::SetupSettings;
use crate::steam::dotted_quad;
use crate::text::{chars_of, decimal, decimal_chars, push_all, push_str, string_from_chars};

verus! {

broadcast use vstd::std_specs::vec::group_vec_axioms;

/// What the interface shows: the current phase, its message, the setup
/// steps completed, and where the proxy listens or the export went.
#[derive(Debug, Clone)]
pub struct StatusSnapshot {
    pub phase: String,
    pub message: String,
    pub certificate_setup_completed: bool,
    pub windows_certificate_setup_completed: bool,
    pub proxy_setup_completed: bool,
    pub local_ip: Option<String>,
    pub port: Option<u16>,
    pub certificate_url: Option<String>,
    pub certificate_was_created: bool,
    pub export_path: Option<String>,
    pub profile_name: Option<String>,
}

pub open spec fn idle_message() -> Seq<char> {
    "Préparez le proxy Wi‑Fi de votre appareil Apple pour commencer."@
}

pub open spec fn captured_message() -> Seq<char> {
    "Le JSON a été créé."@
}

pub open spec fn proxy_error_prefix() -> Seq<char> {
    "Le proxy s'est arrêté : "@
}

pub open spec fn opt_str(o: Option<String>) -> Option<Seq<char>> {
    match o {
        Some(s) => Some(s@),
        None => None,
    }
}

/// The settings that a snapshot shows.
pub open spec fn shows_settings(s: StatusSnapshot, settings: SetupSettings) -> bool {
    &&& s.certificate_setup_completed == settings.certificate_setup_completed
    &&& s.windows_certificate_setup_completed == settings.windows_certificate_setup_completed
    &&& s.proxy_setup_completed == settings.proxy_setup_completed
}

/// The idle snapshot: nothing listens, nothing exported.
pub open spec fn is_idle_snapshot(s: StatusSnapshot, settings: SetupSettings) -> bool {
    &&& s.phase@ == "idle"@
    &&& s.message@ == idle_message()
    &&& shows_settings(s, settings)
    &&& s.local_ip is None
    &&& s.port is None
    &&& s.certificate_url is None
    &&& !s.certificate_was_created
    &&& s.export_path is None
    &&& s.profile_name is None
}

impl StatusSnapshot {
    /// The snapshot before anything starts.
    pub fn idle(settings: SetupSettings) -> (r: StatusSnapshot)
        ensures
            is_idle_snapshot(r, settings),
    {
        StatusSnapshot {
            phase: String::from_str("idle"),
            message: String::from_str("Préparez le proxy Wi‑Fi de votre appareil Apple pour commencer."),
            certificate_setup_completed: settings.certificate_setup_completed,
            windows_certificate_setup_completed: settings.windows_certificate_setup_completed,
            proxy_setup_completed: settings.proxy_setup_completed,
            local_ip: None,
            port: None,
            certificate_url: None,
            certificate_was_created: false,
            export_path: None,
            profile_name: None,
        }
    }
}

/// Records a written export: the phase becomes `captured` and the snapshot
/// shows the file and the account; the rest is kept.
pub fn record_export(status: &mut StatusSnapshot, path: String, display_name: String)
    ensures
        final(status).phase@ == "captured"@,
        final(status).message@ == captured_message(),
        opt_str(final(status).export_path) == Some(path@),
        opt_str(final(status).profile_name) == Some(display_name@),
        shows_settings(*final(status), SetupSettings {
            certificate_setup_completed: old(status).certificate_setup_completed,
            windows_certificate_setup_completed: old(status).windows_certificate_setup_completed,
            proxy_setup_completed: old(status).proxy_setup_completed,
        }),
        final(status).local_ip == old(status).local_ip,
        final(status).port == old(status).port,
        final(status).certificate_url == old(status).certificate_url,
        final(status).certificate_was_created == old(status).certificate_was_created,
{
    status.phase = String::from_str("captured");
    status.message = String::from_str("Le JSON a été créé.");
    status.export_path = Some(path);
    status.profile_name = Some(display_name);
}

/// Records that the proxy stopped on `error`, unless an export was already
/// captured: a capture is never hidden by a later proxy failure.
pub fn record_proxy_error(status: &mut StatusSnapshot, error: &str)
    ensures
        old(status).phase@ == "captured"@ ==> final(status).phase@ == old(status).phase@
            && final(status).message@ == old(status).message@,
        old(status).phase@ != "captured"@ ==> final(status).phase@ == "error"@
            && final(status).message@ == proxy_error_prefix() + error@,
        final(status).export_path == old(status).export_path,
        final(status).profile_name == old(status).profile_name,
        final(status).certificate_setup_completed == old(status).certificate_setup_completed,
        final(status).windows_certificate_setup_completed == old(status).windows_certificate_setup_completed,
        final(status).proxy_setup_completed == old(status).proxy_setup_completed,
        final(status).local_ip == old(status).local_ip,
        final(status).port == old(status).port,
        final(status).certificate_url == old(status).certificate_url,
        final(status).certificate_was_created == old(status).certificate_was_created,
{
    let captured = String::from_str("captured");
    if status.phase != captured {
        status.phase = String::from_str("error");
        let mut message = chars_of("Le proxy s'est arrêté : ");
        push_str(&mut message, error);
        status.message = string_from_chars(&message);
    }
}

/// The snapshot that the interface asks for: the current one with the
/// settings as stored, and the idle message while idle.
pub fn refresh_status(status: StatusSnapshot, settings: SetupSettings) -> (r: StatusSnapshot)
    ensures
        shows_settings(r, settings),
        r.phase == status.phase,
        status.phase@ == "idle"@ ==> r.message@ == idle_message(),
        status.phase@ != "idle"@ ==> r.message == status.message,
        r.local_ip == status.local_ip,
        r.port == status.port,
        r.certificate_url == status.certificate_url,
        r.certificate_was_created == status.certificate_was_created,
        r.export_path == status.export_path,
        r.profile_name == status.profile_name,
{
    let mut r = status;
    r.certificate_setup_completed = settings.certificate_setup_completed;
    r.windows_certificate_setup_completed = settings.windows_certificate_setup_completed;
    r.proxy_setup_completed = settings.proxy_setup_completed;
    let idle = String::from_str("idle");
    if r.phase == idle {
        r.message = String::from_str("Préparez le proxy Wi‑Fi de votre appareil Apple pour commencer.");
    }
    r
}

/// A failed start: phase `error` with `message`, otherwise the idle snapshot.
pub fn error_status(message: String, settings: SetupSettings) -> (r: StatusSnapshot)
    ensures
        r.phase@ == "error"@,
        r.message@ == message@,
        shows_settings(r, settings),
        r.local_ip is None && r.port is None && r.certificate_url is None,
        !r.certificate_was_created && r.export_path is None && r.profile_name is None,
{
    let mut r = StatusSnapshot::idle(settings);
    r.phase = String::from_str("error");
    r.message = message;
    r
}

/// The phases in which the proxy listens.
#[derive(Debug, Clone, Copy, PartialEq, Eq)]
pub enum ProxyPhase {
    CertificateSetup,
    ProxySetup,
    Listening,
}

pub open spec fn phase_name(phase: ProxyPhase) -> Seq<char> {
    match phase {
        ProxyPhase::CertificateSetup => "certificate_setup"@,
        ProxyPhase::ProxySetup => "proxy_setup"@,
        ProxyPhase::Listening => "listening"@,
    }
}

pub open spec fn phase_message(phase: ProxyPhase, steam_mode: bool) -> Seq<char> {
    match phase {
        ProxyPhase::CertificateSetup => "Installez puis activez le certificat SwagEx sur votre appareil Apple."@,
        ProxyPhase::ProxySetup => "Saisissez ces valeurs dans le proxy Wi‑Fi de votre appareil Apple."@,
        ProxyPhase::Listening => if steam_mode {
            "Lancez Summoners War depuis Steam."@
        } else {
            "Ouvrez Summoners War sur l’appareil Apple configuré."@
        },
    }
}

/// Where a device downloads the configuration profile of the certificate.
pub open spec fn certificate_url(ip: Seq<u8>, port: u16) -> Seq<char> {
    "http://"@ + dotted_quad(ip) + seq![':'] + decimal(port as nat) + "/SwagEx.mobileconfig"@
}

/// The snapshot once the proxy listens on `local_ip`:`port` in `phase`;
/// devices fetch the certificate from it except on the Steam route.
pub fn proxy_status(
    phase: ProxyPhase,
    steam_mode: bool,
    settings: SetupSettings,
    local_ip: [u8; 4],
    port: u16,
    certificate_was_created: bool,
) -> (r: StatusSnapshot)
    ensures
        r.phase@ == phase_name(phase),
        r.message@ == phase_message(phase, steam_mode),
        shows_settings(r, settings),
        opt_str(r.local_ip) == Some(dotted_quad(local_ip@)),
        r.port == Some(port),
        steam_mode ==> r.certificate_url is None,
        !steam_mode ==> opt_str(r.certificate_url) == Some(certificate_url(local_ip@, port)),
        r.certificate_was_created == certificate_was_created,
        r.export_path is None && r.profile_name is None,
{
    let name = match phase {
        ProxyPhase::CertificateSetup => String::from_str("certificate_setup"),
        ProxyPhase::ProxySetup => String::from_str("proxy_setup"),
        ProxyPhase::Listening => String::from_str("listening"),
    };
    let message = match phase {
        ProxyPhase::CertificateSetup => String::from_str("Installez puis activez le certificat SwagEx sur votre appareil Apple."),
        ProxyPhase::ProxySetup => String::from_str("Saisissez ces valeurs dans le proxy Wi‑Fi de votre appareil Apple."),
        ProxyPhase::Listening => if steam_mode {
            String::from_str("Lancez Summoners War depuis Steam.")
        } else {
            String::from_str("Ouvrez Summoners War sur l’appareil Apple configuré.")
        },
    };
    let ip = crate::steam::dotted_quad_chars(&local_ip);
    let url = if steam_mode {
        None
    } else {
        let mut u = chars_of("http://");
        push_all(&mut u, &ip);
        u.push(':');
        let p = decimal_chars(port as u64);
        push_all(&mut u, &p);
        push_str(&mut u, "/SwagEx.mobileconfig");
        assert(u@ =~= certificate_url(local_ip@, port));
        Some(string_from_chars(&u))
    };
    StatusSnapshot {
        phase: name,
        message,
        certificate_setup_completed: settings.certificate_setup_completed,
        windows_certificate_setup_completed: settings.windows_certificate_setup_completed,
        proxy_setup_completed: settings.proxy_setup_completed,
        local_ip: Some(string_from_chars(&ip)),
        port: Some(port),
        certificate_url: url,
        certificate_was_created,
        export_path: None,
        profile_name: None,
    }
}

/// The snapshot while the Windows certificate is being installed.
pub fn windows_certificate_status(settings: SetupSettings, certificate_was_created: bool) -> (r: StatusSnapshot)
    ensures
        r.phase@ == "windows_certificate_setup"@,
        r.message@ == "Installez le certificat SwagEx dans Windows."@,
        shows_settings(r, settings),
        r.local_ip is None && r.port is None && r.certificate_url is None,
        r.certificate_was_created == certificate_was_created,
        r.export_path is None && r.profile_name is None,
{
    StatusSnapshot {
        phase: String::from_str("windows_certificate_setup"),
        message: String::from_str("Installez le certificat SwagEx dans Windows."),
        certificate_setup_completed: settings.certificate_setup_completed,
        windows_certificate_setup_completed: settings.windows_certificate_setup_completed,
        proxy_setup_completed: settings.proxy_setup_completed,
        local_ip: None,
        port: None,
        certificate_url: None,
        certificate_was_created,
        export_path: None,
        profile_name: None,
    }
}

/// A setup step was refused; the message says what to do first.
#[derive(Debug, Clone, Copy, PartialEq, Eq)]
pub enum SetupRefusal {
    /// The Apple device's certificate is not installed yet.
    CertificateFirst,
    /// The Windows certificate is not installed yet.
    WindowsCertificateFirst,
    /// A certificate was installed before but its files are gone; no new
    /// authority is created silently.
    CertificateMissing,
    /// The Steam route exists on Windows only.
    SteamWindowsOnly,
}

impl SetupRefusal {
    /// The message shown for this refusal.
    pub fn message(&self) -> (m: &'static str)
        ensures
            m@ == match self {
                SetupRefusal::CertificateFirst => "Installez d’abord le certificat SwagEx sur votre appareil Apple."@,
                SetupRefusal::WindowsCertificateFirst => "Installez d’abord le certificat SwagEx dans Windows."@,
                SetupRefusal::CertificateMissing => "Le certificat SwagEx installé précédemment est introuvable. Aucune nouvelle autorité n’a été créée."@,
                SetupRefusal::SteamWindowsOnly => "Le parcours Steam est disponible uniquement sous Windows."@,
            },
    {
        match self {
            SetupRefusal::CertificateFirst => "Installez d’abord le certificat SwagEx sur votre appareil Apple.",
            SetupRefusal::WindowsCertificateFirst => "Installez d’abord le certificat SwagEx dans Windows.",
            SetupRefusal::CertificateMissing => "Le certificat SwagEx installé précédemment est introuvable. Aucune nouvelle autorité n’a été créée.",
            SetupRefusal::SteamWindowsOnly => "Le parcours Steam est disponible uniquement sous Windows.",
        }
    }
}

/// The proxy setup needs the Apple device's certificate first.
pub fn check_proxy_setup_allowed(settings: SetupSettings) -> (r: Result<(), SetupRefusal>)
    ensures
        r is Ok <==> settings.certificate_setup_completed,
        r is Err ==> r == Err::<(), SetupRefusal>(SetupRefusal::CertificateFirst),
{
    if settings.certificate_setup_completed {
        Ok(())
    } else {
        Err(SetupRefusal::CertificateFirst)
    }
}

/// The Steam capture needs the Windows certificate first: the setup step
/// done, and Windows trusting the exact certificate now (`trusted`, one of
/// its root stores holds it). A certificate removed from the stores since
/// brings the installation back.
pub fn check_steam_capture_allowed(settings: SetupSettings, trusted: bool) -> (r: Result<(), SetupRefusal>)
    ensures
        r is Ok <==> settings.windows_certificate_setup_completed && trusted,
        r is Err ==> r == Err::<(), SetupRefusal>(SetupRefusal::WindowsCertificateFirst),
{
    if settings.windows_certificate_setup_completed && trusted {
        Ok(())
    } else {
        Err(SetupRefusal::WindowsCertificateFirst)
    }
}

/// Whether starting would need a certificate authority that was installed
/// before but whose directory is gone: then nothing new is created, unless a
/// new certificate was asked for.
pub fn certificate_missing(settings: SetupSettings, force_regenerate: bool, directory_exists: bool) -> (r: bool)
    ensures
        r == (!force_regenerate && (settings.certificate_setup_completed
            || settings.windows_certificate_setup_completed) && !directory_exists),
{
    !force_regenerate && (settings.certificate_setup_completed
        || settings.windows_certificate_setup_completed) && !directory_exists
}

/// The settings once the Apple device's certificate is confirmed installed.
pub fn settings_after_certificate_setup(current: SetupSettings) -> (r: SetupSettings)
    ensures
        r.certificate_setup_completed,
        r.windows_certificate_setup_completed == current.windows_certificate_setup_completed,
        r.proxy_setup_completed == current.proxy_setup_completed,
{
    SetupSettings {
        certificate_setup_completed: true,
        windows_certificate_setup_completed: current.windows_certificate_setup_completed,
        proxy_setup_completed: current.proxy_setup_completed,
    }
}

/// The settings once the device's proxy is confirmed configured; refused
/// before the certificate.
pub fn settings_after_proxy_setup(current: SetupSettings) -> (r: Result<SetupSettings, SetupRefusal>)
    ensures
        match r {
            Ok(s) => current.certificate_setup_completed && s.certificate_setup_completed
                && s.proxy_setup_completed && s.windows_certificate_setup_completed
                == current.windows_certificate_setup_completed,
            Err(e) => !current.certificate_setup_completed && e == SetupRefusal::CertificateFirst,
        },
{
    if !current.certificate_setup_completed {
        return Err(SetupRefusal::CertificateFirst);
    }
    Ok(SetupSettings {
        certificate_setup_completed: true,
        windows_certificate_setup_completed: current.windows_certificate_setup_completed,
        proxy_setup_completed: true,
    })
}

/// The settings once the Windows certificate is confirmed trusted.
pub fn settings_after_windows_certificate_setup(current: SetupSettings) -> (r: SetupSettings)
    ensures
        r.windows_certificate_setup_completed,
        r.certificate_setup_completed == current.certificate_setup_completed,
        r.proxy_setup_completed == current.proxy_setup_completed,
{
    SetupSettings {
        certificate_setup_completed: current.certificate_setup_completed,
        windows_certificate_setup_completed: true,
        proxy_setup_completed: current.proxy_setup_completed,
    }
}

/// What follows a cancelled export.
#[derive(Debug, Clone, Copy, PartialEq, Eq)]
pub enum AfterCancel {
    /// Listen again for the proxy setup of the device.
    RestartProxySetup,
    /// Go back to the idle snapshot.
    Idle,
}

/// A cancelled export goes back to the proxy setup once the certificate is
/// installed, else to idle.
pub fn after_cancel(settings: SetupSettings) -> (r: AfterCancel)
    ensures
        r == (if settings.certificate_setup_completed {
            AfterCancel::RestartProxySetup
        } else {
            AfterCancel::Idle
        }),
{
    if settings.certificate_setup_completed {
        AfterCancel::RestartProxySetup
    } else {
        AfterCancel::Idle
    }
}

} // verus!

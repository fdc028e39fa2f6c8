use swagex::setup::SetupSettings;
use swagex::status::{
    after_cancel, certificate_missing, check_proxy_setup_allowed, check_steam_capture_allowed,
    error_status, proxy_status, record_export, record_proxy_error, refresh_status,
    settings_after_certificate_setup, settings_after_proxy_setup,
    settings_after_windows_certificate_setup, windows_certificate_status, AfterCancel, ProxyPhase,
    SetupRefusal, StatusSnapshot,
};

fn settings(certificate: bool, windows: bool, proxy: bool) -> SetupSettings {
    SetupSettings {
        certificate_setup_completed: certificate,
        windows_certificate_setup_completed: windows,
        proxy_setup_completed: proxy,
    }
}

#[test]
fn starts_idle_with_the_stored_settings() {
    let status = StatusSnapshot::idle(settings(true, false, true));
    assert_eq!(status.phase, "idle");
    assert_eq!(status.message, "Préparez le proxy Wi‑Fi de votre appareil Apple pour commencer.");
    assert!(status.certificate_setup_completed);
    assert!(status.proxy_setup_completed);
    assert!(status.export_path.is_none());
}

#[test]
fn a_proxy_failure_never_hides_a_capture() {
    let mut status = StatusSnapshot::idle(settings(true, false, true));
    record_proxy_error(&mut status, "port occupé");
    assert_eq!(status.phase, "error");
    assert_eq!(status.message, "Le proxy s'est arrêté : port occupé");

    record_export(&mut status, "/data/exports/A-42.json".to_string(), "A-42".to_string());
    assert_eq!(status.phase, "captured");
    assert_eq!(status.message, "Le JSON a été créé.");
    record_proxy_error(&mut status, "connexion perdue");
    assert_eq!(status.phase, "captured");
    assert_eq!(status.message, "Le JSON a été créé.");
    assert_eq!(status.export_path.as_deref(), Some("/data/exports/A-42.json"));
    assert_eq!(status.profile_name.as_deref(), Some("A-42"));
}

#[test]
fn shows_where_the_proxy_listens() {
    let status = proxy_status(ProxyPhase::ProxySetup, false, settings(true, false, false), [192, 168, 1, 20], 8080, true);
    assert_eq!(status.phase, "proxy_setup");
    assert_eq!(status.local_ip.as_deref(), Some("192.168.1.20"));
    assert_eq!(status.port, Some(8080));
    assert_eq!(status.certificate_url.as_deref(), Some("http://192.168.1.20:8080/SwagEx.mobileconfig"));
    assert!(status.certificate_was_created);

    let steam = proxy_status(ProxyPhase::Listening, true, settings(false, true, false), [127, 0, 0, 1], 8080, false);
    assert_eq!(steam.phase, "listening");
    assert_eq!(steam.message, "Lancez Summoners War depuis Steam.");
    assert!(steam.certificate_url.is_none());
}

#[test]
fn refreshes_settings_and_the_idle_message() {
    let mut status = error_status("échec".to_string(), settings(false, false, false));
    assert_eq!(status.phase, "error");
    status = refresh_status(status, settings(true, true, true));
    assert_eq!(status.message, "échec");
    assert!(status.windows_certificate_setup_completed);
    let idle = refresh_status(StatusSnapshot::idle(settings(false, false, false)), settings(true, false, false));
    assert!(idle.certificate_setup_completed);
    let windows = windows_certificate_status(settings(false, false, false), true);
    assert_eq!(windows.phase, "windows_certificate_setup");
    assert_eq!(windows.message, "Installez le certificat SwagEx dans Windows.");
}

#[test]
fn setup_steps_come_in_order() {
    assert_eq!(check_proxy_setup_allowed(settings(false, true, false)), Err(SetupRefusal::CertificateFirst));
    assert_eq!(check_proxy_setup_allowed(settings(true, false, false)), Ok(()));
    assert_eq!(
        check_steam_capture_allowed(settings(true, false, true), true),
        Err(SetupRefusal::WindowsCertificateFirst)
    );
    assert_eq!(check_steam_capture_allowed(settings(false, true, false), true), Ok(()));
    assert_eq!(
        check_steam_capture_allowed(settings(false, true, false), false),
        Err(SetupRefusal::WindowsCertificateFirst)
    );
    assert_eq!(settings_after_certificate_setup(settings(false, true, false)), settings(true, true, false));
    assert_eq!(settings_after_proxy_setup(settings(false, false, false)), Err(SetupRefusal::CertificateFirst));
    assert_eq!(settings_after_proxy_setup(settings(true, false, false)), Ok(settings(true, false, true)));
    assert_eq!(settings_after_windows_certificate_setup(settings(true, false, true)), settings(true, true, true));
    assert_eq!(after_cancel(settings(true, false, false)), AfterCancel::RestartProxySetup);
    assert_eq!(after_cancel(settings(false, true, false)), AfterCancel::Idle);
}

#[test]
fn a_vanished_certificate_is_not_recreated_silently() {
    assert!(certificate_missing(settings(true, false, false), false, false));
    assert!(!certificate_missing(settings(true, false, false), true, false));
    assert!(!certificate_missing(settings(true, false, false), false, true));
    assert!(!certificate_missing(settings(false, false, false), false, false));
    assert_eq!(
        SetupRefusal::CertificateMissing.message(),
        "Le certificat SwagEx installé précédemment est introuvable. Aucune nouvelle autorité n’a été créée."
    );
}

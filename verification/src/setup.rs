use vstd::prelude::*;

verus! {

/// Which setup steps the user has completed.
#[derive(Debug, Clone, Copy, PartialEq, Eq)]
pub struct SetupSettings {
    pub certificate_setup_completed: bool,
    pub windows_certificate_setup_completed: bool,
    pub proxy_setup_completed: bool,
}

/// The settings as the settings file may hold them, the single flag of the
/// first versions included; a missing member reads as `false`.
#[derive(Debug, Clone, Copy, PartialEq, Eq)]
pub struct StoredSettings {
    pub certificate_setup_completed: bool,
    pub windows_certificate_setup_completed: bool,
    pub proxy_setup_completed: bool,
    pub setup_completed: bool,
}

impl Default for SetupSettings {
    fn default() -> (r: SetupSettings)
        ensures
            !r.certificate_setup_completed && !r.windows_certificate_setup_completed
                && !r.proxy_setup_completed,
    {
        SetupSettings {
            certificate_setup_completed: false,
            windows_certificate_setup_completed: false,
            proxy_setup_completed: false,
        }
    }
}

impl Default for StoredSettings {
    fn default() -> (r: StoredSettings)
        ensures
            !r.certificate_setup_completed && !r.windows_certificate_setup_completed
                && !r.proxy_setup_completed && !r.setup_completed,
    {
        StoredSettings {
            certificate_setup_completed: false,
            windows_certificate_setup_completed: false,
            proxy_setup_completed: false,
            setup_completed: false,
        }
    }
}

/// The settings that a stored file means: the single flag of the first
/// versions counts as both the certificate and the proxy step, so a user who
/// completed the old setup is not asked to repeat it.
pub open spec fn settings_meant(stored: StoredSettings) -> SetupSettings {
    SetupSettings {
        certificate_setup_completed: stored.certificate_setup_completed || stored.setup_completed,
        windows_certificate_setup_completed: stored.windows_certificate_setup_completed,
        proxy_setup_completed: stored.proxy_setup_completed || stored.setup_completed,
    }
}

/// What the settings file holds once `settings` are written.
pub open spec fn settings_stored(settings: SetupSettings) -> StoredSettings {
    StoredSettings {
        certificate_setup_completed: settings.certificate_setup_completed,
        windows_certificate_setup_completed: settings.windows_certificate_setup_completed,
        proxy_setup_completed: settings.proxy_setup_completed,
        setup_completed: false,
    }
}

/// The settings that a stored file means.
pub fn settings_from_stored(stored: StoredSettings) -> (r: SetupSettings)
    ensures
        r == settings_meant(stored),
{
    let legacy_completed = stored.setup_completed;
    SetupSettings {
        certificate_setup_completed: stored.certificate_setup_completed || legacy_completed,
        windows_certificate_setup_completed: stored.windows_certificate_setup_completed,
        proxy_setup_completed: stored.proxy_setup_completed || legacy_completed,
    }
}

/// What the settings file holds once `settings` are written.
pub fn stored_from_settings(settings: SetupSettings) -> (r: StoredSettings)
    ensures
        r == settings_stored(settings),
{
    StoredSettings {
        certificate_setup_completed: settings.certificate_setup_completed,
        windows_certificate_setup_completed: settings.windows_certificate_setup_completed,
        proxy_setup_completed: settings.proxy_setup_completed,
        setup_completed: false,
    }
}

/// The settings that resetting the setup writes: no step completed.
pub fn reset() -> (r: SetupSettings)
    ensures
        !r.certificate_setup_completed && !r.windows_certificate_setup_completed
            && !r.proxy_setup_completed,
{
    SetupSettings::default()
}

/// Settings that are written are read back as they were.
pub proof fn lemma_settings_round_trip(settings: SetupSettings)
    ensures
        settings_meant(settings_stored(settings)) == settings,
{
}

} // verus!

use swagex::setup::{reset, settings_from_stored, stored_from_settings, SetupSettings, StoredSettings};
use swagex::storage::{
    app_data_directory, compare_step, legacy_app_data_directory, merge_step, migration_start,
    removes_directory, EntryKind, MergeStep, MigrationRefusal, MigrationStart,
};

#[test]
fn reads_the_legacy_setup_flag_as_both_steps() {
    let stored = StoredSettings {
        certificate_setup_completed: false,
        windows_certificate_setup_completed: false,
        proxy_setup_completed: false,
        setup_completed: true,
    };
    assert_eq!(
        settings_from_stored(stored),
        SetupSettings {
            certificate_setup_completed: true,
            windows_certificate_setup_completed: false,
            proxy_setup_completed: true,
        }
    );
}

#[test]
fn written_settings_read_back_and_reset_clears_them() {
    let settings = SetupSettings {
        certificate_setup_completed: true,
        windows_certificate_setup_completed: true,
        proxy_setup_completed: false,
    };
    let stored = stored_from_settings(settings);
    assert!(!stored.setup_completed);
    assert_eq!(settings_from_stored(stored), settings);
    assert_eq!(reset(), SetupSettings::default());
    assert_eq!(settings_from_stored(StoredSettings::default()), SetupSettings::default());
}

#[test]
fn settings_are_persisted_and_reset() {
    let written = SetupSettings {
        certificate_setup_completed: true,
        windows_certificate_setup_completed: false,
        proxy_setup_completed: true,
    };
    let stored = stored_from_settings(written);
    assert_eq!(
        settings_from_stored(stored),
        SetupSettings {
            certificate_setup_completed: true,
            windows_certificate_setup_completed: false,
            proxy_setup_completed: true,
        }
    );
    let cleared = reset();
    assert_eq!(settings_from_stored(stored_from_settings(cleared)), SetupSettings::default());
}

#[test]
fn names_the_data_directories() {
    assert_eq!(
        std::path::Path::new(&app_data_directory("/home/u/.local/share")),
        std::path::Path::new("/home/u/.local/share").join("SwagEx")
    );
    assert_eq!(
        std::path::Path::new(&legacy_app_data_directory("/home/u/.local/share")),
        std::path::Path::new("/home/u/.local/share").join("com.jmlebret.swagex")
    );
}

#[test]
fn moves_the_legacy_directory_whole_when_nothing_is_current() {
    assert_eq!(migration_start(false, true), MigrationStart::NothingToMove);
    assert_eq!(migration_start(true, false), MigrationStart::RenameWhole);
    assert_eq!(migration_start(true, true), MigrationStart::Merge);
}

#[test]
fn merges_without_overwriting() {
    assert_eq!(merge_step(true, None), Ok(MergeStep::Descend));
    assert_eq!(merge_step(true, Some(EntryKind::Directory)), Ok(MergeStep::Descend));
    assert_eq!(merge_step(true, Some(EntryKind::File)), Err(MigrationRefusal::Conflict));
    assert_eq!(merge_step(false, None), Ok(MergeStep::MoveSource));
    assert_eq!(merge_step(false, Some(EntryKind::File)), Ok(MergeStep::CompareContents));
    assert_eq!(merge_step(false, Some(EntryKind::Directory)), Err(MigrationRefusal::WouldOverwrite));
    assert_eq!(compare_step(b"same", b"same"), Ok(()));
    assert_eq!(compare_step(b"legacy", b"current"), Err(MigrationRefusal::WouldOverwrite));
    assert_eq!(compare_step(b"abc", b"abd"), Err(MigrationRefusal::WouldOverwrite));
    assert!(removes_directory(true, false));
    assert!(!removes_directory(true, true));
    assert!(!removes_directory(false, false));
}

#[test]
fn names_the_paths_of_a_refused_migration() {
    assert_eq!(
        MigrationRefusal::WouldOverwrite.message("/old/settings.json", "/new/settings.json"),
        "La migration SwagEx refuse d’écraser le fichier existant /new/settings.json."
    );
    assert_eq!(
        MigrationRefusal::Conflict.message("/old/exports", "/new/exports"),
        "La migration SwagEx a trouvé un conflit entre /old/exports et /new/exports."
    );
}

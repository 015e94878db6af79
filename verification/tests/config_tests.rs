use mine_autobackup::config::{
    clamp_interval, config_for_disk, google_logout, refresh_next_backup, retain_available,
    set_auto_enabled, set_backup_dir, set_interval_minutes, set_minecraft_dir, set_selected_worlds,
    sync_selected_worlds, AppConfig, GoogleConfig, EARLIEST_INSTANT, LATEST_INSTANT, MINUTE_NANOS,
};

fn strings(v: &[&str]) -> Vec<String> {
    v.iter().map(|s| s.to_string()).collect()
}

fn connected() -> GoogleConfig {
    GoogleConfig {
        client_id: Some("client".to_string()),
        refresh_token: Some("refresh".to_string()),
        access_token: Some("access".to_string()),
        expires_at: Some(1_000),
        email: Some("Conta conectada".to_string()),
        drive_folder_id: Some("folder".to_string()),
    }
}

#[test]
fn initial_settings() {
    let c = AppConfig::initial(Some("/home/u/.minecraft".to_string()), None);
    assert_eq!(c.minecraft_dir.as_deref(), Some("/home/u/.minecraft"));
    assert_eq!(c.backup_dir, None);
    assert!(c.selected_worlds.is_empty());
    assert_eq!(c.interval_minutes, 60);
    assert!(!c.auto_enabled);
    assert!(c.google.refresh_token.is_none());
    assert!(c.next_backup_at.is_none() && c.last_backup_at.is_none() && c.last_result.is_none());
}

#[test]
fn google_default_is_empty() {
    let g = GoogleConfig::default();
    assert!(g.client_id.is_none() && g.refresh_token.is_none() && g.email.is_none());
}

#[test]
fn interval_is_clamped() {
    assert_eq!(clamp_interval(0), 5);
    assert_eq!(clamp_interval(4), 5);
    assert_eq!(clamp_interval(5), 5);
    assert_eq!(clamp_interval(90), 90);
    assert_eq!(clamp_interval(1440), 1440);
    assert_eq!(clamp_interval(100_000), 1440);
    assert_eq!(clamp_interval(u64::MAX), 1440);
}

#[test]
fn next_backup_follows_the_interval() {
    let mut c = AppConfig::initial(None, None);
    c.auto_enabled = true;
    c.interval_minutes = 30;
    refresh_next_backup(&mut c, 1_000_000);
    assert_eq!(c.next_backup_at, Some(1_000_000 + 30 * 60_000_000_000));
    c.auto_enabled = false;
    refresh_next_backup(&mut c, 1_000_000);
    assert_eq!(c.next_backup_at, None);
}

#[test]
fn next_backup_with_a_wrapped_interval() {
    let mut c = AppConfig::initial(None, None);
    c.auto_enabled = true;
    c.interval_minutes = u64::MAX;
    refresh_next_backup(&mut c, 1_000_000);
    assert_eq!(c.next_backup_at, Some(1_000_000 - 60_000_000_000));
}

#[test]
fn set_interval_clamps_and_reschedules() {
    let mut c = AppConfig::initial(None, None);
    c.auto_enabled = true;
    set_interval_minutes(&mut c, 2, 0);
    assert_eq!(c.interval_minutes, 5);
    assert_eq!(c.next_backup_at, Some(5 * 60_000_000_000));
}

#[test]
fn enabling_schedules_and_disabling_clears() {
    let mut c = AppConfig::initial(None, None);
    set_auto_enabled(&mut c, true, 100);
    assert!(c.auto_enabled);
    assert_eq!(c.next_backup_at, Some(100 + 60 * 60_000_000_000));
    set_auto_enabled(&mut c, false, 200);
    assert_eq!(c.next_backup_at, None);
}

#[test]
fn selection_keeps_available_worlds_in_order() {
    let mut c = AppConfig::initial(None, None);
    set_selected_worlds(&mut c, strings(&["c", "x", "a"]), &strings(&["a", "b", "c"]), 0);
    assert_eq!(c.selected_worlds, strings(&["c", "a"]));
}

#[test]
fn sync_drops_missing_worlds_and_is_idempotent() {
    let mut c = AppConfig::initial(None, None);
    c.selected_worlds = strings(&["a", "gone", "b"]);
    let available = strings(&["b", "a"]);
    sync_selected_worlds(&mut c, &available);
    assert_eq!(c.selected_worlds, strings(&["a", "b"]));
    sync_selected_worlds(&mut c, &available);
    assert_eq!(c.selected_worlds, strings(&["a", "b"]));
}

#[test]
fn choosing_a_minecraft_folder_resyncs() {
    let mut c = AppConfig::initial(None, None);
    c.selected_worlds = strings(&["old", "kept"]);
    set_minecraft_dir(&mut c, "/mc".to_string(), &strings(&["kept", "new"]), 0);
    assert_eq!(c.minecraft_dir.as_deref(), Some("/mc"));
    assert_eq!(c.selected_worlds, strings(&["kept"]));
}

#[test]
fn choosing_a_backup_folder() {
    let mut c = AppConfig::initial(None, None);
    set_backup_dir(&mut c, "/backups".to_string(), 0);
    assert_eq!(c.backup_dir.as_deref(), Some("/backups"));
}

#[test]
fn retain_with_nothing_available() {
    assert!(retain_available(strings(&["a"]), &Vec::new()).is_empty());
}

#[test]
fn logout_clears_account_but_keeps_client() {
    let mut g = connected();
    google_logout(&mut g);
    assert_eq!(g.client_id.as_deref(), Some("client"));
    assert!(g.refresh_token.is_none() && g.access_token.is_none() && g.expires_at.is_none());
    assert!(g.email.is_none() && g.drive_folder_id.is_none());
}

#[test]
fn disk_copy_has_no_tokens() {
    let mut c = AppConfig::initial(Some("/mc".to_string()), None);
    c.google = connected();
    c.selected_worlds = strings(&["w"]);
    let disk = config_for_disk(&c);
    assert!(disk.google.refresh_token.is_none());
    assert!(disk.google.access_token.is_none());
    assert!(disk.google.expires_at.is_none());
    assert_eq!(disk.google.drive_folder_id.as_deref(), Some("folder"));
    assert_eq!(disk.selected_worlds, strings(&["w"]));
    assert_eq!(c.google.refresh_token.as_deref(), Some("refresh"));
}

#[test]
fn schedule_reaches_the_last_instant() {
    let mut c = AppConfig::initial(None, None);
    c.auto_enabled = true;
    c.interval_minutes = 60;
    refresh_next_backup(&mut c, LATEST_INSTANT - 60 * MINUTE_NANOS);
    assert_eq!(c.next_backup_at, Some(LATEST_INSTANT));
    assert_eq!(LATEST_INSTANT, 8_210_266_876_799_999_999_999);
    assert_eq!(EARLIEST_INSTANT, -8_334_601_228_800_000_000_000);
}

#[test]
fn schedule_keeps_nanoseconds() {
    let mut c = AppConfig::initial(None, None);
    set_auto_enabled(&mut c, true, 1_700_000_000_000_000_001);
    assert_eq!(c.next_backup_at, Some(1_700_003_600_000_000_001));
}

#[test]
fn instant_bounds_are_those_of_chrono() {
    let nanos = |t: chrono::NaiveDateTime| {
        let u = t.and_utc();
        u.timestamp() as i128 * 1_000_000_000 + u.timestamp_subsec_nanos() as i128
    };
    assert_eq!(nanos(chrono::NaiveDateTime::MAX), LATEST_INSTANT);
    assert_eq!(nanos(chrono::NaiveDateTime::MIN), EARLIEST_INSTANT);
}

use mine_autobackup::backup::{
    archive_file_name, begin_backup, end_backup_run, finish_backup, record_backup_outcome, select_archive_worlds, should_run_scheduled,
    should_upload, status_from_state, total_steps, BackupProgress, RuntimeState,
};
use mine_autobackup::config::{AppConfig, GoogleConfig};

fn strings(v: &[&str]) -> Vec<String> {
    v.iter().map(|s| s.to_string()).collect()
}

fn ready_state() -> RuntimeState {
    let mut config = AppConfig::initial(Some("/mc".to_string()), Some("/backups".to_string()));
    config.selected_worlds = strings(&["w1", "w2"]);
    config.google = GoogleConfig::default();
    config.google.refresh_token = Some("token".to_string());
    config.last_result = Some("before".to_string());
    RuntimeState { config, is_running: false, progress: BackupProgress::step(3, 9, "x"), running_since: None }
}

#[test]
fn backup_starts_when_ready() {
    let mut s = ready_state();
    let job = begin_backup(&mut s, &strings(&["w2", "w1"]), "/staging".to_string(), 500)
        .unwrap_or_else(|e| panic!("{}", e));
    assert_eq!(job.minecraft_dir, "/mc");
    assert_eq!(job.backup_dir, "/backups");
    assert_eq!(job.selected_worlds, strings(&["w1", "w2"]));
    assert!(s.is_running);
    assert_eq!(s.running_since, Some(500));
    assert_eq!(s.progress.total, 0);
    assert_eq!(s.config.last_result, None);
}

#[test]
fn backup_uses_staging_without_a_chosen_folder() {
    let mut s = ready_state();
    s.config.backup_dir = None;
    let job = begin_backup(&mut s, &strings(&["w1"]), "/staging".to_string(), 0)
        .unwrap_or_else(|e| panic!("{}", e));
    assert_eq!(job.backup_dir, "/staging");
    assert_eq!(job.selected_worlds, strings(&["w1"]));
}

#[test]
fn second_backup_is_refused_while_one_runs() {
    let mut s = ready_state();
    assert!(begin_backup(&mut s, &strings(&["w1"]), "/s".to_string(), 0).is_ok());
    let err = begin_backup(&mut s, &strings(&["w1"]), "/s".to_string(), 1).err();
    assert_eq!(err.as_deref(), Some("Ja existe um backup em andamento"));
    assert_eq!(s.running_since, Some(0));
}

#[test]
fn backup_refusals() {
    let mut s = ready_state();
    s.config.minecraft_dir = None;
    assert_eq!(begin_backup(&mut s, &strings(&["w1"]), "/s".to_string(), 0).err().as_deref(), Some("Escolha a pasta .minecraft primeiro"));
    let mut s = ready_state();
    s.config.google.refresh_token = None;
    assert_eq!(begin_backup(&mut s, &strings(&["w1"]), "/s".to_string(), 0).err().as_deref(), Some("Conecte sua conta Google Drive primeiro"));
    let mut s = ready_state();
    assert_eq!(begin_backup(&mut s, &strings(&["other"]), "/s".to_string(), 0).err().as_deref(), Some("Escolha pelo menos um mundo para backup"));
    assert!(s.config.selected_worlds.is_empty());
    assert!(!s.is_running);
}

#[test]
fn finishing_records_success() {
    let mut s = ready_state();
    s.config.auto_enabled = true;
    begin_backup(&mut s, &strings(&["w1"]), "/s".to_string(), 0).unwrap_or_else(|e| panic!("{}", e));
    let msg = finish_backup(&mut s, Ok("/backups/a.zip".to_string()), 1000);
    assert_eq!(msg, Ok("Backup criado: /backups/a.zip".to_string()));
    assert!(!s.is_running);
    assert_eq!(s.running_since, None);
    assert_eq!(s.config.last_backup_at, Some(1000));
    assert_eq!(s.config.last_result.as_deref(), Some("Backup criado: /backups/a.zip"));
    assert_eq!(s.config.next_backup_at, Some(1000 + 60 * 60_000_000_000));
}

#[test]
fn finishing_records_failure() {
    let mut s = ready_state();
    begin_backup(&mut s, &strings(&["w1"]), "/s".to_string(), 0).unwrap_or_else(|e| panic!("{}", e));
    let msg = finish_backup(&mut s, Err("disco cheio".to_string()), 1000);
    assert_eq!(msg, Err("disco cheio".to_string()));
    assert!(!s.is_running);
    assert_eq!(s.config.last_backup_at, None);
    assert_eq!(s.config.last_result.as_deref(), Some("disco cheio"));
}

#[test]
fn scheduler_decision() {
    let mut s = ready_state();
    assert!(!should_run_scheduled(&s, 10));
    s.config.auto_enabled = true;
    assert!(!should_run_scheduled(&s, 10));
    s.config.next_backup_at = Some(10);
    assert!(should_run_scheduled(&s, 10));
    assert!(!should_run_scheduled(&s, 9));
    s.is_running = true;
    assert!(!should_run_scheduled(&s, 10));
}

#[test]
fn archive_world_selection() {
    assert_eq!(select_archive_worlds(&strings(&["a", "b"]), &strings(&["b"])), Ok(strings(&["b"])));
    assert_eq!(select_archive_worlds(&strings(&["a"]), &strings(&["b"])), Err("Nenhum mundo selecionado foi encontrado na pasta saves".to_string()));
}

#[test]
fn steps_count_files_and_at_least_one() {
    assert_eq!(total_steps(&vec![]), 1);
    assert_eq!(total_steps(&vec![0, 0]), 1);
    assert_eq!(total_steps(&vec![3, 4]), 7);
}

#[test]
fn archive_name() {
    assert_eq!(archive_file_name("2024-05-01_10-20-30"), "minecraft-worlds-2024-05-01_10-20-30.zip");
}

#[test]
fn progress_values() {
    let p = BackupProgress::step(1, 2, "Compactando mundos").stamped("t".to_string());
    assert_eq!((p.current, p.total, p.label.as_str(), p.updated_at.as_deref()), (1, 2, "Compactando mundos", Some("t")));
    let i = BackupProgress::idle();
    assert_eq!((i.current, i.total, i.label.as_str(), i.updated_at), (0, 0, "", None));
}

#[test]
fn status_shows_the_state() {
    let s = ready_state();
    let st = status_from_state(&s, Vec::new(), None, Some("last".to_string()), None);
    assert!(st.google_connected);
    assert_eq!(st.minecraft_dir.as_deref(), Some("/mc"));
    assert_eq!(st.selected_worlds, strings(&["w1", "w2"]));
    assert_eq!(st.progress.current, 3);
    assert_eq!(st.last_backup_at.as_deref(), Some("last"));
    assert_eq!(st.interval_minutes, 60);
    assert!(!st.is_running);
}

#[test]
fn upload_only_with_an_account() {
    let s = ready_state();
    assert!(should_upload(&s.config.google));
    assert!(!should_upload(&GoogleConfig::default()));
}

#[test]
fn ending_a_run_always_clears_it() {
    let mut s = ready_state();
    begin_backup(&mut s, &strings(&["w1"]), "/s".to_string(), 123_456_789).unwrap_or_else(|e| panic!("{}", e));
    assert!(s.is_running);
    assert_eq!(s.running_since, Some(123_456_789));
    s.progress = BackupProgress::step(3, 9, "x");
    s.config.auto_enabled = true;
    s.config.interval_minutes = u64::MAX / 2;
    end_backup_run(&mut s);
    assert!(!s.is_running);
    assert_eq!(s.running_since, None);
    assert_eq!((s.progress.current, s.progress.total, s.progress.label.as_str()), (0, 0, ""));
    assert_eq!(s.config.interval_minutes, u64::MAX / 2);
}

#[test]
fn recording_an_outcome_keeps_nanoseconds() {
    let mut c = AppConfig::initial(None, None);
    c.auto_enabled = true;
    c.interval_minutes = 5;
    let msg = record_backup_outcome(&mut c, Ok("a.zip".to_string()), 1_700_000_000_123_456_789);
    assert_eq!(msg, Ok("Backup criado: a.zip".to_string()));
    assert_eq!(c.last_backup_at, Some(1_700_000_000_123_456_789));
    assert_eq!(c.next_backup_at, Some(1_700_000_300_123_456_789));
    assert_eq!(record_backup_outcome(&mut c, Err("falhou".to_string()), 0), Err("falhou".to_string()));
    assert_eq!(c.last_backup_at, Some(1_700_000_000_123_456_789));
    assert_eq!(c.last_result.as_deref(), Some("falhou"));
}

fn parts(p: &BackupProgress) -> (u64, u64, String, Option<String>) {
    (p.current, p.total, p.label.clone(), p.updated_at.clone())
}

#[test]
fn fixed_progress_stages() {
    assert_eq!(parts(&BackupProgress::preparing()), (0, 1, "Preparando backup".to_string(), None));
    assert_eq!(parts(&BackupProgress::compressing(7)), (0, 7, "Compactando mundos".to_string(), None));
    assert_eq!(parts(&BackupProgress::drive_preparing()), (0, 100, "Preparando Google Drive".to_string(), None));
    assert_eq!(parts(&BackupProgress::drive_authenticating()), (5, 100, "Autenticando Drive".to_string(), None));
    assert_eq!(parts(&BackupProgress::drive_locating_folder()), (10, 100, "Localizando pasta no Drive".to_string(), None));
    assert_eq!(parts(&BackupProgress::upload_starting(0)), (0, 1, "Iniciando envio".to_string(), None));
    assert_eq!(parts(&BackupProgress::upload_starting(4096)), (0, 4096, "Iniciando envio".to_string(), None));
    assert_eq!(parts(&BackupProgress::upload_finished()), (100, 100, "Upload concluido".to_string(), None));
}

#[test]
fn upload_progress_steps() {
    assert_eq!(parts(&BackupProgress::uploading(1024, 2048)), (1024, 2048, "Enviando 1.0 KB de 2.0 KB".to_string(), None));
}

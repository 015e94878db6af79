//! The run of a backup: when one may start, what it works on, what the
//! panel shows meanwhile, and how its outcome is recorded.
use vstd::prelude::*;
use crate::config::{
    AppConfig, copy_opt_string, copy_strings, next_backup_after, next_backup_fits,
    refresh_next_backup, retain_available, retain_listed, sync_selected_worlds,
};
use crate::worlds::MinecraftWorld;
use crate::text::join2;
use crate::progress::{format_bytes_spec, upload_progress_label};

verus! {

/// The progress of a running backup, as the panel shows it.
pub struct BackupProgress {
    /// Steps done.
    pub current: u64,
    /// Steps in all.
    pub total: u64,
    /// What is being done.
    pub label: String,
    /// When this was last updated (RFC 3339), once it has been.
    pub updated_at: Option<String>,
}

impl BackupProgress {
    /// No progress: nothing done, nothing to do.
    pub fn idle() -> (res: Self)
        ensures
            res.current == 0,
            res.total == 0,
            res.label@.len() == 0,
            res.updated_at is None,
    {
        BackupProgress { current: 0, total: 0, label: String::new(), updated_at: None }
    }

    /// A step of the backup, not stamped yet.
    pub fn step(current: u64, total: u64, label: &str) -> (res: Self)
        ensures
            res.current == current,
            res.total == total,
            res.label@ == label@,
            res.updated_at is None,
    {
        BackupProgress { current, total, label: String::from_str(label), updated_at: None }
    }

    /// The first stage of a run: `Preparando backup`, 0 of 1.
    pub fn preparing() -> (res: Self)
        ensures
            res.current == 0,
            res.total == 1,
            res.label@ == "Preparando backup"@,
            res.updated_at is None,
    {
        BackupProgress::step(0, 1, "Preparando backup")
    }

    /// The start of the compression: `Compactando mundos`, 0 of the
    /// number of steps the compression shows.
    pub fn compressing(total: u64) -> (res: Self)
        ensures
            res.current == 0,
            res.total == total,
            res.label@ == "Compactando mundos"@,
            res.updated_at is None,
    {
        BackupProgress::step(0, total, "Compactando mundos")
    }

    /// The start of the upload stage: `Preparando Google Drive`, 0 of 100.
    pub fn drive_preparing() -> (res: Self)
        ensures
            res.current == 0,
            res.total == 100,
            res.label@ == "Preparando Google Drive"@,
            res.updated_at is None,
    {
        BackupProgress::step(0, 100, "Preparando Google Drive")
    }

    /// While the access token is obtained: `Autenticando Drive`, 5 of 100.
    pub fn drive_authenticating() -> (res: Self)
        ensures
            res.current == 5,
            res.total == 100,
            res.label@ == "Autenticando Drive"@,
            res.updated_at is None,
    {
        BackupProgress::step(5, 100, "Autenticando Drive")
    }

    /// While the backup folder is found or created: `Localizando pasta no
    /// Drive`, 10 of 100.
    pub fn drive_locating_folder() -> (res: Self)
        ensures
            res.current == 10,
            res.total == 100,
            res.label@ == "Localizando pasta no Drive"@,
            res.updated_at is None,
    {
        BackupProgress::step(10, 100, "Localizando pasta no Drive")
    }

    /// While the upload session is opened for an archive of `file_size`
    /// bytes: `Iniciando envio`, 0 of the size (at least 1).
    pub fn upload_starting(file_size: u64) -> (res: Self)
        ensures
            res.current == 0,
            res.total == if file_size == 0 {
                1
            } else {
                file_size
            },
            res.label@ == "Iniciando envio"@,
            res.updated_at is None,
    {
        let total = if file_size == 0 {
            1
        } else {
            file_size
        };
        BackupProgress::step(0, total, "Iniciando envio")
    }

    /// While the archive is sent: `uploaded` of `total` bytes, labelled
    /// `Enviando <sent> de <total>`.
    pub fn uploading(uploaded: u64, total: u64) -> (res: Self)
        ensures
            res.current == uploaded,
            res.total == total,
            res.label@ == "Enviando "@ + format_bytes_spec(uploaded as nat) + " de "@
                + format_bytes_spec(total as nat),
            res.updated_at is None,
    {
        let label = upload_progress_label(uploaded, total);
        BackupProgress::step(uploaded, total, label.as_str())
    }

    /// The end of the upload: `Upload concluido`, 100 of 100.
    pub fn upload_finished() -> (res: Self)
        ensures
            res.current == 100,
            res.total == 100,
            res.label@ == "Upload concluido"@,
            res.updated_at is None,
    {
        BackupProgress::step(100, 100, "Upload concluido")
    }

    /// The same progress, stamped with the time it was recorded.
    pub fn stamped(self, updated_at: String) -> (res: Self)
        ensures
            res.current == self.current,
            res.total == self.total,
            res.label == self.label,
            res.updated_at == Some(updated_at),
    {
        BackupProgress { updated_at: Some(updated_at), ..self }
    }
}

/// The state the application keeps while it runs.
pub struct RuntimeState {
    /// The settings.
    pub config: AppConfig,
    /// Whether a backup is running.
    pub is_running: bool,
    /// The progress of the running backup.
    pub progress: BackupProgress,
    /// When the running backup started.
    pub running_since: Option<i128>,
}

/// What a backup works on, fixed when it starts.
pub struct BackupJob {
    /// The `.minecraft` folder.
    pub minecraft_dir: String,
    /// Where the archive is written.
    pub backup_dir: String,
    /// The worlds to put in it.
    pub selected_worlds: Vec<String>,
}

/// Whether the progress is the idle one.
pub open spec fn is_idle(p: BackupProgress) -> bool {
    p.current == 0 && p.total == 0 && p.label@.len() == 0 && p.updated_at is None
}

/// The settings are those of `before`, with the selection replaced.
pub open spec fn same_but_selection(after: AppConfig, before: AppConfig) -> bool {
    &&& after.minecraft_dir == before.minecraft_dir
    &&& after.backup_dir == before.backup_dir
    &&& after.google == before.google
    &&& after.interval_minutes == before.interval_minutes
    &&& after.auto_enabled == before.auto_enabled
    &&& after.last_backup_at == before.last_backup_at
    &&& after.next_backup_at == before.next_backup_at
}

/// Starts a backup if one may start. `available` lists the worlds now in
/// the `saves` folder and `staging_dir` is where archives go when the user
/// chose no folder. The selection is first brought up to date; then the
/// backup is refused while another runs, without a `.minecraft` folder,
/// without a Google account, or without a selected world. Once started,
/// the state records that a backup runs since `now`.
pub fn begin_backup(
    state: &mut RuntimeState,
    available: &Vec<String>,
    staging_dir: String,
    now: i128,
) -> (res: Result<BackupJob, String>)
    ensures
        old(state).is_running ==> (res matches Err(e) && e@ == "Ja existe um backup em andamento"@
            && *final(state) == *old(state)),
        !old(state).is_running ==> {
            let synced = retain_listed(old(state).config.selected_worlds@, available@);
            &&& final(state).config.selected_worlds@ == synced
            &&& same_but_selection(final(state).config, old(state).config)
            &&& if old(state).config.minecraft_dir is None {
                &&& res matches Err(e) && e@ == "Escolha a pasta .minecraft primeiro"@
                &&& final(state).is_running == old(state).is_running
                &&& final(state).progress == old(state).progress
                &&& final(state).running_since == old(state).running_since
                &&& final(state).config.last_result == old(state).config.last_result
            } else if old(state).config.google.refresh_token is None {
                &&& res matches Err(e) && e@ == "Conecte sua conta Google Drive primeiro"@
                &&& final(state).is_running == old(state).is_running
                &&& final(state).progress == old(state).progress
                &&& final(state).running_since == old(state).running_since
                &&& final(state).config.last_result == old(state).config.last_result
            } else if synced.len() == 0 {
                &&& res matches Err(e) && e@ == "Escolha pelo menos um mundo para backup"@
                &&& final(state).is_running == old(state).is_running
                &&& final(state).progress == old(state).progress
                &&& final(state).running_since == old(state).running_since
                &&& final(state).config.last_result == old(state).config.last_result
            } else {
                &&& res matches Ok(job) && Some(job.minecraft_dir)
                    == old(state).config.minecraft_dir && job.selected_worlds@ == synced && (
                match old(state).config.backup_dir {
                    Some(d) => job.backup_dir == d,
                    None => job.backup_dir == staging_dir,
                })
                &&& final(state).is_running
                &&& final(state).running_since == Some(now)
                &&& is_idle(final(state).progress)
                &&& final(state).config.last_result is None
            }
        },
{
    if state.is_running {
        return Err(String::from_str("Ja existe um backup em andamento"));
    }
    sync_selected_worlds(&mut state.config, available);
    let minecraft_dir = match &state.config.minecraft_dir {
        Some(d) => d.clone(),
        None => {
            return Err(String::from_str("Escolha a pasta .minecraft primeiro"));
        },
    };
    let backup_dir = match &state.config.backup_dir {
        Some(d) => d.clone(),
        None => staging_dir,
    };
    if state.config.google.refresh_token.is_none() {
        return Err(String::from_str("Conecte sua conta Google Drive primeiro"));
    }
    if state.config.selected_worlds.len() == 0 {
        return Err(String::from_str("Escolha pelo menos um mundo para backup"));
    }
    let selected_worlds = copy_strings(&state.config.selected_worlds);
    state.is_running = true;
    state.running_since = Some(now);
    state.progress = BackupProgress::idle();
    state.config.last_result = None;
    Ok(BackupJob { minecraft_dir, backup_dir, selected_worlds })
}

/// Ends the run of a backup, however it went: the state no longer shows a
/// running backup, and the settings stay as they are.
pub fn end_backup_run(state: &mut RuntimeState)
    ensures
        !final(state).is_running,
        is_idle(final(state).progress),
        final(state).running_since is None,
        final(state).config == old(state).config,
{
    state.is_running = false;
    state.progress = BackupProgress::idle();
    state.running_since = None;
}

/// Records in the settings how a backup ended (`outcome` is the archive's
/// path, or the error) and returns what the user is told. A success also
/// records when it happened and when the next one is due.
pub fn record_backup_outcome(config: &mut AppConfig, outcome: Result<String, String>, now: i128)
    -> (res: Result<String, String>)
    requires
        outcome is Ok && old(config).auto_enabled ==> next_backup_fits(
            old(config).interval_minutes,
            now,
        ),
    ensures
        final(config).minecraft_dir == old(config).minecraft_dir,
        final(config).backup_dir == old(config).backup_dir,
        final(config).selected_worlds == old(config).selected_worlds,
        final(config).google == old(config).google,
        final(config).interval_minutes == old(config).interval_minutes,
        final(config).auto_enabled == old(config).auto_enabled,
        match outcome {
            Ok(path) => res matches Ok(m) && m@ == "Backup criado: "@ + path@
                && final(config).last_result == Some(m) && final(config).last_backup_at
                == Some(now) && final(config).next_backup_at == next_backup_after(
                old(config).auto_enabled,
                old(config).interval_minutes,
                now,
            ),
            Err(e) => res == Err::<String, String>(e) && final(config).last_result == Some(e)
                && final(config).last_backup_at == old(config).last_backup_at
                && final(config).next_backup_at == old(config).next_backup_at,
        },
{
    match outcome {
        Ok(path) => {
            let message = join2("Backup criado: ", path.as_str());
            config.last_backup_at = Some(now);
            config.last_result = Some(message.clone());
            refresh_next_backup(config, now);
            Ok(message)
        },
        Err(error) => {
            config.last_result = Some(error.clone());
            Err(error)
        },
    }
}

/// Records how a backup ended (`outcome` is the archive's path, or the
/// error) and returns what the user is told: the run ends as
/// `end_backup_run` ends it, and the outcome is recorded as
/// `record_backup_outcome` records it.
pub fn finish_backup(state: &mut RuntimeState, outcome: Result<String, String>, now: i128) -> (res:
    Result<String, String>)
    requires
        outcome is Ok && old(state).config.auto_enabled ==> next_backup_fits(
            old(state).config.interval_minutes,
            now,
        ),
    ensures
        !final(state).is_running,
        is_idle(final(state).progress),
        final(state).running_since is None,
        final(state).config.minecraft_dir == old(state).config.minecraft_dir,
        final(state).config.backup_dir == old(state).config.backup_dir,
        final(state).config.selected_worlds == old(state).config.selected_worlds,
        final(state).config.google == old(state).config.google,
        final(state).config.interval_minutes == old(state).config.interval_minutes,
        final(state).config.auto_enabled == old(state).config.auto_enabled,
        match outcome {
            Ok(path) => res matches Ok(m) && m@ == "Backup criado: "@ + path@
                && final(state).config.last_result == Some(m) && final(state).config.last_backup_at
                == Some(now) && final(state).config.next_backup_at == next_backup_after(
                old(state).config.auto_enabled,
                old(state).config.interval_minutes,
                now,
            ),
            Err(e) => res == Err::<String, String>(e) && final(state).config.last_result == Some(e)
                && final(state).config.last_backup_at == old(state).config.last_backup_at
                && final(state).config.next_backup_at == old(state).config.next_backup_at,
        },
{
    end_backup_run(state);
    record_backup_outcome(&mut state.config, outcome, now)
}

/// Whether the scheduler starts a backup at `now`: backups run on their
/// own, none is running, and the next one is due.
pub fn should_run_scheduled(state: &RuntimeState, now: i128) -> (res: bool)
    ensures
        res == (state.config.auto_enabled && !state.is_running && (
        match state.config.next_backup_at {
            Some(next) => next <= now,
            None => false,
        })),
{
    state.config.auto_enabled && !state.is_running && match state.config.next_backup_at {
        Some(next) => next <= now,
        None => false,
    }
}

/// The selected worlds that are in the `saves` folder; refused when there
/// is none.
pub fn select_archive_worlds(selected: &Vec<String>, available: &Vec<String>) -> (res: Result<
    Vec<String>,
    String,
>)
    ensures
        retain_listed(selected@, available@).len() == 0 ==> (res matches Err(e) && e@
            == "Nenhum mundo selecionado foi encontrado na pasta saves"@),
        retain_listed(selected@, available@).len() > 0 ==> (res matches Ok(w) && w@
            == retain_listed(selected@, available@)),
{
    let worlds = retain_available(copy_strings(selected), available);
    if worlds.len() == 0 {
        Err(String::from_str("Nenhum mundo selecionado foi encontrado na pasta saves"))
    } else {
        Ok(worlds)
    }
}

/// The sum of a list of counts.
pub open spec fn sum_counts(counts: Seq<u64>) -> nat
    decreases counts.len(),
{
    if counts.len() == 0 {
        0
    } else {
        sum_counts(counts.drop_last()) + (counts.last() as nat)
    }
}

proof fn lemma_sum_counts_prefix(counts: Seq<u64>, i: int)
    requires
        0 <= i <= counts.len(),
    ensures
        sum_counts(counts.take(i)) <= sum_counts(counts),
    decreases counts.len() - i,
{
    if i < counts.len() {
        lemma_sum_counts_prefix(counts, i + 1);
        assert(counts.take(i + 1).drop_last() =~= counts.take(i));
    } else {
        assert(counts.take(i) =~= counts);
    }
}

/// The number of steps the compression shows: the number of files in the
/// worlds, and at least one.
pub fn total_steps(file_counts: &Vec<u64>) -> (res: u64)
    requires
        sum_counts(file_counts@) <= u64::MAX,
    ensures
        res == if sum_counts(file_counts@) == 0 {
            1
        } else {
            sum_counts(file_counts@)
        },
{
    let mut total: u64 = 0;
    let mut i: usize = 0;
    while i < file_counts.len()
        invariant
            i <= file_counts@.len(),
            total == sum_counts(file_counts@.take(i as int)),
            sum_counts(file_counts@) <= u64::MAX,
        decreases file_counts.len() - i,
    {
        proof {
            lemma_sum_counts_prefix(file_counts@, i + 1);
            assert(file_counts@.take(i + 1).drop_last() =~= file_counts@.take(i as int));
        }
        total = total + file_counts[i];
        i = i + 1;
    }
    assert(file_counts@.take(file_counts@.len() as int) =~= file_counts@);
    if total == 0 {
        1
    } else {
        total
    }
}

/// The file name of the archive made at the given local time (written as
/// `YYYY-MM-DD_HH-MM-SS`).
pub fn archive_file_name(timestamp: &str) -> (res: String)
    ensures
        res@ == "minecraft-worlds-"@ + timestamp@ + ".zip"@,
{
    crate::text::join3("minecraft-worlds-", timestamp, ".zip")
}

/// What the panel shows.
pub struct BackupStatus {
    /// The `.minecraft` folder.
    pub minecraft_dir: Option<String>,
    /// Where archives are written.
    pub backup_dir: Option<String>,
    /// The worlds in the `saves` folder.
    pub worlds: Vec<MinecraftWorld>,
    /// The selected worlds.
    pub selected_worlds: Vec<String>,
    /// Whether a Google account is connected.
    pub google_connected: bool,
    /// The account shown.
    pub google_email: Option<String>,
    /// Minutes between automatic backups.
    pub interval_minutes: u64,
    /// Whether backups run on their own.
    pub auto_enabled: bool,
    /// Whether a backup is running.
    pub is_running: bool,
    /// Its progress.
    pub progress: BackupProgress,
    /// When it started (RFC 3339).
    pub running_since: Option<String>,
    /// When the last backup finished (RFC 3339).
    pub last_backup_at: Option<String>,
    /// When the next one is due (RFC 3339).
    pub next_backup_at: Option<String>,
    /// The outcome of the last operation.
    pub last_result: Option<String>,
}

impl BackupProgress {
    /// A copy of the progress.
    pub fn duplicate(&self) -> (res: Self)
        ensures
            res == *self,
    {
        BackupProgress {
            current: self.current,
            total: self.total,
            label: self.label.clone(),
            updated_at: copy_opt_string(&self.updated_at),
        }
    }
}

/// What the panel shows of `state`, given the worlds found in the `saves`
/// folder and the instants of the state written as RFC 3339 texts.
pub fn status_from_state(
    state: &RuntimeState,
    worlds: Vec<MinecraftWorld>,
    running_since: Option<String>,
    last_backup_at: Option<String>,
    next_backup_at: Option<String>,
) -> (res: BackupStatus)
    ensures
        res.minecraft_dir == state.config.minecraft_dir,
        res.backup_dir == state.config.backup_dir,
        res.worlds == worlds,
        res.selected_worlds@ == state.config.selected_worlds@,
        res.google_connected == state.config.google.refresh_token is Some,
        res.google_email == state.config.google.email,
        res.interval_minutes == state.config.interval_minutes,
        res.auto_enabled == state.config.auto_enabled,
        res.is_running == state.is_running,
        res.progress == state.progress,
        res.running_since == running_since,
        res.last_backup_at == last_backup_at,
        res.next_backup_at == next_backup_at,
        res.last_result == state.config.last_result,
{
    BackupStatus {
        minecraft_dir: copy_opt_string(&state.config.minecraft_dir),
        backup_dir: copy_opt_string(&state.config.backup_dir),
        worlds,
        selected_worlds: copy_strings(&state.config.selected_worlds),
        google_connected: state.config.google.refresh_token.is_some(),
        google_email: copy_opt_string(&state.config.google.email),
        interval_minutes: state.config.interval_minutes,
        auto_enabled: state.config.auto_enabled,
        is_running: state.is_running,
        progress: state.progress.duplicate(),
        running_since,
        last_backup_at,
        next_backup_at,
        last_result: copy_opt_string(&state.config.last_result),
    }
}

/// Whether an archive goes on to Google Drive: only with a connected
/// account; without one it stays where it was written.
pub fn should_upload(google: &crate::config::GoogleConfig) -> (res: bool)
    ensures
        res == google.refresh_token is Some,
{
    google.refresh_token.is_some()
}

} // verus!

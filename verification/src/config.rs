//! The user's settings and the Google account state kept with them, and
//! the changes that the settings panel makes to them.
//!
//! Instants are nanoseconds since the Unix epoch, in UTC.
use vstd::prelude::*;

verus! {

/// The Google Drive account state.
pub struct GoogleConfig {
    /// The OAuth client to sign in with, when the user configured one.
    pub client_id: Option<String>,
    /// The long-lived token that gets new access tokens.
    pub refresh_token: Option<String>,
    /// The current access token.
    pub access_token: Option<String>,
    /// When the access token stops being usable.
    pub expires_at: Option<i128>,
    /// What the panel shows as the connected account.
    pub email: Option<String>,
    /// The Drive folder that backups go to, once found or created.
    pub drive_folder_id: Option<String>,
}

/// The settings of the application.
pub struct AppConfig {
    /// The `.minecraft` folder.
    pub minecraft_dir: Option<String>,
    /// Where archives are written.
    pub backup_dir: Option<String>,
    /// The identifiers of the worlds to back up.
    pub selected_worlds: Vec<String>,
    /// The Google Drive account.
    pub google: GoogleConfig,
    /// Minutes between two automatic backups.
    pub interval_minutes: u64,
    /// Whether backups run on their own.
    pub auto_enabled: bool,
    /// When the last backup finished.
    pub last_backup_at: Option<i128>,
    /// When the next automatic backup is due.
    pub next_backup_at: Option<i128>,
    /// The outcome of the last operation, as shown to the user.
    pub last_result: Option<String>,
}

/// A copy of an optional string.
pub fn copy_opt_string(o: &Option<String>) -> (res: Option<String>)
    ensures
        res == *o,
{
    match o {
        Some(s) => Some(s.clone()),
        None => None,
    }
}

/// A copy of a list of strings.
pub fn copy_strings(v: &Vec<String>) -> (res: Vec<String>)
    ensures
        res@ == v@,
{
    let mut res: Vec<String> = Vec::new();
    let mut i: usize = 0;
    while i < v.len()
        invariant
            i <= v@.len(),
            res@ == v@.take(i as int),
        decreases v.len() - i,
    {
        res.push(v[i].clone());
        i = i + 1;
        assert(res@ =~= v@.take(i as int));
    }
    assert(v@.take(v@.len() as int) =~= v@);
    res
}

impl GoogleConfig {
    /// An account state with nothing in it.
    pub fn empty() -> (res: Self)
        ensures
            res.client_id is None,
            res.refresh_token is None,
            res.access_token is None,
            res.expires_at is None,
            res.email is None,
            res.drive_folder_id is None,
    {
        GoogleConfig {
            client_id: None,
            refresh_token: None,
            access_token: None,
            expires_at: None,
            email: None,
            drive_folder_id: None,
        }
    }

    /// A copy of the account state.
    pub fn duplicate(&self) -> (res: Self)
        ensures
            res == *self,
    {
        GoogleConfig {
            client_id: copy_opt_string(&self.client_id),
            refresh_token: copy_opt_string(&self.refresh_token),
            access_token: copy_opt_string(&self.access_token),
            expires_at: self.expires_at,
            email: copy_opt_string(&self.email),
            drive_folder_id: copy_opt_string(&self.drive_folder_id),
        }
    }
}

impl Default for GoogleConfig {
    fn default() -> (res: Self)
        ensures
            res.client_id is None,
            res.refresh_token is None,
            res.access_token is None,
            res.expires_at is None,
            res.email is None,
            res.drive_folder_id is None,
    {
        GoogleConfig::empty()
    }
}

/// The number of minutes between backups when the user has not chosen.
pub const DEFAULT_INTERVAL_MINUTES: u64 = 60;

/// The shortest interval the user can choose, in minutes.
pub const MIN_INTERVAL_MINUTES: u64 = 5;

/// The longest interval the user can choose, in minutes (a day).
pub const MAX_INTERVAL_MINUTES: u64 = 1440;

/// The largest number of minutes that a time span can hold (the bound of
/// `chrono::TimeDelta::minutes`).
pub const MAX_SPAN_MINUTES: i64 = 153722867280912;

/// Nanoseconds in a second.
pub const SECOND_NANOS: i128 = 1000000000;

/// Nanoseconds in a minute.
pub const MINUTE_NANOS: i128 = 60000000000;

/// The earliest instant a date and time can hold: the first moment of
/// January 1 of the year -262143 (the bound of `chrono::NaiveDateTime`).
pub const EARLIEST_INSTANT: i128 = -8334601228800000000000;

/// The latest instant a date and time can hold: the last nanosecond of
/// December 31 of the year 262142 (the bound of `chrono::NaiveDateTime`).
pub const LATEST_INSTANT: i128 = 8210266876799999999999;

/// Whether `t` nanoseconds since the epoch is a date and time.
pub open spec fn is_instant(t: int) -> bool {
    EARLIEST_INSTANT <= t <= LATEST_INSTANT
}

/// The interval as the signed number that `as i64` makes of it.
pub open spec fn signed_minutes(minutes: u64) -> int {
    if minutes <= i64::MAX {
        minutes as int
    } else {
        minutes - 0x1_0000_0000_0000_0000
    }
}

/// Whether `now` plus the interval is a date and time: the span fits a
/// time delta and the sum is an instant.
pub open spec fn next_backup_fits(minutes: u64, now: i128) -> bool {
    let m = signed_minutes(minutes);
    &&& -MAX_SPAN_MINUTES <= m <= MAX_SPAN_MINUTES
    &&& is_instant(now + m * MINUTE_NANOS)
}

/// When the next automatic backup is due: an interval after `now` when
/// backups run on their own, else never.
pub open spec fn next_backup_after(auto_enabled: bool, minutes: u64, now: i128) -> Option<i128> {
    if auto_enabled {
        Some((now + signed_minutes(minutes) * MINUTE_NANOS) as i128)
    } else {
        None
    }
}

/// Whether `available` lists a world with the same identifier as `w`.
pub open spec fn is_listed(available: Seq<String>, w: String) -> bool {
    exists|i: int| 0 <= i < available.len() && #[trigger] available[i]@ == w@
}

/// The worlds of `names` that `available` lists, in their order.
pub open spec fn retain_listed(names: Seq<String>, available: Seq<String>) -> Seq<String>
    decreases names.len(),
{
    if names.len() == 0 {
        seq![]
    } else {
        let r = retain_listed(names.drop_last(), available);
        if is_listed(available, names.last()) {
            r.push(names.last())
        } else {
            r
        }
    }
}

/// The interval the user asked for, brought into the allowed range.
pub open spec fn clamp_interval_spec(minutes: u64) -> u64 {
    if minutes < MIN_INTERVAL_MINUTES {
        MIN_INTERVAL_MINUTES
    } else if minutes > MAX_INTERVAL_MINUTES {
        MAX_INTERVAL_MINUTES
    } else {
        minutes
    }
}

/// The interval the user asked for, brought into `[5, 1440]` minutes.
pub fn clamp_interval(minutes: u64) -> (res: u64)
    ensures
        res == clamp_interval_spec(minutes),
        MIN_INTERVAL_MINUTES <= res <= MAX_INTERVAL_MINUTES,
{
    if minutes < MIN_INTERVAL_MINUTES {
        MIN_INTERVAL_MINUTES
    } else if minutes > MAX_INTERVAL_MINUTES {
        MAX_INTERVAL_MINUTES
    } else {
        minutes
    }
}

/// The instant an interval after `now`.
fn instant_after(minutes: u64, now: i128) -> (res: i128)
    requires
        next_backup_fits(minutes, now),
    ensures
        res == now + signed_minutes(minutes) * MINUTE_NANOS,
{
    let m: i128 = if minutes <= i64::MAX as u64 {
        minutes as i128
    } else {
        minutes as i128 - 0x1_0000_0000_0000_0000i128
    };
    assert(m == signed_minutes(minutes));
    assert(-10000000000000000000000000 <= m * MINUTE_NANOS <= 10000000000000000000000000)
        by (nonlinear_arith)
        requires
            -MAX_SPAN_MINUTES <= m <= MAX_SPAN_MINUTES,
    ;
    now + m * MINUTE_NANOS
}

/// Whether `available` lists `w`.
pub fn contains_name(available: &Vec<String>, w: &String) -> (res: bool)
    ensures
        res == is_listed(available@, *w),
        res == exists|j: int| 0 <= j < available@.len() && #[trigger] available@[j]@ == w@,
{
    let mut i: usize = 0;
    while i < available.len()
        invariant
            i <= available@.len(),
            forall|j: int| 0 <= j < i ==> available@[j]@ != w@,
        decreases available.len() - i,
    {
        if available[i] == *w {
            return true;
        }
        i = i + 1;
    }
    false
}

/// The worlds of `names` that `available` lists, in their order.
pub fn retain_available(names: Vec<String>, available: &Vec<String>) -> (res: Vec<String>)
    ensures
        res@ == retain_listed(names@, available@),
{
    let mut res: Vec<String> = Vec::new();
    let mut i: usize = 0;
    while i < names.len()
        invariant
            i <= names@.len(),
            res@ == retain_listed(names@.take(i as int), available@),
        decreases names.len() - i,
    {
        let w = names[i].clone();
        assert(names@.take(i + 1).drop_last() =~= names@.take(i as int));
        assert(names@.take(i + 1).last() == names@[i as int]);
        if contains_name(available, &w) {
            res.push(w);
        }
        i = i + 1;
    }
    assert(names@.take(names@.len() as int) =~= names@);
    res
}

impl AppConfig {
    /// The settings of a first start, given the folders found on the
    /// machine.
    pub fn initial(minecraft_dir: Option<String>, backup_dir: Option<String>) -> (res: Self)
        ensures
            res.minecraft_dir == minecraft_dir,
            res.backup_dir == backup_dir,
            res.selected_worlds@.len() == 0,
            res.google.client_id is None && res.google.refresh_token is None
                && res.google.access_token is None && res.google.expires_at is None
                && res.google.email is None && res.google.drive_folder_id is None,
            res.interval_minutes == DEFAULT_INTERVAL_MINUTES,
            !res.auto_enabled,
            res.last_backup_at is None,
            res.next_backup_at is None,
            res.last_result is None,
    {
        AppConfig {
            minecraft_dir,
            backup_dir,
            selected_worlds: Vec::new(),
            google: GoogleConfig::empty(),
            interval_minutes: DEFAULT_INTERVAL_MINUTES,
            auto_enabled: false,
            last_backup_at: None,
            next_backup_at: None,
            last_result: None,
        }
    }

    /// A copy of the settings.
    pub fn duplicate(&self) -> (res: Self)
        ensures
            res.minecraft_dir == self.minecraft_dir,
            res.backup_dir == self.backup_dir,
            res.selected_worlds@ == self.selected_worlds@,
            res.google == self.google,
            res.interval_minutes == self.interval_minutes,
            res.auto_enabled == self.auto_enabled,
            res.last_backup_at == self.last_backup_at,
            res.next_backup_at == self.next_backup_at,
            res.last_result == self.last_result,
    {
        AppConfig {
            minecraft_dir: copy_opt_string(&self.minecraft_dir),
            backup_dir: copy_opt_string(&self.backup_dir),
            selected_worlds: copy_strings(&self.selected_worlds),
            google: self.google.duplicate(),
            interval_minutes: self.interval_minutes,
            auto_enabled: self.auto_enabled,
            last_backup_at: self.last_backup_at,
            next_backup_at: self.next_backup_at,
            last_result: copy_opt_string(&self.last_result),
        }
    }
}

/// Sets when the next automatic backup is due: an interval after `now`
/// when backups run on their own, else never.
pub fn refresh_next_backup(config: &mut AppConfig, now: i128)
    requires
        old(config).auto_enabled ==> next_backup_fits(old(config).interval_minutes, now),
    ensures
        final(config).next_backup_at == next_backup_after(
            old(config).auto_enabled,
            old(config).interval_minutes,
            now,
        ),
        final(config).minecraft_dir == old(config).minecraft_dir,
        final(config).backup_dir == old(config).backup_dir,
        final(config).selected_worlds == old(config).selected_worlds,
        final(config).google == old(config).google,
        final(config).interval_minutes == old(config).interval_minutes,
        final(config).auto_enabled == old(config).auto_enabled,
        final(config).last_backup_at == old(config).last_backup_at,
        final(config).last_result == old(config).last_result,
{
    config.next_backup_at = if config.auto_enabled {
        Some(instant_after(config.interval_minutes, now))
    } else {
        None
    };
}

/// Drops from the selection the worlds that `available` no longer lists.
pub fn sync_selected_worlds(config: &mut AppConfig, available: &Vec<String>)
    ensures
        final(config).selected_worlds@ == retain_listed(old(config).selected_worlds@, available@),
        final(config).minecraft_dir == old(config).minecraft_dir,
        final(config).backup_dir == old(config).backup_dir,
        final(config).google == old(config).google,
        final(config).interval_minutes == old(config).interval_minutes,
        final(config).auto_enabled == old(config).auto_enabled,
        final(config).last_backup_at == old(config).last_backup_at,
        final(config).next_backup_at == old(config).next_backup_at,
        final(config).last_result == old(config).last_result,
{
    let mut selected: Vec<String> = Vec::new();
    std::mem::swap(&mut selected, &mut config.selected_worlds);
    config.selected_worlds = retain_available(selected, available);
}

/// Chooses the `.minecraft` folder; `available` lists the worlds found in
/// its `saves` folder.
pub fn set_minecraft_dir(config: &mut AppConfig, dir: String, available: &Vec<String>, now: i128)
    requires
        old(config).auto_enabled ==> next_backup_fits(old(config).interval_minutes, now),
    ensures
        final(config).minecraft_dir == Some(dir),
        final(config).selected_worlds@ == retain_listed(old(config).selected_worlds@, available@),
        final(config).next_backup_at == next_backup_after(
            old(config).auto_enabled,
            old(config).interval_minutes,
            now,
        ),
        final(config).backup_dir == old(config).backup_dir,
        final(config).google == old(config).google,
        final(config).interval_minutes == old(config).interval_minutes,
        final(config).auto_enabled == old(config).auto_enabled,
        final(config).last_backup_at == old(config).last_backup_at,
        final(config).last_result == old(config).last_result,
{
    config.minecraft_dir = Some(dir);
    sync_selected_worlds(config, available);
    refresh_next_backup(config, now);
}

/// Chooses the folder archives are written to.
pub fn set_backup_dir(config: &mut AppConfig, dir: String, now: i128)
    requires
        old(config).auto_enabled ==> next_backup_fits(old(config).interval_minutes, now),
    ensures
        final(config).backup_dir == Some(dir),
        final(config).next_backup_at == next_backup_after(
            old(config).auto_enabled,
            old(config).interval_minutes,
            now,
        ),
        final(config).minecraft_dir == old(config).minecraft_dir,
        final(config).selected_worlds == old(config).selected_worlds,
        final(config).google == old(config).google,
        final(config).interval_minutes == old(config).interval_minutes,
        final(config).auto_enabled == old(config).auto_enabled,
        final(config).last_backup_at == old(config).last_backup_at,
        final(config).last_result == old(config).last_result,
{
    config.backup_dir = Some(dir);
    refresh_next_backup(config, now);
}

/// Sets the interval between automatic backups, brought into range.
pub fn set_interval_minutes(config: &mut AppConfig, minutes: u64, now: i128)
    requires
        old(config).auto_enabled ==> next_backup_fits(clamp_interval_spec(minutes), now),
    ensures
        final(config).interval_minutes == clamp_interval_spec(minutes),
        final(config).next_backup_at == next_backup_after(
            old(config).auto_enabled,
            clamp_interval_spec(minutes),
            now,
        ),
        final(config).minecraft_dir == old(config).minecraft_dir,
        final(config).backup_dir == old(config).backup_dir,
        final(config).selected_worlds == old(config).selected_worlds,
        final(config).google == old(config).google,
        final(config).auto_enabled == old(config).auto_enabled,
        final(config).last_backup_at == old(config).last_backup_at,
        final(config).last_result == old(config).last_result,
{
    config.interval_minutes = clamp_interval(minutes);
    refresh_next_backup(config, now);
}

/// Turns automatic backups on or off.
pub fn set_auto_enabled(config: &mut AppConfig, enabled: bool, now: i128)
    requires
        enabled ==> next_backup_fits(old(config).interval_minutes, now),
    ensures
        final(config).auto_enabled == enabled,
        final(config).next_backup_at == next_backup_after(
            enabled,
            old(config).interval_minutes,
            now,
        ),
        final(config).minecraft_dir == old(config).minecraft_dir,
        final(config).backup_dir == old(config).backup_dir,
        final(config).selected_worlds == old(config).selected_worlds,
        final(config).google == old(config).google,
        final(config).interval_minutes == old(config).interval_minutes,
        final(config).last_backup_at == old(config).last_backup_at,
        final(config).last_result == old(config).last_result,
{
    config.auto_enabled = enabled;
    refresh_next_backup(config, now);
}

/// Chooses the worlds to back up, keeping those that `available` lists.
pub fn set_selected_worlds(
    config: &mut AppConfig,
    worlds: Vec<String>,
    available: &Vec<String>,
    now: i128,
)
    requires
        old(config).auto_enabled ==> next_backup_fits(old(config).interval_minutes, now),
    ensures
        final(config).selected_worlds@ == retain_listed(worlds@, available@),
        final(config).next_backup_at == next_backup_after(
            old(config).auto_enabled,
            old(config).interval_minutes,
            now,
        ),
        final(config).minecraft_dir == old(config).minecraft_dir,
        final(config).backup_dir == old(config).backup_dir,
        final(config).google == old(config).google,
        final(config).interval_minutes == old(config).interval_minutes,
        final(config).auto_enabled == old(config).auto_enabled,
        final(config).last_backup_at == old(config).last_backup_at,
        final(config).last_result == old(config).last_result,
{
    config.selected_worlds = retain_available(worlds, available);
    refresh_next_backup(config, now);
}

/// Signs out of Google Drive: forgets the tokens, the account and the
/// folder, and keeps the configured client.
pub fn google_logout(google: &mut GoogleConfig)
    ensures
        final(google).client_id == old(google).client_id,
        final(google).refresh_token is None,
        final(google).access_token is None,
        final(google).expires_at is None,
        final(google).email is None,
        final(google).drive_folder_id is None,
{
    google.refresh_token = None;
    google.access_token = None;
    google.expires_at = None;
    google.email = None;
    google.drive_folder_id = None;
}

/// The settings as written to disk: the tokens are kept out of the file
/// (the refresh token lives in the system keyring).
pub fn config_for_disk(config: &AppConfig) -> (res: AppConfig)
    ensures
        res.google.refresh_token is None,
        res.google.access_token is None,
        res.google.expires_at is None,
        res.google.client_id == config.google.client_id,
        res.google.email == config.google.email,
        res.google.drive_folder_id == config.google.drive_folder_id,
        res.minecraft_dir == config.minecraft_dir,
        res.backup_dir == config.backup_dir,
        res.selected_worlds@ == config.selected_worlds@,
        res.interval_minutes == config.interval_minutes,
        res.auto_enabled == config.auto_enabled,
        res.last_backup_at == config.last_backup_at,
        res.next_backup_at == config.next_backup_at,
        res.last_result == config.last_result,
{
    let mut disk = config.duplicate();
    disk.google.refresh_token = None;
    disk.google.access_token = None;
    disk.google.expires_at = None;
    disk
}

/// The selection keeps exactly the listed worlds: every world it keeps is
/// available, and every available world of `names` is kept.
pub proof fn law_selection_is_the_available_worlds(names: Seq<String>, available: Seq<String>)
    ensures
        forall|i: int|
            0 <= i < retain_listed(names, available).len() ==> is_listed(
                available,
                #[trigger] retain_listed(names, available)[i],
            ),
        forall|i: int|
            0 <= i < names.len() && is_listed(available, #[trigger] names[i]) ==> retain_listed(
                names,
                available,
            ).contains(names[i]),
    decreases names.len(),
{
    if names.len() > 0 {
        let init = names.drop_last();
        law_selection_is_the_available_worlds(init, available);
        let r = retain_listed(init, available);
        assert forall|i: int|
            0 <= i < retain_listed(names, available).len() implies is_listed(
            available,
            #[trigger] retain_listed(names, available)[i],
        ) by {
            if i < r.len() {
                assert(retain_listed(names, available)[i] == r[i]);
            }
        }
        assert forall|i: int|
            0 <= i < names.len() && is_listed(available, #[trigger] names[i]) implies retain_listed(
            names,
            available,
        ).contains(names[i]) by {
            if i < names.len() - 1 {
                assert(names[i] == init[i]);
                let k = choose|k: int| 0 <= k < r.len() && r[k] == init[i];
                assert(retain_listed(names, available)[k] == r[k]);
            } else {
                let full = retain_listed(names, available);
                assert(full[full.len() - 1] == names.last());
            }
        }
    }
}

/// Bringing the selection up to date twice changes nothing the second
/// time.
pub proof fn law_sync_is_idempotent(names: Seq<String>, available: Seq<String>)
    ensures
        retain_listed(retain_listed(names, available), available) == retain_listed(
            names,
            available,
        ),
    decreases names.len(),
{
    if names.len() > 0 {
        let init = names.drop_last();
        law_sync_is_idempotent(init, available);
        let r = retain_listed(init, available);
        if is_listed(available, names.last()) {
            assert(r.push(names.last()).drop_last() =~= r);
        }
    }
}


/// A world counts as available exactly when some available world has the
/// very same identifier: not a longer one that starts with it, nor any
/// other.
pub proof fn law_listed_means_same_identifier(available: Seq<String>, w: String)
    ensures
        is_listed(available, w) <==> exists|j: int|
            0 <= j < available.len() && #[trigger] available[j]@ == w@,
        (forall|j: int| 0 <= j < available.len() ==> #[trigger] available[j]@ != w@)
            ==> !is_listed(available, w),
{
}

/// Every world the selection keeps has the identifier of an available
/// world, character for character.
pub proof fn law_kept_worlds_are_exactly_available(
    names: Seq<String>,
    available: Seq<String>,
    i: int,
)
    requires
        0 <= i < retain_listed(names, available).len(),
    ensures
        exists|j: int|
            #![trigger available[j]]
            0 <= j < available.len() && available[j]@ == retain_listed(names, available)[i]@,
{
    law_selection_is_the_available_worlds(names, available);
    let r = retain_listed(names, available);
    assert(is_listed(available, r[i]));
}

/// A world whose identifier no available world has is never kept.
pub proof fn law_missing_worlds_are_dropped(names: Seq<String>, available: Seq<String>, w: String)
    requires
        forall|j: int| 0 <= j < available.len() ==> #[trigger] available[j]@ != w@,
    ensures
        !retain_listed(names, available).contains(w),
{
    law_selection_is_the_available_worlds(names, available);
    let r = retain_listed(names, available);
    if r.contains(w) {
        let i = choose|i: int| 0 <= i < r.len() && r[i] == w;
        assert(is_listed(available, r[i]));
    }
}

} // verus!

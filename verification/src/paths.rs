//! Where the application keeps its files. A path is written as the list
//! of its components, from the root.
use vstd::prelude::*;
use crate::config::copy_strings;

verus! {

/// The components of a path, as texts.
pub open spec fn parts(p: Seq<String>) -> Seq<Seq<char>> {
    p.map_values(|s: String| s@)
}

/// The name of the application's own folders.
pub open spec fn app_folder() -> Seq<char> {
    "Mine AutoBackup"@
}

fn push_part(p: &mut Vec<String>, part: &str)
    ensures
        parts(final(p)@) == parts(old(p)@).push(part@),
{
    let ghost before = p@;
    p.push(String::from_str(part));
    assert(parts(p@) =~= parts(before).push(part@));
}

/// The settings file: `Mine AutoBackup/config.json` in the user's
/// configuration folder, else in the working folder, else in `.`.
pub fn config_file_path(config_dir: Option<Vec<String>>, current_dir: Option<Vec<String>>) -> (res:
    Vec<String>)
    ensures
        ({
            let base: Seq<Seq<char>> = match config_dir {
                Some(d) => parts(d@),
                None => match current_dir {
                    Some(c) => parts(c@),
                    None => seq!["."@],
                },
            };
            parts(res@) == base.push(app_folder()).push("config.json"@)
        }),
{
    let mut res = match config_dir {
        Some(d) => d,
        None => match current_dir {
            Some(c) => c,
            None => {
                let mut dot: Vec<String> = Vec::new();
                push_part(&mut dot, ".");
                assert(parts(dot@) =~= seq!["."@]);
                dot
            },
        },
    };
    push_part(&mut res, "Mine AutoBackup");
    push_part(&mut res, "config.json");
    res
}

/// Where archives go when the user chose no folder: `staging` beside the
/// settings file (or `Mine AutoBackup/staging` when that file has no
/// folder).
pub fn default_staging_backup_dir(config_file: &Vec<String>) -> (res: Vec<String>)
    ensures
        config_file@.len() > 0 ==> parts(res@) == parts(config_file@.drop_last()).push(
            "staging"@,
        ),
        config_file@.len() == 0 ==> parts(res@) == seq![app_folder(), "staging"@],
{
    if config_file.len() > 0 {
        let mut res = copy_strings(config_file);
        let _ = res.pop();
        assert(res@ =~= config_file@.drop_last());
        push_part(&mut res, "staging");
        res
    } else {
        let mut res: Vec<String> = Vec::new();
        push_part(&mut res, "Mine AutoBackup");
        push_part(&mut res, "staging");
        assert(parts(res@) =~= seq![app_folder(), "staging"@]);
        res
    }
}

/// The folders where a synchronised Google Drive may keep backups, in the
/// order they are tried: `Google Drive`, `My Drive` and `Meu Drive` in the
/// home folder, each with a `Mine AutoBackup` folder.
pub fn drive_backup_candidates(home: &Vec<String>) -> (res: Vec<Vec<String>>)
    ensures
        res@.len() == 3,
        parts(res@[0]@) == parts(home@).push("Google Drive"@).push(app_folder()),
        parts(res@[1]@) == parts(home@).push("My Drive"@).push(app_folder()),
        parts(res@[2]@) == parts(home@).push("Meu Drive"@).push(app_folder()),
{
    let mut a = copy_strings(home);
    push_part(&mut a, "Google Drive");
    push_part(&mut a, "Mine AutoBackup");
    let mut b = copy_strings(home);
    push_part(&mut b, "My Drive");
    push_part(&mut b, "Mine AutoBackup");
    let mut c = copy_strings(home);
    push_part(&mut c, "Meu Drive");
    push_part(&mut c, "Mine AutoBackup");
    let mut res: Vec<Vec<String>> = Vec::new();
    res.push(a);
    res.push(b);
    res.push(c);
    res
}

/// The `.minecraft` folder in the user's data folder.
pub fn minecraft_dir_candidate(data_dir: &Vec<String>) -> (res: Vec<String>)
    ensures
        parts(res@) == parts(data_dir@).push(".minecraft"@),
{
    let mut res = copy_strings(data_dir);
    push_part(&mut res, ".minecraft");
    res
}

} // verus!

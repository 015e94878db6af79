use mine_autobackup::paths::{
    config_file_path, default_staging_backup_dir, drive_backup_candidates, minecraft_dir_candidate,
};
use mine_autobackup::text::{decimal_string, is_blank, white_space};

fn strings(v: &[&str]) -> Vec<String> {
    v.iter().map(|s| s.to_string()).collect()
}

#[test]
fn settings_file_location() {
    assert_eq!(config_file_path(Some(strings(&["/", "home", "u", ".config"])), None), strings(&["/", "home", "u", ".config", "Mine AutoBackup", "config.json"]));
    assert_eq!(config_file_path(None, Some(strings(&["/", "work"]))), strings(&["/", "work", "Mine AutoBackup", "config.json"]));
    assert_eq!(config_file_path(None, None), strings(&[".", "Mine AutoBackup", "config.json"]));
}

#[test]
fn staging_folder() {
    let file = strings(&["/", "cfg", "Mine AutoBackup", "config.json"]);
    assert_eq!(default_staging_backup_dir(&file), strings(&["/", "cfg", "Mine AutoBackup", "staging"]));
    assert_eq!(default_staging_backup_dir(&Vec::new()), strings(&["Mine AutoBackup", "staging"]));
}

#[test]
fn drive_candidates() {
    let c = drive_backup_candidates(&strings(&["/", "home", "u"]));
    assert_eq!(c, vec![
        strings(&["/", "home", "u", "Google Drive", "Mine AutoBackup"]),
        strings(&["/", "home", "u", "My Drive", "Mine AutoBackup"]),
        strings(&["/", "home", "u", "Meu Drive", "Mine AutoBackup"]),
    ]);
    assert_eq!(minecraft_dir_candidate(&strings(&["/", "data"])), strings(&["/", "data", ".minecraft"]));
}

#[test]
fn white_space_matches_std() {
    for code in 0u32..0x11_0000 {
        if let Some(c) = char::from_u32(code) {
            assert_eq!(white_space(c), c.is_whitespace(), "char {:#x}", code);
        }
    }
}

#[test]
fn blank_matches_trim() {
    for s in ["", " ", "\t\n\u{a0}\u{3000}", " x ", "x", "\u{200b}"] {
        assert_eq!(is_blank(s), s.trim().is_empty(), "text {:?}", s);
    }
}

#[test]
fn decimals() {
    for n in [0u64, 7, 10, 99, 100, 12345, u64::MAX] {
        assert_eq!(decimal_string(n), n.to_string());
    }
}

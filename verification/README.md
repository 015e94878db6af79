# mine_autobackup

The logic of Mine AutoBackup, a tray application that zips selected
Minecraft worlds and uploads the archive to Google Drive, written in Verus
with its behaviour stated in contracts and proved.

- `src/url.rs`: percent-encoding, query values, the OAuth redirect request.
- `src/oauth.rs`: PKCE, the sign-in address, token forms and answers.
- `src/config.rs`: the settings and what the settings panel changes
  (instants are nanoseconds since the Unix epoch).
- `src/backup.rs`: starting and finishing a backup, the scheduler, the status.
- `src/upload.rs`: the resumable Drive upload (chunks, ranges, answers,
  metadata).
- `src/progress.rs`: byte counts, progress labels, archive entry names.
- `src/worlds.rs`: which folders are worlds and the order they are listed in.
- `src/paths.rs`: where the settings and archives live.
- `src/walk.rs`: counting the files and bytes of a world folder, and the
  entries written to the archive, in order, with their progress.
- `src/text.rs`: strings, decimal numerals, Unicode white space.
- `app/`: the Tauri shell (window, tray, files, keyring, HTTP), which calls
  the library for every decision.

use kubo::daemon::{EventKind, Outcome, handle_event};
use kubo::kpath::KPath;
use kubo::kubo_manager::{KuboManager, Locked};
use kubo::operations::MirrorOutcome;

fn kp(s: &str) -> KPath {
    KPath::new(s.as_bytes().to_vec()).unwrap()
}

fn bytes(s: &str) -> Vec<u8> {
    s.as_bytes().to_vec()
}

/// Makes a fresh scratch directory for one test and returns its path.
fn fresh_dir(name: &str) -> String {
    let dir = format!("/tmp/kubo_check_{}", name);
    let _ = fs_extra::dir::remove(&dir);
    fs_extra::dir::create_all(&dir, true).unwrap();
    dir
}

fn write(path: &str, content: &str) {
    fs_extra::file::write_all(path, content).unwrap();
}

fn read(path: &str) -> String {
    fs_extra::file::read_to_string(path).unwrap()
}

/// Whether a file or directory exists at the path.
fn on_disk(path: &str) -> bool {
    fs_extra::file::read_to_string(path).is_ok() || fs_extra::dir::get_dir_content(path).is_ok()
}

fn locked_registry(home: &str, entries: &[(&str, &str)]) -> KuboManager<Locked> {
    let mut m = KuboManager::new(&kp(home));
    for (src, tgt) in entries {
        m = m.add_path(kp(src), bytes(tgt));
    }
    m.lock()
}

#[test]
fn initial_sync_mirrors_a_file_byte_identical() {
    let home = fresh_dir("sync_file");
    let src = format!("{}/.bashrc", home);
    write(&src, "export EDITOR=hx\n");
    let m = locked_registry(&home, &[(&src, "shell")]);
    let (_m, report) = m.initial_copy();
    assert_eq!(report.len(), 1);
    assert!(matches!(report[0], MirrorOutcome::Copied(_)));
    let mirrored = format!("{}/.kubo/shell/.bashrc", home);
    assert_eq!(read(&mirrored), "export EDITOR=hx\n");
}

#[test]
fn initial_sync_mirrors_a_directory_tree() {
    let home = fresh_dir("sync_dir");
    let src = format!("{}/.config/nvim", home);
    fs_extra::dir::create_all(format!("{}/lua", src), true).unwrap();
    write(&format!("{}/init.lua", src), "print(1)\n");
    write(&format!("{}/lua/a.lua", src), "print(2)\n");
    let m = locked_registry(&home, &[(&src, "nvim")]);
    let (_m, report) = m.initial_copy();
    assert!(matches!(report[0], MirrorOutcome::Copied(_)));
    let base = format!("{}/.kubo/nvim/nvim", home);
    assert_eq!(read(&format!("{}/init.lua", base)), "print(1)\n");
    assert_eq!(read(&format!("{}/lua/a.lua", base)), "print(2)\n");
}

#[test]
fn unmanaged_path_causes_no_mirror_write() {
    let home = fresh_dir("unmanaged");
    let src = format!("{}/.bashrc", home);
    let outside = format!("{}/notes.txt", home);
    write(&src, "a\n");
    write(&outside, "b\n");
    let m = locked_registry(&home, &[(&src, "shell")]);
    let (m, _) = m.initial_copy();
    let (_m, outcomes) = handle_event(m, EventKind::Modified, &vec![kp(&outside)]);
    assert_eq!(outcomes.len(), 1);
    assert!(matches!(outcomes[0].1, Outcome::Mirror(MirrorOutcome::NotManaged)));
    let mirror_root = format!("{}/.kubo", home);
    let shell_dir = fs_extra::dir::get_dir_content(format!("{}/shell", mirror_root)).unwrap();
    assert_eq!(shell_dir.files.len(), 1);
}

#[test]
fn modified_event_updates_the_mirror() {
    let home = fresh_dir("modified");
    let src = format!("{}/.bashrc", home);
    write(&src, "one\n");
    let m = locked_registry(&home, &[(&src, "shell")]);
    let (m, _) = m.initial_copy();
    write(&src, "two\n");
    let (_m, outcomes) = handle_event(m, EventKind::Modified, &vec![kp(&src)]);
    assert!(matches!(outcomes[0].1, Outcome::Mirror(MirrorOutcome::Copied(_))));
    assert_eq!(read(&format!("{}/.kubo/shell/.bashrc", home)), "two\n");
}

#[test]
fn duplicate_events_in_one_batch_yield_one_operation() {
    let home = fresh_dir("debounce");
    let src = format!("{}/.bashrc", home);
    write(&src, "x\n");
    let m = locked_registry(&home, &[(&src, "shell")]);
    let (m, _) = m.initial_copy();
    let batch = vec![kp(&src), kp(&src), kp(&src)];
    let (_m, outcomes) = handle_event(m, EventKind::Modified, &batch);
    assert_eq!(outcomes.len(), 1);
    assert!(matches!(outcomes[0].1, Outcome::Mirror(MirrorOutcome::Copied(_))));
}

#[test]
fn removed_event_deletes_the_mirror_file() {
    let home = fresh_dir("removed");
    let src = format!("{}/.bashrc", home);
    write(&src, "gone\n");
    let m = locked_registry(&home, &[(&src, "shell")]);
    let (m, _) = m.initial_copy();
    let mirrored = format!("{}/.kubo/shell/.bashrc", home);
    assert!(on_disk(&mirrored));
    fs_extra::file::remove(&src).unwrap();
    let (_m, outcomes) = handle_event(m, EventKind::Removed, &vec![kp(&src)]);
    assert!(matches!(outcomes[0].1, Outcome::Mirror(MirrorOutcome::Deleted(_))));
    assert!(!on_disk(&mirrored));
}

#[test]
fn removed_event_for_existing_path_is_ignored() {
    let home = fresh_dir("removed_exists");
    let src = format!("{}/.bashrc", home);
    write(&src, "still here\n");
    let m = locked_registry(&home, &[(&src, "shell")]);
    let (m, _) = m.initial_copy();
    let (_m, outcomes) = handle_event(m, EventKind::Removed, &vec![kp(&src)]);
    assert!(matches!(outcomes[0].1, Outcome::Ignored));
    assert_eq!(read(&format!("{}/.kubo/shell/.bashrc", home)), "still here\n");
}

#[test]
fn delete_and_recreate_directory_round_trips() {
    let home = fresh_dir("dir_roundtrip");
    let src = format!("{}/.config/nvim", home);
    fs_extra::dir::create_all(&src, true).unwrap();
    write(&format!("{}/init.lua", src), "print(1)\n");
    let m = locked_registry(&home, &[(&src, "nvim")]);
    let (m, _) = m.initial_copy();
    let base = format!("{}/.kubo/nvim/nvim", home);
    assert_eq!(read(&format!("{}/init.lua", base)), "print(1)\n");

    fs_extra::dir::remove(&src).unwrap();
    let (m, outcomes) = handle_event(m, EventKind::Removed, &vec![kp(&src)]);
    assert!(matches!(outcomes[0].1, Outcome::Mirror(MirrorOutcome::Deleted(_))));
    assert!(!on_disk(&base));

    fs_extra::dir::create_all(&src, true).unwrap();
    write(&format!("{}/init.lua", src), "print(1)\n");
    let (_m, outcomes) = handle_event(m, EventKind::Modified, &vec![kp(&src)]);
    assert!(matches!(outcomes[0].1, Outcome::Mirror(MirrorOutcome::Copied(_))));
    assert_eq!(read(&format!("{}/init.lua", base)), "print(1)\n");
}

#[test]
fn other_event_kinds_are_ignored() {
    let home = fresh_dir("other_kind");
    let src = format!("{}/.bashrc", home);
    write(&src, "x\n");
    let m = locked_registry(&home, &[(&src, "shell")]);
    let (_m, outcomes) = handle_event(m, EventKind::Other, &vec![kp(&src)]);
    assert_eq!(outcomes.len(), 1);
    assert!(matches!(outcomes[0].1, Outcome::Ignored));
    assert!(!on_disk(&format!("{}/.kubo/shell/.bashrc", home)));
}

#[test]
fn read_config_loads_the_mapping_file() {
    let home = fresh_dir("read_config");
    let src = format!("{}/.bashrc", home);
    write(&src, "cfg\n");
    fs_extra::dir::create_all(format!("{}/.kubo", home), true).unwrap();
    write(
        &format!("{}/.kubo/kubo.toml", home),
        &format!("[shell]\nsource = \"{}\"\ntarget = \"shell\"\n", src),
    );
    let m = KuboManager::new(&kp(&home));
    let m = kubo::kubo_config::read_config(m).ok().unwrap();
    let w = m.watch_paths();
    assert_eq!(w.len(), 2);
    assert_eq!(w[0].as_bytes(), &src.as_bytes().to_vec());
}

#[test]
fn read_config_rejects_a_malformed_mapping() {
    let home = fresh_dir("read_config_bad");
    fs_extra::dir::create_all(format!("{}/.kubo", home), true).unwrap();
    write(&format!("{}/.kubo/kubo.toml", home), "not valid toml [");
    let m = KuboManager::new(&kp(&home));
    assert!(kubo::kubo_config::read_config(m).is_err());
}

#[test]
fn failed_reload_keeps_watch_set_and_resolution() {
    let home = fresh_dir("reload_bad");
    let src = format!("{}/.bashrc", home);
    write(&src, "keep\n");
    let m = locked_registry(&home, &[(&src, "shell")]);
    let (m, _) = m.initial_copy();
    let before: Vec<Vec<u8>> = m.watch_paths().iter().map(|p| p.as_bytes().clone()).collect();
    let before_target = m.convert_path(&kp(&src)).unwrap();

    let cfg = format!("{}/.kubo/kubo.toml", home);
    write(&cfg, "this is [ not toml");
    let (m, outcomes) = handle_event(m, EventKind::Modified, &vec![kp(&cfg)]);
    assert!(matches!(outcomes[0].1, Outcome::ReloadFailed));

    let after: Vec<Vec<u8>> = m.watch_paths().iter().map(|p| p.as_bytes().clone()).collect();
    assert_eq!(before, after);
    let after_target = m.convert_path(&kp(&src)).unwrap();
    assert_eq!(before_target.as_bytes(), after_target.as_bytes());
}

#[test]
fn successful_reload_replaces_the_mapping_and_resyncs() {
    let home = fresh_dir("reload_good");
    let old_src = format!("{}/.bashrc", home);
    let new_src = format!("{}/.vimrc", home);
    write(&old_src, "old\n");
    write(&new_src, "new\n");
    let m = locked_registry(&home, &[(&old_src, "shell")]);
    let (m, _) = m.initial_copy();

    let cfg = format!("{}/.kubo/kubo.toml", home);
    write(&cfg, &format!("[vim]\nsource = \"{}\"\ntarget = \"vim\"\n", new_src));
    let (m, outcomes) = handle_event(m, EventKind::Modified, &vec![kp(&cfg)]);
    assert!(matches!(outcomes[0].1, Outcome::Reloaded(_)));

    assert!(m.convert_path(&kp(&old_src)).is_err());
    let t = m.convert_path(&kp(&new_src)).unwrap();
    assert_eq!(t.as_bytes(), &bytes(&format!("{}/.kubo/vim/.vimrc", home)));
    assert_eq!(read(&format!("{}/.kubo/vim/.vimrc", home)), "new\n");
}

#[test]
fn removing_the_mapping_file_changes_nothing() {
    let home = fresh_dir("cfg_removed");
    let src = format!("{}/.bashrc", home);
    write(&src, "x\n");
    let m = locked_registry(&home, &[(&src, "shell")]);
    let (m, _) = m.initial_copy();
    let cfg = format!("{}/.kubo/kubo.toml", home);
    let (m, outcomes) = handle_event(m, EventKind::Removed, &vec![kp(&cfg)]);
    assert!(matches!(outcomes[0].1, Outcome::MappingRemoved));
    assert!(m.convert_path(&kp(&src)).is_ok());
    assert_eq!(read(&format!("{}/.kubo/shell/.bashrc", home)), "x\n");
}

#[test]
fn add_remove_and_list_dotfiles_edit_the_mapping_file() {
    let home = fresh_dir("edit_mapping");
    let src = format!("{}/.gitconfig", home);
    write(&src, "[user]\n");
    fs_extra::dir::create_all(format!("{}/.kubo", home), true).unwrap();
    let cfg = format!("{}/.kubo/kubo.toml", home);
    write(&cfg, "");
    let m = locked_registry(&home, &[]);

    kubo::kubo_config::add_dotfile(&m, &bytes("git"), &kp(&src), &bytes("git")).unwrap();
    let names = kubo::kubo_config::list_dotfiles(&m).unwrap();
    assert_eq!(names, vec![bytes("git")]);

    let reread = kubo::kubo_config::read_config(m.unlock().clear_paths()).ok().unwrap();
    let t = reread.convert_path(&kp(&src)).unwrap();
    assert_eq!(t.as_bytes(), &bytes(&format!("{}/.kubo/git/.gitconfig", home)));

    kubo::kubo_config::remove_dotfile(&reread, &bytes("git")).unwrap();
    let names = kubo::kubo_config::list_dotfiles(&reread).unwrap();
    assert!(names.is_empty());
}

#[test]
fn scenario_bashrc_sync_edit_and_delete() {
    let home = fresh_dir("scenario");
    let src = format!("{}/.bashrc", home);
    write(&src, "alias ls='ls --color'\n");
    let m = locked_registry(&home, &[(&src, "shell")]);
    let (m, _) = m.initial_copy();
    let mirrored = format!("{}/.kubo/shell/.bashrc", home);
    assert_eq!(read(&mirrored), "alias ls='ls --color'\n");

    write(&src, "alias ls='ls --color'\nalias ll='ls -l'\n");
    let (m, _) = handle_event(m, EventKind::Modified, &vec![kp(&src)]);
    assert_eq!(read(&mirrored), "alias ls='ls --color'\nalias ll='ls -l'\n");

    fs_extra::file::remove(&src).unwrap();
    let (_m, _) = handle_event(m, EventKind::Removed, &vec![kp(&src)]);
    assert!(!on_disk(&mirrored));
}

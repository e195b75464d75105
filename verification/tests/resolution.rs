use kubo::kpath::KPath;
use kubo::kubo_manager::{KuboManager, Locked};

fn kp(s: &str) -> KPath {
    KPath::new(s.as_bytes().to_vec()).unwrap()
}

fn bytes(s: &str) -> Vec<u8> {
    s.as_bytes().to_vec()
}

fn locked_registry(home: &str, entries: &[(&str, &str)]) -> KuboManager<Locked> {
    let mut m = KuboManager::new(&kp(home));
    for (src, tgt) in entries {
        m = m.add_path(kp(src), bytes(tgt));
    }
    m.lock()
}

#[test]
fn kpath_accepts_absolute_paths() {
    assert!(KPath::new(bytes("/")).is_ok());
    assert!(KPath::new(bytes("/home/u/.bashrc")).is_ok());
    assert!(KPath::new(bytes("/a")).is_ok());
}

#[test]
fn kpath_rejects_malformed_paths() {
    assert!(KPath::new(bytes("")).is_err());
    assert!(KPath::new(bytes("relative/path")).is_err());
    assert!(KPath::new(bytes("/a//b")).is_err());
    assert!(KPath::new(bytes("/a/")).is_err());
    assert!(KPath::new(bytes("//")).is_err());
}

#[test]
fn kubo_dir_is_under_home() {
    let m = KuboManager::new(&kp("/home/u"));
    assert_eq!(m.get_kubo_dir().as_bytes(), &bytes("/home/u/.kubo"));
}

#[test]
fn resolve_managed_file_exactly() {
    let m = locked_registry("/home/u", &[("/home/u/.bashrc", "shell")]);
    let t = m.convert_path(&kp("/home/u/.bashrc")).unwrap();
    assert_eq!(t.as_bytes(), &bytes("/home/u/.kubo/shell/.bashrc"));
}

#[test]
fn resolve_descendant_keeps_suffix() {
    let m = locked_registry("/home/u", &[("/home/u/.config/nvim", "nvim")]);
    let base = m.convert_path(&kp("/home/u/.config/nvim")).unwrap();
    assert_eq!(base.as_bytes(), &bytes("/home/u/.kubo/nvim/nvim"));
    let t = m.convert_path(&kp("/home/u/.config/nvim/lua/init.lua")).unwrap();
    assert_eq!(t.as_bytes(), &bytes("/home/u/.kubo/nvim/nvim/lua/init.lua"));
}

#[test]
fn resolve_does_not_cross_component_boundaries() {
    let m = locked_registry("/home/u", &[("/home/u/.bash", "shell")]);
    assert!(m.convert_path(&kp("/home/u/.bashrc")).is_err());
    assert!(m.convert_path(&kp("/home/u/.bash/x")).is_ok());
}

#[test]
fn resolve_unmanaged_is_not_managed() {
    let m = locked_registry("/home/u", &[("/home/u/.bashrc", "shell")]);
    assert!(m.convert_path(&kp("/etc/passwd")).is_err());
    assert!(m.convert_path(&kp("/home/u/other")).is_err());
}

#[test]
fn earlier_registration_wins_on_nested_paths() {
    let m = locked_registry(
        "/home/u",
        &[("/home/u/.config", "all"), ("/home/u/.config/nvim", "nvim")],
    );
    let t = m.convert_path(&kp("/home/u/.config/nvim/init.lua")).unwrap();
    assert_eq!(t.as_bytes(), &bytes("/home/u/.kubo/all/.config/nvim/init.lua"));
}

#[test]
fn root_entry_covers_everything() {
    let m = locked_registry("/home/u", &[("/", "rootfs")]);
    let t = m.convert_path(&kp("/etc/passwd")).unwrap();
    assert_eq!(t.as_bytes(), &bytes("/home/u/.kubo/rootfs/etc/passwd"));
}

#[test]
fn watch_paths_holds_sources_then_mapping_file() {
    let m = locked_registry(
        "/home/u",
        &[("/home/u/.bashrc", "shell"), ("/home/u/.config/nvim", "nvim")],
    );
    let w = m.watch_paths();
    assert_eq!(w.len(), 3);
    assert_eq!(w[0].as_bytes(), &bytes("/home/u/.bashrc"));
    assert_eq!(w[1].as_bytes(), &bytes("/home/u/.config/nvim"));
    assert_eq!(w[2].as_bytes(), &bytes("/home/u/.kubo/kubo.toml"));
}

#[test]
fn clear_paths_empties_the_watch_set() {
    let m = locked_registry("/home/u", &[("/home/u/.bashrc", "shell")]);
    let m = m.unlock().clear_paths().lock();
    let w = m.watch_paths();
    assert_eq!(w.len(), 1);
    assert_eq!(w[0].as_bytes(), &bytes("/home/u/.kubo/kubo.toml"));
    assert!(m.convert_path(&kp("/home/u/.bashrc")).is_err());
}

#[test]
fn lock_unlock_round_trip_keeps_resolution() {
    let m = locked_registry("/home/u", &[("/home/u/.bashrc", "shell")]);
    let m = m.unlock().lock();
    let t = m.convert_path(&kp("/home/u/.bashrc")).unwrap();
    assert_eq!(t.as_bytes(), &bytes("/home/u/.kubo/shell/.bashrc"));
}

#[test]
fn mapping_validation_accepts_good_and_rejects_bad() {
    let good = vec![(bytes("shell"), bytes("/home/u/.bashrc"), bytes("shell"))];
    assert!(kubo::kubo_config::mapping_ok(&good));
    let bad_source = vec![(bytes("shell"), bytes("not/absolute"), bytes("shell"))];
    assert!(!kubo::kubo_config::mapping_ok(&bad_source));
    let bad_target = vec![(bytes("shell"), bytes("/home/u/.bashrc"), bytes("a/b"))];
    assert!(!kubo::kubo_config::mapping_ok(&bad_target));
}

#[test]
fn apply_mapping_loads_entries_in_order() {
    let triples = vec![
        (bytes("nvim"), bytes("/home/u/.config/nvim"), bytes("nvim")),
        (bytes("shell"), bytes("/home/u/.bashrc"), bytes("shell")),
    ];
    let m = KuboManager::new(&kp("/home/u"));
    let m = kubo::kubo_config::apply_mapping(m, &triples);
    let w = m.watch_paths();
    assert_eq!(w.len(), 3);
    assert_eq!(w[0].as_bytes(), &bytes("/home/u/.config/nvim"));
    assert_eq!(w[1].as_bytes(), &bytes("/home/u/.bashrc"));
    let t = m.convert_path(&kp("/home/u/.bashrc")).unwrap();
    assert_eq!(t.as_bytes(), &bytes("/home/u/.kubo/shell/.bashrc"));
}

#[test]
fn mapping_names_lists_names_in_order() {
    let triples = vec![
        (bytes("nvim"), bytes("/home/u/.config/nvim"), bytes("nvim")),
        (bytes("shell"), bytes("/home/u/.bashrc"), bytes("shell")),
    ];
    let names = kubo::kubo_config::mapping_names(&triples);
    assert_eq!(names, vec![bytes("nvim"), bytes("shell")]);
}

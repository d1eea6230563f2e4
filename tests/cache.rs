use kclvm_cache::fingerprint::{get_cache_info, sort_sources, SourceFile};
use kclvm_cache::info::{read_info_cache, write_info_cache, CacheInfo};
use kclvm_cache::paths::{
    get_cache_dir, get_cache_filename, get_cache_info_filename, get_pkg_realpath_from_pkgpath,
    get_pkg_source_file, lock_path, relative_path, temp_file_name, CacheOption,
    ToolchainId,
};
use kclvm_cache::store::{load_pkg_cache, save_pkg_cache, SourceCheck};

fn src(name: &str, content: &str) -> SourceFile {
    SourceFile::new(name.to_string(), content.as_bytes().to_vec())
}

#[test]
fn cache_paths() {
    let opt = CacheOption::default();
    let t = ToolchainId::new("0.4.3", "e07ed7af");
    assert_eq!(get_cache_dir("/root", &opt, &t), "/root/.kclvm/cache/0.4.3-e07ed7af");
    assert_eq!(get_cache_filename("/root", "a.b", &opt, &t), "/root/.kclvm/cache/0.4.3-e07ed7af/a.b");
    assert_eq!(get_cache_info_filename("/root", &opt, &t), "/root/.kclvm/cache/0.4.3-e07ed7af/info");
    assert_eq!(lock_path("/root/x/info"), "/root/x/info.lock");
    let custom = CacheOption::new("build/cache");
    assert_eq!(get_cache_dir("/r", &custom, &t), "/r/build/cache/0.4.3-e07ed7af");
}

#[test]
fn pkg_real_paths() {
    assert_eq!(get_pkg_source_file("/root", "app.sub.mod"), "/root/app/sub/mod.k");
    assert_eq!(get_pkg_realpath_from_pkgpath("/root", "app.sub", true), "/root/app/sub.k");
    assert_eq!(get_pkg_realpath_from_pkgpath("/root", "app.sub", false), "/root/app/sub");
    assert_eq!(get_pkg_realpath_from_pkgpath("/root", "pkg", false), "/root/pkg");
}

#[test]
fn relative_paths() {
    assert_eq!(relative_path("/root", "/root/app/sub.k"), "./app/sub.k");
    assert_eq!(relative_path("/root", "/other/root/a"), "/other./a");
    assert_eq!(relative_path("/root", "/else/a"), "/else/a");
    assert_eq!(relative_path("", "/a"), "./a");
}

#[test]
fn temp_file_names() {
    assert_eq!(temp_file_name("/c", "pkg", 42, 1234567890), "/c/pkg.42.1234567890.tmp");
    assert_eq!(temp_file_name("/c", "", 0, -5), "/c/.0.-5.tmp");
}

#[test]
fn fingerprint_of_known_bytes() {
    assert_eq!(get_cache_info(vec![]), "d41d8cd98f00b204e9800998ecf8427e");
    assert_eq!(get_cache_info(vec![src("a.k", "abc")]), "900150983cd24fb0d6963f7d28e17f72");
    // Files are taken in the order of their names: "a" then "bc".
    assert_eq!(
        get_cache_info(vec![src("b.k", "bc"), src("a.k", "a")]),
        "900150983cd24fb0d6963f7d28e17f72"
    );
}

#[test]
fn fingerprint_independent_of_listing_order() {
    let x = get_cache_info(vec![src("m.k", "x = 1"), src("a.k", "y = 2"), src("z.k", "z")]);
    let y = get_cache_info(vec![src("z.k", "z"), src("m.k", "x = 1"), src("a.k", "y = 2")]);
    assert_eq!(x, y);
    assert_eq!(x.len(), 32);
    assert!(x.chars().all(|c| c.is_ascii_digit() || ('a'..='f').contains(&c)));
    let changed = get_cache_info(vec![src("z.k", "z"), src("m.k", "x = 2"), src("a.k", "y = 2")]);
    assert_ne!(x, changed);
}

#[test]
fn sources_sorted_by_name() {
    let s = sort_sources(vec![src("c", ""), src("a", ""), src("b", ""), src("ab", "")]);
    let names: Vec<&str> = s.iter().map(|f| f.name.as_str()).collect();
    assert_eq!(names, vec!["a", "ab", "b", "c"]);
}

#[test]
fn record_insert_and_get() {
    let mut info = CacheInfo::new();
    assert_eq!(info.len(), 0);
    info.insert("./a.k".to_string(), "f1".to_string());
    info.insert("./b".to_string(), "f2".to_string());
    info.insert("./a.k".to_string(), "f3".to_string());
    assert_eq!(info.len(), 2);
    assert_eq!(info.get(&"./a.k".to_string()), Some(&"f3".to_string()));
    assert_eq!(info.get(&"./b".to_string()), Some(&"f2".to_string()));
    assert_eq!(info.get(&"./c".to_string()), None);
}

#[test]
fn record_text_round_trip() {
    let mut info = read_info_cache(None);
    let text = write_info_cache("/root", "/root/app/a.k", "f1".to_string(), &mut info);
    assert_eq!(info.get(&"./app/a.k".to_string()), Some(&"f1".to_string()));
    let back = read_info_cache(Some(&text));
    assert_eq!(back.len(), 1);
    assert_eq!(back.get(&"./app/a.k".to_string()), Some(&"f1".to_string()));
}

#[test]
fn record_corrupt_reads_empty() {
    let info = read_info_cache(Some("{ not ron"));
    assert_eq!(info.len(), 0);
}

fn check(record: CacheInfo, current: &str) -> Option<SourceCheck> {
    Some(SourceCheck { file_is_present: true, record, current: current.to_string() })
}

#[test]
fn load_after_save_round_trip() {
    let mut info = CacheInfo::new();
    let real = get_pkg_realpath_from_pkgpath("/root", "pkg", true);
    write_info_cache("/root", &real, "f1".to_string(), &mut info);
    let r = load_pkg_cache("/root", "pkg", Some("artifact".to_string()), check(info, "f1"));
    assert_eq!(r, Some("artifact".to_string()));
}

#[test]
fn load_after_source_change_misses() {
    let mut info = CacheInfo::new();
    let real = get_pkg_realpath_from_pkgpath("/root", "pkg", true);
    write_info_cache("/root", &real, "f1".to_string(), &mut info);
    let r = load_pkg_cache("/root", "pkg", Some("artifact".to_string()), check(info, "f2"));
    assert_eq!(r, None);
}

#[test]
fn load_misses() {
    assert_eq!(load_pkg_cache("", "pkg", Some("a".to_string()), None), None);
    assert_eq!(load_pkg_cache("/root", "", Some("a".to_string()), None), None);
    assert_eq!(load_pkg_cache("/root", "pkg", None, None), None);
    assert_eq!(load_pkg_cache("/root", "pkg", Some("a".to_string()), check(CacheInfo::new(), "f")), None);
    assert_eq!(load_pkg_cache("/root", "pkg", Some("a".to_string()), None), Some("a".to_string()));
}

#[test]
fn version_isolation() {
    let opt = CacheOption::default();
    let a = get_cache_filename("/root", "pkg", &opt, &ToolchainId::new("0.4.3", "aa"));
    let b = get_cache_filename("/root", "pkg", &opt, &ToolchainId::new("0.4.4", "aa"));
    let c = get_cache_filename("/root", "pkg", &opt, &ToolchainId::new("0.4.3", "ab"));
    assert_ne!(a, b);
    assert_ne!(a, c);
    assert_ne!(b, c);
}

#[test]
fn save_targets() {
    let opt = CacheOption::default();
    let t = ToolchainId::new("1", "c");
    assert!(save_pkg_cache("", "pkg", &opt, &t, false).is_none());
    assert!(save_pkg_cache("/r", "", &opt, &t, false).is_none());
    let s = save_pkg_cache("/r", "a.b", &opt, &t, false).unwrap();
    assert_eq!(s.cache_dir, "/r/.kclvm/cache/1-c");
    assert_eq!(s.artifact_file, "/r/.kclvm/cache/1-c/a.b");
    assert_eq!(s.info_file, "/r/.kclvm/cache/1-c/info");
    assert_eq!(s.real_path, "/r/a/b");
}

#[test]
fn record_heals_after_corruption() {
    let mut info = read_info_cache(Some("{ not ron"));
    let text = write_info_cache("/root", "/root/a.k", "f1".to_string(), &mut info);
    let back = read_info_cache(Some(&text));
    assert_eq!(back.len(), 1);
    assert_eq!(back.get(&"./a.k".to_string()), Some(&"f1".to_string()));
    let again = write_info_cache("/root", "/root/a.k", "f1".to_string(), &mut info);
    assert_eq!(again, text);
}

#[test]
fn namespaces_sharing_a_name() {
    let opt = CacheOption::default();
    let a = get_cache_filename("/root", "pkg", &opt, &ToolchainId::new("a-b", "c"));
    let b = get_cache_filename("/root", "pkg", &opt, &ToolchainId::new("a", "b-c"));
    assert_eq!(a, b);
}

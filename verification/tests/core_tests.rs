use mandel_core::apps::AppRegistry;
use mandel_core::config::{haavk_home, MandelConfig};
use mandel_core::disk::DiskImage;
use mandel_core::hardware::HardwareInfo;
use mandel_core::logger::LogLevel;
use mandel_core::node::NodeInfo;
use mandel_core::permissions::{PermissionLevel, PermissionSet};
use mandel_core::relink::RelinkBus;
use mandel_core::vfs::Vfs;

#[test]
fn register_builtin_works() {
    let mut reg = AppRegistry::new();
    reg.register_builtin("haavk.files", "全域节点", &["filesystem.read"]);
    assert_eq!(reg.count(), 1);
    assert!(reg.get("haavk.files").is_some());
    assert!(reg.get("haavk.nope").is_none());
}

#[test]
fn default_falls_back() {
    let cfg = MandelConfig::default();
    assert_eq!(cfg.core.log_level, "info");
    assert!(cfg.hardware.read_dmi);
}

#[test]
fn create_and_list() {
    let mut img = DiskImage::create(100);
    img.mkdir("/", "docs").unwrap();
    img.write_file("/docs", "readme.txt", b"hello haavk").unwrap();
    let root = img.list_dir("/").unwrap();
    assert!(root.iter().any(|(n, d)| *n == "docs" && *d));
    let docs = img.list_dir("/docs").unwrap();
    assert!(docs.iter().any(|(n, f)| *n == "readme.txt" && !*f));
    let data = img.read_file("/docs/readme.txt").unwrap();
    assert_eq!(data, b"hello haavk");
}

#[test]
fn unknown_has_brand() {
    let h = HardwareInfo::unknown();
    assert!(h.product_name.contains("HAAVK"));
}

#[test]
fn haavk_home_returns_dir() {
    let p = haavk_home(None, None);
    assert!(!p.is_empty());
}

#[test]
fn empty_haavk_home_counts_as_unset() {
    assert_eq!(haavk_home(Some(""), Some("/root")), "/root/.haavk");
    assert_eq!(haavk_home(Some(""), None), "./.haavk");
    assert_eq!(haavk_home(Some("/srv/haavk"), Some("/root")), "/srv/haavk");
    for h in [None, Some(""), Some("/x")] {
        for u in [None, Some(""), Some("/home/u")] {
            assert!(!haavk_home(h, u).is_empty());
        }
    }
}

#[test]
fn level_filter_works() {
    assert!(LogLevel::Info <= LogLevel::Trace);
    assert!(LogLevel::Error <= LogLevel::Warn);
}

#[test]
fn node_id_from_config() {
    let cfg = MandelConfig::default();
    // The default configuration has no node id: a new one is made.
    let (node, _must_persist) = NodeInfo::load(&cfg, None);
    assert!(node.node_id.starts_with("HAAVK-NODE-"));
}

#[test]
fn trusted_allows_everything() {
    let p = PermissionSet::new(PermissionLevel::Trusted);
    assert!(p.allows("shell.exec"));
    assert!(p.allows("network.listen"));
}

#[test]
fn standard_allows_basics() {
    let p = PermissionSet::new(PermissionLevel::Standard);
    assert!(p.allows("filesystem.read"));
    assert!(p.allows("relink.send"));
    assert!(!p.allows("shell.exec"));
}

#[test]
fn restricted_needs_grant() {
    let p = PermissionSet::new(PermissionLevel::Restricted);
    assert!(!p.allows("filesystem.read"));
    let mut p = p;
    p.grant("filesystem.read");
    assert!(p.allows("filesystem.read"));
}

#[test]
fn bus_creation() {
    let cfg = MandelConfig::default();
    let bus = RelinkBus::new(&cfg);
    assert!(bus.enabled);
    assert_eq!(bus.discovery_port, 42069);
    assert_eq!(bus.peer_count(), 0);
}

#[test]
fn resolve_virtual_path() {
    let cfg = MandelConfig::default();
    let mut vfs = Vfs::new(&cfg);
    // Mount a known directory by hand.
    vfs.mount("test", "/tmp");
    let resolved = vfs.resolve("haavk://test/some/file.txt");
    assert_eq!(resolved, Some("/tmp/some/file.txt".to_string()));
    assert_eq!(vfs.resolve("haavk://other/x"), None);
}

#[test]
fn root_prefix_default() {
    let cfg = MandelConfig::default();
    let vfs = Vfs::new(&cfg);
    assert_eq!(vfs.root_prefix(), "haavk://");
}

use mandel_core::apps::{AppManifest, AppRegistry, InstalledApp};
use mandel_core::cli::{help_text, parse_cli, CliAction};
use mandel_core::config::{check_loaded_config, default_config_path, parse_node_num, ConfigError, MandelConfig};
use mandel_core::disk::{decode_frame, encode_frame, mandel_magic, DiskError, DiskImage, FrameError, Inode, InodeKind};
use mandel_core::hardware::{cpu_model, hardware_for, memory_mb, primary_network, HostSources};
use mandel_core::logger::{log_line, LogLevel};
use mandel_core::node::{generate_node_id, node_id_from_uuid, node_id_path, persisted_id, NodeInfo};
use mandel_core::relink::{broadcast_targets, relay_action, PeerTable, RelayAction, RelaySession, RelinkMessage};
use mandel_core::text::{contains, prefix_chars, split_words, trim_start_matches};
use mandel_core::vga::{boot_console, panic_console, VgaWriter, BRIGHT_CYAN};
use mandel_core::MandelCore;

fn manifest(id: &str, name: &str) -> InstalledApp {
    InstalledApp {
        manifest: AppManifest {
            id: id.to_string(),
            name: name.to_string(),
            version: "0.2.0".to_string(),
            kind: "hvk".to_string(),
            permissions: vec!["shell.exec".to_string()],
            description: String::new(),
        },
        install_dir: format!("/apps/{id}"),
    }
}

// ---------------------------------------------------------------------------
// Boot and the about text
// ---------------------------------------------------------------------------

#[test]
fn boot_assembles_the_system() {
    let mut cfg = MandelConfig::default();
    cfg.core.node_id = "  HAAVK-NODE-00007 ".to_string();
    cfg.hardware.read_dmi = false;
    let found = vec![manifest("demo.app", "第一版"), manifest("demo.app", "第二版"), manifest("haavk.files", "冒名")];
    let (core, must_persist) = MandelCore::boot_with(
        cfg,
        Some("ignored"),
        None,
        "/h/.haavk",
        "/h",
        &[true, false, true],
        found,
        None,
    );
    assert!(!must_persist);
    assert_eq!(core.node.node_id, "HAAVK-NODE-00007");
    assert_eq!(core.hardware.cpu, "Mandel CPU (未知)");
    assert!(!core.relink.running);
    assert_eq!(core.apps.count(), 5);
    assert_eq!(core.apps.get("demo.app").unwrap().manifest.name, "第二版");
    assert_eq!(core.apps.get("haavk.files").unwrap().manifest.name, "全域节点");
    assert_eq!(core.apps.get("haavk.files").unwrap().manifest.kind, "builtin");
    let mounts: Vec<&str> = core.vfs.mounts().iter().map(|m| m.virtual_path.as_str()).collect();
    assert_eq!(mounts, vec!["haavk://system", "haavk://home", "haavk://documents", "haavk://pictures"]);
    assert_eq!(core.vfs.resolve("haavk://pictures/a.png"), Some("/h/Pictures/a.png".to_string()));
}

#[test]
fn boot_makes_a_node_id_when_none_is_known() {
    let cfg = MandelConfig::default();
    let (core, must_persist) = MandelCore::boot_with(cfg, None, None, "/h/.haavk", "/h", &[false, false, false], Vec::new(), None);
    assert!(must_persist);
    assert_eq!(core.node.node_id.len(), 19);
    assert!(core.node.node_id.starts_with("HAAVK-NODE-"));
}

#[test]
fn boot_reads_host_when_asked() {
    let cfg = MandelConfig::default();
    let host = HostSources {
        bios_vendor: "  ".to_string(),
        sys_vendor: "ACME".to_string(),
        product_name: "Box 9".to_string(),
        board_serial: String::new(),
        cpuinfo: "processor : 0\nmodel name\t: Test CPU @ 3GHz\n".to_string(),
        meminfo: "MemTotal:       16384000 kB\nMemFree: 1 kB\n".to_string(),
        net_names: Some(vec!["lo".to_string(), "eth0".to_string()]),
    };
    let h = hardware_for(&cfg, Some(&host));
    assert_eq!(h.bios_vendor, "HAAVK Group");
    assert_eq!(h.manufacturer, "ACME");
    assert_eq!(h.product_name, "Box 9");
    assert_eq!(h.serial, "HAAVK-NODE-UNKNOWN");
    assert_eq!(h.cpu, "Test CPU @ 3GHz");
    assert_eq!(h.memory_mb, 16000);
    assert_eq!(h.network, "eth0");
    let empty = HostSources {
        bios_vendor: String::new(),
        sys_vendor: String::new(),
        product_name: String::new(),
        board_serial: String::new(),
        cpuinfo: String::new(),
        meminfo: String::new(),
        net_names: None,
    };
    let h = hardware_for(&cfg, Some(&empty));
    assert_eq!(h.cpu, "Mandel CPU");
    assert_eq!(h.memory_mb, cfg.hardware.memory_limit_mb);
    assert_eq!(h.network, "e1000");
}

#[test]
fn about_text_lists_the_node() {
    let mut cfg = MandelConfig::default();
    cfg.hardware.read_dmi = false;
    let version = cfg.core.version.clone();
    let limit = cfg.hardware.memory_limit_mb;
    let quota = cfg.hardware.storage_quota_mb;
    let port = cfg.relink_bus.discovery_port;
    let (mut core, _) = MandelCore::boot_with(cfg, Some("HAAVK-NODE-00001"), None, "/h", "/h", &[false, false, false], Vec::new(), None);
    let text = core.about_text();
    let expected = format!(
        "HAAVK OS\nMandel Core：{version}\n节点 ID：HAAVK-NODE-00001\n硬件：HAAVK全域算力终端\nCPU：Mandel CPU (未知)\n内存：0 MB（上限 {limit} MB）\n存储配额：{quota} MB\n网卡：e1000 (未知)\nRelink：同频在线:{port}\n标语：天空属于哈夫克，新世界就在你耳边"
    );
    assert_eq!(text, expected);
    assert_eq!(text.lines().count(), 10);
    core.relink.enabled = false;
    assert!(core.about_text().contains("\nRelink：未启用\n"));
    core.shutdown();
    assert!(core.relink.stop_requested);
}

// ---------------------------------------------------------------------------
// Command line
// ---------------------------------------------------------------------------

fn args(a: &[&str]) -> Vec<String> {
    a.iter().map(|s| s.to_string()).collect()
}

#[test]
fn cli_reads_options() {
    match parse_cli(&args(&["mandel-core", "--config", "/etc/m.toml", "--about"])) {
        CliAction::Run { config, about } => {
            assert_eq!(config, Some("/etc/m.toml".to_string()));
            assert!(about);
        }
        other => panic!("unexpected {:?}", other),
    }
    match parse_cli(&args(&["mandel-core"])) {
        CliAction::Run { config, about } => {
            assert_eq!(config, None);
            assert!(!about);
        }
        other => panic!("unexpected {:?}", other),
    }
    match parse_cli(&args(&["mandel-core", "--about", "--config"])) {
        CliAction::Run { config, about } => {
            assert_eq!(config, None);
            assert!(about);
        }
        other => panic!("unexpected {:?}", other),
    }
    assert!(matches!(parse_cli(&args(&["mandel-core", "-h", "--bogus"])), CliAction::Help));
    match parse_cli(&args(&["mandel-core", "--bogus", "--help"])) {
        CliAction::Unknown(a) => assert_eq!(a, "--bogus"),
        other => panic!("unexpected {:?}", other),
    }
    assert!(help_text().starts_with("mandel-core — HAAVK 曼德尔核心 CLI\n"));
    assert!(help_text().contains("\n  --about          打印「关于全域算力节点」信息\n"));
}

// ---------------------------------------------------------------------------
// Configuration, node identity, logging
// ---------------------------------------------------------------------------

#[test]
fn config_check_errors() {
    let cfg = MandelConfig::default();
    assert_eq!(check_loaded_config(cfg).unwrap_err(), ConfigError::EmptyNodeId);
    let mut cfg = MandelConfig::default();
    cfg.core.node_id = "HAAVK-NODE-10000".to_string();
    assert_eq!(check_loaded_config(cfg).unwrap_err(), ConfigError::NodeNumberTooLarge(10000));
    let mut cfg = MandelConfig::default();
    cfg.core.node_id = "HAAVK-NODE-09999".to_string();
    assert!(check_loaded_config(cfg).is_ok());
    assert_eq!(parse_node_num("HAAVK-NODE-00001"), Some(1));
    assert_eq!(parse_node_num("HAAVK-NODE-x"), None);
    assert_eq!(default_config_path("/h/.haavk"), "/h/.haavk/config/mandel_core.toml");
}

#[test]
fn node_ids() {
    let id = generate_node_id();
    assert_eq!(id.len(), 19);
    assert!(id.starts_with("HAAVK-NODE-"));
    assert!(id[11..].chars().all(|c| c.is_ascii_digit() || ('A'..='F').contains(&c)));
    assert_eq!(persisted_id("  HAAVK-NODE-00003\n"), Some("HAAVK-NODE-00003".to_string()));
    assert_eq!(persisted_id(" \n"), None);
    let cfg = MandelConfig::default();
    let (node, fresh) = NodeInfo::load(&cfg, Some("HAAVK-NODE-00004\n"));
    assert!(!fresh);
    assert_eq!(node.node_id, "HAAVK-NODE-00004");
    let (node, fresh) = NodeInfo::load(&cfg, Some("   "));
    assert!(fresh);
    assert!(node.node_id.starts_with("HAAVK-NODE-"));
    assert_eq!(node_id_path("/h/.haavk"), "/h/.haavk/node_id");
}

#[test]
fn log_levels_and_lines() {
    assert_eq!(LogLevel::from_name("WARN"), LogLevel::Warn);
    assert_eq!(LogLevel::from_name("verbose"), LogLevel::Info);
    assert!(LogLevel::Error.enabled_under(&LogLevel::Info));
    assert!(!LogLevel::Debug.enabled_under(&LogLevel::Info));
    assert!(LogLevel::Warn.to_stderr());
    assert!(!LogLevel::Info.to_stderr());
    assert_eq!(log_line("12:00:00", LogLevel::Info, "ready"), "[12:00:00][INFO] ready");
}

// ---------------------------------------------------------------------------
// Disk images
// ---------------------------------------------------------------------------

#[test]
fn disk_errors() {
    let mut img = DiskImage::create(1);
    assert_eq!(img.mkdir("/nope", "x"), Err(DiskError::NoParent));
    img.write_file("/", "f", b"data").unwrap();
    assert_eq!(img.list_dir("/f"), Err(DiskError::NotADirectory("/f".to_string())));
    assert_eq!(img.list_dir("/g"), Err(DiskError::PathNotFound("/g".to_string())));
    assert_eq!(img.read_file("/"), Err(DiskError::NotAFile("/".to_string())));
    assert_eq!(img.read_file("/g"), Err(DiskError::FileNotFound("/g".to_string())));
    assert_eq!(img.capacity_mb(), 1);
    assert_eq!(img.used_mb(), 0);
}

#[test]
fn listing_is_sorted_by_name() {
    let mut img = DiskImage::create(10);
    img.mkdir("/", "zeta").unwrap();
    img.write_file("/", "alpha", b"").unwrap();
    img.mkdir("/", "mid").unwrap();
    let root = img.list_dir("/").unwrap();
    assert_eq!(root, vec![("alpha", false), ("mid", true), ("zeta", true)]);
}

#[test]
fn frames_round_trip() {
    let body = b"{\"k\":1}".to_vec();
    let framed = encode_frame(&body);
    assert_eq!(&framed[..16], &mandel_magic()[..]);
    assert_eq!(&framed[16..24], &(body.len() as u64).to_le_bytes()[..]);
    assert_eq!(decode_frame(&framed), Ok(body.clone()));
    assert_eq!(decode_frame(&framed[..10]), Err(FrameError::Truncated));
    assert_eq!(decode_frame(&framed[..framed.len() - 1]), Err(FrameError::Truncated));
    let mut bad = framed.clone();
    bad[0] = b'X';
    assert_eq!(decode_frame(&bad), Err(FrameError::BadMagic));
}

#[test]
fn image_from_parts() {
    let img = DiskImage::create(5);
    let root = Inode {
        id: 0,
        kind: InodeKind::Dir,
        name: "/".to_string(),
        parent: 0,
        size: 0,
        children: vec![1],
        data: Vec::new(),
    };
    let file = Inode {
        id: 1,
        kind: InodeKind::File,
        name: "hosts".to_string(),
        parent: 0,
        size: 3,
        children: Vec::new(),
        data: b"abc".to_vec(),
    };
    let loaded = DiskImage::from_parts(img.superblock.clone(), vec![(0, root), (1, file)], 2).unwrap();
    assert_eq!(loaded.read_file("/hosts").unwrap(), b"abc");
    let orphan = Inode {
        id: 3,
        kind: InodeKind::File,
        name: "x".to_string(),
        parent: 0,
        size: 0,
        children: Vec::new(),
        data: Vec::new(),
    };
    assert_eq!(DiskImage::from_parts(img.superblock.clone(), vec![(3, orphan)], 4).unwrap_err(), DiskError::Corrupt);
}

// ---------------------------------------------------------------------------
// Relink
// ---------------------------------------------------------------------------

fn hello(id: &str) -> RelinkMessage {
    RelinkMessage::Hello { node_id: id.to_string(), product: "HAAVK全域算力终端".to_string(), version: "0.9".to_string() }
}

#[test]
fn peer_table_records_and_prunes() {
    let mut t = PeerTable::new();
    t.apply(&hello("A"), "10.0.0.1:42069", 1_000);
    t.apply(&hello("B"), "10.0.0.2:42069", 5_000);
    t.apply(&hello("A"), "10.0.0.9:42069", 6_000);
    assert_eq!(t.count(), 2);
    assert_eq!(t.peers()[0].addr, "10.0.0.9:42069");
    t.prune(15_500);
    assert_eq!(t.count(), 1);
    assert_eq!(t.peers()[0].id, "A");
    let msg = RelinkMessage::AppMessage { from: "A".to_string(), to: "B".to_string(), kind: "chat".to_string(), payload: "hi".to_string() };
    t.apply(&msg, "10.0.0.1:42069", 16_000);
    assert_eq!(t.count(), 1);
}

#[test]
fn relay_sessions() {
    let mut s = RelaySession::new("1.2.3.4:5555");
    assert_eq!(s.node_id, "node-1.2.3.4:5555");
    assert_eq!(s.on_message(&hello("HAAVK-NODE-00001")), RelayAction::RegisterAndBroadcast("HAAVK-NODE-00001".to_string()));
    assert_eq!(s.node_id, "HAAVK-NODE-00001");
    let msg = RelinkMessage::AppMessage { from: "x".to_string(), to: "y".to_string(), kind: "k".to_string(), payload: String::new() };
    assert_eq!(s.on_message(&msg), RelayAction::Forward("y".to_string()));
    assert_eq!(s.node_id, "HAAVK-NODE-00001");
    assert_eq!(relay_action(&hello("z")), RelayAction::RegisterAndBroadcast("z".to_string()));
}

#[test]
fn hello_is_forwarded_to_the_other_nodes() {
    let registered = vec!["A".to_string(), "B".to_string(), "C".to_string()];
    assert_eq!(broadcast_targets(&registered, "B"), vec!["A".to_string(), "C".to_string()]);
    assert_eq!(broadcast_targets(&registered, "D"), registered);
    assert!(broadcast_targets(&vec!["A".to_string()], "A").is_empty());
}

#[test]
fn node_id_from_uuid_takes_first_eight_digits() {
    assert_eq!(node_id_from_uuid("3fa85f6457174562b3fc2c963f66afa6"), "HAAVK-NODE-3FA85F64");
    assert_eq!(node_id_from_uuid("0123456789abcdef0123456789abcdef"), "HAAVK-NODE-01234567");
}

// ---------------------------------------------------------------------------
// Registry scans
// ---------------------------------------------------------------------------

#[test]
fn scan_keeps_last_of_each_id() {
    let mut reg = AppRegistry::new();
    reg.register_builtin("old.app", "旧", &[]);
    reg.scan_found(vec![manifest("b.app", "B1"), manifest("a.app", "A"), manifest("b.app", "B2")]);
    assert_eq!(reg.count(), 2);
    let ids: Vec<&str> = reg.all().iter().map(|a| a.manifest.id.as_str()).collect();
    assert_eq!(ids, vec!["a.app", "b.app"]);
    assert_eq!(reg.get("b.app").unwrap().manifest.name, "B2");
    assert!(reg.get("old.app").is_none());
}

// ---------------------------------------------------------------------------
// Text helpers
// ---------------------------------------------------------------------------

#[test]
fn text_helpers() {
    assert_eq!(split_words("  ls \t haavk://home\n"), vec!["ls".to_string(), "haavk://home".to_string()]);
    assert!(split_words(" \u{3000} ").is_empty());
    assert!(contains("关于 haavk", "haavk"));
    assert!(contains("abc", ""));
    assert!(!contains("ab", "abc"));
    assert_eq!(trim_start_matches("https://https://x/y", "https://"), "x/y");
    assert_eq!(prefix_chars("终端窗口", 2), "终端");
    assert_eq!(prefix_chars("ab", 5), "ab");
    assert_eq!(cpu_model("model name: X\nmodel name: Y"), "X");
    assert_eq!(memory_mb("MemTotal: 2048 kB"), 2);
    assert_eq!(primary_network(None), "e1000");
}

// ---------------------------------------------------------------------------
// Bare-metal console
// ---------------------------------------------------------------------------

#[test]
fn vga_writes_and_wraps() {
    let mut v = VgaWriter::new();
    v.clear();
    assert_eq!(v.cell_at(0), 0x0F00);
    v.set_color(BRIGHT_CYAN);
    v.write_str("A\rB");
    assert_eq!(v.cell_at(0), 0x0B42);
    assert_eq!((v.row, v.col), (0, 1));
    let line = "x".repeat(80);
    v.write_str(&line);
    assert_eq!((v.row, v.col), (1, 1));
    assert_eq!(v.cell_at(79), 0x0B78);
    assert_eq!(v.cell_at(80), 0x0B78);
    for _ in 0..30 {
        v.write_byte(b'\n');
    }
    assert_eq!((v.row, v.col), (6, 0));
}

#[test]
fn kernel_console_screens() {
    let v = boot_console();
    assert_eq!((v.row, v.col), (12, 0));
    assert_eq!(v.cell_at(0), 0x0B3D);
    assert_eq!(v.cell_at(6 * 80), 0x0F4D);
    let p = panic_console();
    assert_eq!((p.row, p.col), (2, 0));
    assert_eq!(p.cell_at(80), 0x4C2A);
}

fn dir_inode(id: u32, name: &str, children: Vec<u32>) -> Inode {
    Inode { id, kind: InodeKind::Dir, name: name.to_string(), parent: 0, size: 0, children, data: Vec::new() }
}

#[test]
fn image_from_parts_raises_next_id() {
    let img = DiskImage::create(5);
    // The saved next id (1) is not above the ids in use: it is raised to 8.
    let parts = vec![(0, dir_inode(0, "/", vec![7])), (7, dir_inode(7, "etc", Vec::new()))];
    let mut loaded = DiskImage::from_parts(img.superblock.clone(), parts, 1).unwrap();
    assert_eq!(loaded.next_inode(), 8);
    assert_eq!(loaded.lookup("/etc"), Some(7));
    assert_eq!(loaded.mkdir("/", "new"), Ok(8));
    assert_eq!(loaded.lookup("/etc"), Some(7));
    // A pair stored under another id than its inode's is refused.
    let bad = vec![(0, dir_inode(0, "/", Vec::new())), (2, dir_inode(5, "x", Vec::new()))];
    assert_eq!(DiskImage::from_parts(img.superblock.clone(), bad, 9).unwrap_err(), DiskError::Corrupt);
    // No id is left above u32::MAX.
    let full = vec![(0, dir_inode(0, "/", vec![u32::MAX]))];
    assert_eq!(DiskImage::from_parts(img.superblock.clone(), full, 1).unwrap_err(), DiskError::Corrupt);
}

use mandel_core::apps::AppRegistry;
use mandel_core::config::{core_dir, MandelConfig};
use mandel_core::desktop::browser::BrowserState;
use mandel_core::desktop::desktop_menu::{context_menu_item, desktop_icon, ICON_COUNT, MENU_ITEM_COUNT};
use mandel_core::desktop::window::{Action, AppKind, UiState};
use mandel_core::desktop::panels::{app_center, nodes_panel};
use mandel_core::hardware::{collect, collect_windows, HardwareInfo, WindowsSources};
use mandel_core::permissions::{PermissionLevel, PermissionSet};
use mandel_core::relink::{next_delay, PeerNode, RelayClient, RelinkBus};
use mandel_core::MandelCore;

#[test]
fn app_center_cards() {
    let mut reg = AppRegistry::new();
    reg.register_builtins();
    let (label, cards) = app_center(&reg);
    assert_eq!(label, "（4 个）");
    assert_eq!(cards.len(), 4);
    assert_eq!(cards[0].name, "关于HAAVK");
    assert_eq!(cards[0].version, "v1.0.0");
    assert_eq!(cards[0].kind, "[builtin]");
    assert_eq!(cards[0].id, "haavk.about");
    assert!(cards[0].permissions.is_empty());
    assert_eq!(cards[3].permissions, vec!["🔑 shell.exec".to_string()]);
}

#[test]
fn nodes_panel_text() {
    let cfg = MandelConfig::default();
    let (core, _) = MandelCore::boot_with(cfg, Some("HAAVK-NODE-00005"), None, "/h", "/h", &[false, false, false], Vec::new(), None);
    let peers = vec![PeerNode {
        id: "HAAVK-NODE-00006".to_string(),
        addr: "10.0.0.6:42069".to_string(),
        product: "p".to_string(),
        version: "0.9".to_string(),
        last_seen_ms: 0,
    }];
    let panel = nodes_panel(&core, &peers);
    assert_eq!(panel.count_label, "（在线 1 个）");
    assert_eq!(panel.rows, vec![("HAAVK-NODE-00006".to_string(), "10.0.0.6:42069".to_string(), "v0.9".to_string())]);
    assert_eq!(panel.alone_line, "本机节点 ID: HAAVK-NODE-00005");
    assert_eq!(panel.footer, "本机: HAAVK-NODE-00005 · Relink 端口 42069");
    let empty = nodes_panel(&core, &[]);
    assert_eq!(empty.count_label, "（在线 0 个）");
    assert!(empty.rows.is_empty());
}

#[test]
fn windows_hardware_answers() {
    let w = WindowsSources {
        vendor: " Contoso \r\n".to_string(),
        product_name: String::new(),
        serial: "SN1".to_string(),
        bios_vendor: "AMI".to_string(),
        cpu: " ".to_string(),
        total_memory: "17179869184\r\n".to_string(),
        net_ids: ", ,Ethernet 2,Wi-Fi".to_string(),
    };
    let h: HardwareInfo = collect_windows(&w);
    assert_eq!(h.manufacturer, "Contoso");
    assert_eq!(h.product_name, "HAAVK全域算力终端");
    assert_eq!(h.serial, "SN1");
    assert_eq!(h.bios_vendor, "AMI");
    assert_eq!(h.cpu, "Mandel CPU");
    assert_eq!(h.memory_mb, 16384);
    assert_eq!(h.network, "Ethernet 2");
    let none = WindowsSources {
        vendor: String::new(),
        product_name: String::new(),
        serial: String::new(),
        bios_vendor: String::new(),
        cpu: String::new(),
        total_memory: "lots".to_string(),
        net_ids: " , ".to_string(),
    };
    let h = collect_windows(&none);
    assert_eq!(h.memory_mb, 0);
    assert_eq!(h.network, "e1000");
    assert_eq!(h.summary(), "HAAVK全域算力终端 | CPU: Mandel CPU | RAM: 0 MB | 网卡: e1000 | SN: HAAVK-NODE-UNKNOWN");
}

#[test]
fn bus_start_and_stop() {
    let cfg = MandelConfig::default();
    let mut bus = RelinkBus::new(&cfg);
    assert!(!bus.is_running());
    assert!(bus.begin_start());
    assert!(bus.is_running());
    assert!(!bus.begin_start());
    bus.bind_failed();
    assert!(!bus.is_running());
    bus.stop();
    assert!(bus.stop_requested);
    assert!(bus.peers().is_empty());
}

#[test]
fn relay_client_outcomes() {
    let mut c = RelayClient::new("relay.haavk.net:42070", true);
    assert!(c.needs_connection());
    assert!(!c.is_connected());
    assert_eq!(c.finish_connect(Err("refused".to_string())), Err("中继连接失败: refused".to_string()));
    assert!(!c.is_connected());
    assert_eq!(c.finish_connect(Ok(())), Ok(()));
    assert!(c.is_connected());
    let off = RelayClient::new("x", false);
    assert!(!off.needs_connection());
}

#[test]
fn relay_reconnect_backoff() {
    assert_eq!(next_delay(1000), 2000);
    assert_eq!(next_delay(16000), 30000);
    assert_eq!(next_delay(30000), 30000);
    let mut c = RelayClient::new("relay.haavk.net:42070", true);
    let mut waits = Vec::new();
    for _ in 0..7 {
        waits.push(c.retry_after(Err("refused".to_string())).unwrap());
    }
    assert_eq!(waits, vec![1000, 2000, 4000, 8000, 16000, 30000, 30000]);
    assert!(!c.is_connected());
    assert_eq!(c.retry_after(Ok(())), None);
    assert!(c.is_connected());
    c.connection_lost();
    assert!(!c.is_connected());
    assert_eq!(c.retry_after(Err("refused".to_string())), Some(1000));
}

#[test]
fn permission_sets() {
    let mut p = PermissionSet::new(PermissionLevel::Restricted);
    assert!(!p.allows_all(&["filesystem.read", "shell.exec"]));
    p.grant("filesystem.read");
    p.grant("shell.exec");
    p.grant("shell.exec");
    assert!(p.allows_all(&["filesystem.read", "shell.exec"]));
    assert!(p.allows_all(&[]));
    assert_eq!(p.granted_list().len(), 2);
    assert_eq!(PermissionLevel::Standard.as_str(), "standard");
}

#[test]
fn data_directories() {
    assert_eq!(core_dir(Some("/opt/haavk"), Some("/home/u")), "/opt/haavk");
    assert_eq!(core_dir(None, Some("/home/u")), "/home/u/.haavk");
    assert_eq!(core_dir(None, None), "./.haavk");
}

#[test]
fn bookmark_bar_toggles() {
    let mut b = BrowserState::default();
    assert!(!b.show_bookmarks);
    b.toggle_bookmarks();
    assert!(b.show_bookmarks);
}

#[test]
fn desktop_icons_and_menu() {
    assert_eq!(desktop_icon(0), ("全域节点", AppKind::Files));
    assert_eq!(desktop_icon(ICON_COUNT - 1), ("终端", AppKind::Terminal));
    let (label, action) = context_menu_item(1);
    assert_eq!(label, "全域浏览器");
    assert!(matches!(action, Action::Open(AppKind::Browser)));
    assert!(matches!(context_menu_item(7).1, Action::NoAction));
    let (label, action) = context_menu_item(MENU_ITEM_COUNT - 1);
    assert_eq!(label, "断开 HAAVK 环境");
    let mut ui = UiState::new();
    assert!(ui.apply(action));
}

fn probed_dell() -> HardwareInfo {
    HardwareInfo {
        bios_vendor: "Dell Inc.".to_string(),
        manufacturer: "Dell".to_string(),
        product_name: "XPS".to_string(),
        serial: "ABC123".to_string(),
        cpu: "Intel".to_string(),
        memory_mb: 0,
        network: String::new(),
    }
}

#[test]
fn collect_follows_read_dmi() {
    let mut cfg = MandelConfig::default();
    cfg.hardware.read_dmi = true;
    let on = collect(&cfg, probed_dell());
    assert_eq!(on.bios_vendor, "Dell Inc.");
    assert_eq!(on.memory_mb, cfg.hardware.memory_limit_mb);
    assert_eq!(on.network, "e1000");
    cfg.hardware.read_dmi = false;
    let off = collect(&cfg, probed_dell());
    assert_eq!(off.bios_vendor, "HAAVK Group");
    assert_eq!(off.manufacturer, "HAAVK哈夫克集团");
    assert_eq!(off.product_name, "HAAVK全域算力终端");
    assert_eq!(off.serial, "HAAVK-NODE-UNKNOWN");
    assert_eq!(off.memory_mb, cfg.hardware.memory_limit_mb);
    assert!(!off.network.is_empty());
}

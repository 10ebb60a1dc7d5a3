use mandel_core::apps::AppRegistry;
use mandel_core::config::MandelConfig;
use mandel_core::desktop::browser::{bookmark_label, page_from_response, strip_html, BrowserState};
use mandel_core::desktop::files::{listing_rows, FilesState};
use mandel_core::desktop::settings::{host_kernel_name, settings_rows, HostOs};
use mandel_core::desktop::shell::{curl_host, run_shell_cmd, submit_input, ShellRequest, TerminalState};
use mandel_core::desktop::start_menu::{matches_search, start_menu_items};
use mandel_core::desktop::taskbar::{taskbar_click, taskbar_items};
use mandel_core::desktop::window::{Action, AppKind, UiState};
use mandel_core::disk::DiskImage;
use mandel_core::relink::PeerNode;
use mandel_core::vfs::Vfs;
use mandel_core::MandelCore;

fn test_vfs() -> Vfs {
    let cfg = MandelConfig::default();
    let mut vfs = Vfs::new(&cfg);
    vfs.mount("home", "/home/user");
    vfs
}

fn test_apps() -> AppRegistry {
    let mut reg = AppRegistry::new();
    reg.register_builtins();
    reg
}

fn run(state: &mut TerminalState, cmd: &str) -> ShellRequest {
    let vfs = test_vfs();
    let apps = test_apps();
    let peers: Vec<PeerNode> = Vec::new();
    run_shell_cmd(state, cmd, &vfs, &apps, &peers, None)
}

fn last(state: &TerminalState) -> &str {
    state.output.last().unwrap().as_str()
}

// ---------------------------------------------------------------------------
// Windows
// ---------------------------------------------------------------------------

#[test]
fn open_app_makes_and_activates_window() {
    let mut ui = UiState::new();
    ui.open_app(AppKind::Files);
    assert_eq!(ui.windows.len(), 1);
    assert_eq!(ui.windows[0].id, 1);
    assert_eq!(ui.active, Some(1));
    assert_eq!(ui.next_id, 2);
    assert!(ui.windows[0].files.is_some());
    assert!(ui.windows[0].terminal.is_none());
}

#[test]
fn open_app_twice_keeps_one_window() {
    let mut ui = UiState::new();
    ui.open_app(AppKind::Terminal);
    ui.open_app(AppKind::Terminal);
    assert_eq!(ui.windows.len(), 1);
    assert_eq!(ui.active, Some(1));
    assert_eq!(ui.next_id, 2);
}

#[test]
fn open_app_reopens_closed_window() {
    let mut ui = UiState::new();
    ui.open_app(AppKind::About);
    ui.windows[0].open = false;
    ui.windows[0].minimized = true;
    ui.active = None;
    ui.open_app(AppKind::About);
    assert_eq!(ui.windows.len(), 1);
    assert!(ui.windows[0].open);
    assert!(!ui.windows[0].minimized);
    assert_eq!(ui.active, Some(1));
}

#[test]
fn minimize_active_activates_next_shown() {
    let mut ui = UiState::new();
    ui.open_app(AppKind::Files);
    ui.open_app(AppKind::Settings);
    assert_eq!(ui.active, Some(2));
    ui.toggle_minimize(2);
    assert!(ui.windows[1].minimized);
    assert_eq!(ui.active, Some(1));
    ui.toggle_minimize(1);
    assert_eq!(ui.active, None);
    ui.activate(2);
    assert!(!ui.windows[1].minimized);
    assert_eq!(ui.active, Some(2));
}

#[test]
fn alt_tab_cycles_shown_windows() {
    let mut ui = UiState::new();
    ui.open_app(AppKind::Files);
    ui.open_app(AppKind::Terminal);
    ui.open_app(AppKind::Nodes);
    assert_eq!(ui.active, Some(3));
    ui.alt_tab();
    assert_eq!(ui.active, Some(1));
    assert_eq!(ui.alt_tab_hint, Some(1));
    ui.alt_tab();
    assert_eq!(ui.active, Some(2));
    ui.toggle_minimize(3);
    ui.alt_tab();
    assert_eq!(ui.active, Some(1));
}

#[test]
fn alt_tab_without_windows_does_nothing() {
    let mut ui = UiState::new();
    ui.alt_tab();
    assert_eq!(ui.active, None);
    assert_eq!(ui.alt_tab_hint, None);
}

#[test]
fn remove_closed_drops_windows_and_picks_active() {
    let mut ui = UiState::new();
    ui.open_app(AppKind::Files);
    ui.open_app(AppKind::Settings);
    ui.open_app(AppKind::About);
    ui.windows[2].open = false;
    ui.remove_closed();
    assert_eq!(ui.windows.len(), 2);
    assert_eq!(ui.windows[0].id, 1);
    assert_eq!(ui.windows[1].id, 2);
    assert_eq!(ui.active, Some(1));
}

#[test]
fn closing_a_window_then_sweeping() {
    let mut ui = UiState::new();
    ui.open_app(AppKind::Files);
    ui.open_app(AppKind::Settings);
    ui.close(2);
    assert!(!ui.windows[1].open);
    assert_eq!(ui.active, None);
    ui.remove_closed();
    assert_eq!(ui.windows.len(), 1);
    assert_eq!(ui.active, Some(1));
    ui.toggle_minimize(1);
    ui.close(1);
    assert!(ui.windows[0].open);
}

#[test]
fn apply_reports_exit() {
    let mut ui = UiState::new();
    assert!(!ui.apply(Action::ToggleStart));
    assert!(ui.start_open);
    assert!(!ui.apply(Action::Open(AppKind::AppCenter)));
    assert_eq!(ui.windows.len(), 1);
    assert!(!ui.apply(Action::NoAction));
    assert!(ui.apply(Action::Exit));
}

#[test]
fn window_titles() {
    assert_eq!(AppKind::Terminal.title(), "HAAVK 终端");
    assert_eq!(AppKind::Nodes.title(), "Relink 同频节点");
    assert_eq!(AppKind::Browser.title(), "HAAVK 全域浏览器");
}

#[test]
fn browser_window_gets_a_browser() {
    let mut ui = UiState::new();
    ui.open_app(AppKind::Browser);
    let b = ui.windows[0].browser.as_ref().unwrap();
    assert_eq!(b.tabs[0].url, "https://www.example.com");
    assert!(ui.windows[0].files.is_none());
}

#[test]
fn taskbar_lists_open_windows() {
    let mut ui = UiState::new();
    ui.open_app(AppKind::Files);
    ui.open_app(AppKind::Terminal);
    ui.windows[0].open = false;
    let items = taskbar_items(&ui);
    assert_eq!(items, vec![(2, AppKind::Terminal, true)]);
    assert!(matches!(taskbar_click(&ui, 2), Action::ToggleMinimize(2)));
    assert!(matches!(taskbar_click(&ui, 1), Action::Activate(1)));
}

#[test]
fn start_menu_filters_by_search() {
    assert_eq!(
        start_menu_items(""),
        vec![
            AppKind::Files,
            AppKind::AppCenter,
            AppKind::Nodes,
            AppKind::Browser,
            AppKind::Settings,
            AppKind::About,
            AppKind::Terminal
        ]
    );
    assert_eq!(start_menu_items("浏览"), vec![AppKind::Browser]);
    assert_eq!(start_menu_items("haavk"), vec![AppKind::About]);
    assert_eq!(start_menu_items("终端"), vec![AppKind::Terminal]);
    assert!(start_menu_items("xyz").is_empty());
    assert!(matches_search("关于 HAAVK", "HaAvK"));
    assert!(!matches_search("终端", "x"));
}

// ---------------------------------------------------------------------------
// Terminal
// ---------------------------------------------------------------------------

#[test]
fn new_terminal_greets() {
    let t = TerminalState::default();
    assert_eq!(t.cwd, "haavk://home");
    assert_eq!(t.output, vec!["HAAVK Mandel Shell v0.1".to_string(), "输入 help 查看可用命令".to_string()]);
}

#[test]
fn help_prints_commands() {
    let mut t = TerminalState::default();
    let r = run(&mut t, "help");
    assert!(matches!(r, ShellRequest::NoRequest));
    assert_eq!(t.output.len(), 2 + 15);
    assert_eq!(t.output[2], "HAAVK Mandel Shell 可用命令：");
    assert_eq!(last(&t), "  clear         清空终端");
    assert_eq!(t.history, vec!["help".to_string()]);
}

#[test]
fn simple_commands_print() {
    let mut t = TerminalState::default();
    run(&mut t, "pwd");
    assert_eq!(last(&t), "haavk://home");
    run(&mut t, "echo hello   haavk  world");
    assert_eq!(last(&t), "hello haavk world");
    run(&mut t, "whoami");
    assert_eq!(last(&t), "haavk");
    run(&mut t, "uname");
    assert_eq!(last(&t), "HAAVK-Mandel-Core 0.9 (userland microkernel)");
    run(&mut t, "frobnicate now");
    assert_eq!(last(&t), "mandel: 未找到命令：frobnicate（输入 help 查看）");
    assert_eq!(t.history.len(), 5);
}

#[test]
fn empty_command_does_nothing() {
    let mut t = TerminalState::default();
    let r = run(&mut t, "");
    assert!(matches!(r, ShellRequest::NoRequest));
    assert!(t.history.is_empty());
    assert_eq!(t.output.len(), 2);
}

#[test]
fn cd_and_ls_resolve_paths() {
    let mut t = TerminalState::default();
    match run(&mut t, "ls") {
        ShellRequest::ListDir { path, host } => {
            assert_eq!(path, "haavk://home");
            assert_eq!(host, "/home/user");
        }
        other => panic!("unexpected request {:?}", other),
    }
    run(&mut t, "ls haavk://nowhere");
    assert_eq!(last(&t), "ls: 未挂载路径 haavk://nowhere");
    run(&mut t, "cd haavk://home/docs");
    assert_eq!(t.cwd, "haavk://home/docs");
    run(&mut t, "cd");
    assert_eq!(t.cwd, "haavk://home/docs");
    match run(&mut t, "ls") {
        ShellRequest::ListDir { host, .. } => assert_eq!(host, "/home/user/docs"),
        other => panic!("unexpected request {:?}", other),
    }
    t.finish_ls("haavk://home/docs", Ok(vec!["a.txt".to_string(), "b".to_string()]));
    assert_eq!(last(&t), "a.txt  b");
    t.finish_ls("haavk://home/x", Err("denied".to_string()));
    assert_eq!(last(&t), "ls: 无法访问 haavk://home/x: denied");
}

#[test]
fn nodes_lists_peers() {
    let mut t = TerminalState::default();
    run(&mut t, "nodes");
    assert_eq!(last(&t), "（暂无在线节点）");
    let peers = vec![PeerNode {
        id: "HAAVK-NODE-0000002A".to_string(),
        addr: "192.168.1.7:42069".to_string(),
        product: "HAAVK全域算力终端".to_string(),
        version: "0.9".to_string(),
        last_seen_ms: 5,
    }];
    let vfs = test_vfs();
    let apps = test_apps();
    run_shell_cmd(&mut t, "nodes", &vfs, &apps, &peers, None);
    assert_eq!(last(&t), "  HAAVK-NODE-0000002A @ 192.168.1.7:42069 v0.9");
}

#[test]
fn apps_lists_registry() {
    let mut t = TerminalState::default();
    run(&mut t, "apps");
    let n = t.output.len();
    assert_eq!(t.output[n - 5], "已安装应用（4 个）：");
    assert_eq!(t.output[n - 4], "  关于HAAVK [builtin] v1.0.0");
    assert_eq!(t.output[n - 1], "  终端 [builtin] v1.0.0");
}

#[test]
fn disk_reports_sizes() {
    let mut t = TerminalState::default();
    run(&mut t, "disk");
    assert_eq!(last(&t), "虚拟磁盘未加载");
    let img = DiskImage::create(100);
    let vfs = test_vfs();
    let apps = test_apps();
    run_shell_cmd(&mut t, "disk", &vfs, &apps, &[], Some(&img));
    assert_eq!(last(&t), "曼德尔虚拟磁盘：0 MB / 总 100 MB");
}

#[test]
fn clear_empties_output() {
    let mut t = TerminalState::default();
    run(&mut t, "clear");
    assert!(t.output.is_empty());
    assert_eq!(t.history, vec!["clear".to_string()]);
}

#[test]
fn date_ping_curl_ask_outside() {
    let mut t = TerminalState::default();
    assert!(matches!(run(&mut t, "date"), ShellRequest::Date));
    match run(&mut t, "ping") {
        ShellRequest::Ping { host } => assert_eq!(host, "8.8.8.8"),
        other => panic!("unexpected request {:?}", other),
    }
    assert_eq!(last(&t), "ping 8.8.8.8 ...");
    match run(&mut t, "curl http://http://example.org/a/b") {
        ShellRequest::Curl { addr } => assert_eq!(addr, "example.org"),
        other => panic!("unexpected request {:?}", other),
    }
    assert_eq!(last(&t), "curl http://http://example.org/a/b ...");
    match run(&mut t, "curl") {
        ShellRequest::Curl { addr } => assert_eq!(addr, "example.com"),
        other => panic!("unexpected request {:?}", other),
    }
    assert_eq!(curl_host("https://haavk.net"), "haavk.net");
}

#[test]
fn outside_results_are_printed() {
    let mut t = TerminalState::default();
    t.finish_ping(Ok(12));
    assert_eq!(last(&t), "  连接成功，耗时 12 ms");
    t.finish_ping(Err("timed out".to_string()));
    assert_eq!(last(&t), "  连接失败: timed out");
    t.finish_curl(Err("refused".to_string()));
    assert_eq!(last(&t), "  curl 失败: refused");
    let before = t.output.len();
    t.finish_curl(Ok(None));
    assert_eq!(t.output.len(), before);
    t.finish_curl(Ok(Some(b"HTTP/1.0 200 OK\r\nA: \xff\r\n\r\nbody".to_vec())));
    let n = t.output.len();
    assert_eq!(t.output[n - 5], "  收到 29 字节：");
    assert_eq!(t.output[n - 4], "    HTTP/1.0 200 OK");
    assert_eq!(t.output[n - 3], "    A: \u{FFFD}");
    assert_eq!(t.output[n - 2], "    ");
    assert_eq!(t.output[n - 1], "    body");
}

#[test]
fn curl_shows_eight_lines_at_most() {
    let mut t = TerminalState::default();
    t.finish_curl(Ok(Some(b"1\n2\n3\n4\n5\n6\n7\n8\n9\n10".to_vec())));
    assert_eq!(t.output.len(), 2 + 1 + 8);
    assert_eq!(last(&t), "    8");
}

#[test]
fn submit_runs_trimmed_input() {
    let mut t = TerminalState::default();
    t.input = "   pwd  ".to_string();
    let vfs = test_vfs();
    let apps = test_apps();
    submit_input(&mut t, &vfs, &apps, &[], None);
    assert!(t.input.is_empty());
    assert_eq!(t.history, vec!["pwd".to_string()]);
    assert_eq!(last(&t), "haavk://home");
}

// ---------------------------------------------------------------------------
// File manager
// ---------------------------------------------------------------------------

#[test]
fn files_navigation_history() {
    let mut f = FilesState::root();
    assert!(!f.can_back());
    f.enter("docs");
    assert_eq!(f.vpath, "haavk://home/docs");
    f.navigate("haavk://system".to_string());
    f.back();
    assert_eq!(f.vpath, "haavk://home/docs");
    assert!(f.can_forward());
    f.forward();
    assert_eq!(f.vpath, "haavk://system");
    f.back();
    f.back();
    assert_eq!(f.vpath, "haavk://home");
    f.navigate("haavk://home/".to_string());
    assert!(!f.can_forward());
    f.enter("pics");
    assert_eq!(f.vpath, "haavk://home/pics");
}

#[test]
fn files_current_host_and_nav() {
    let vfs = test_vfs();
    let mut f = FilesState::root();
    assert_eq!(f.current_host(&vfs), Some("/home/user".to_string()));
    f.navigate("haavk://home/".to_string());
    let nav = f.nav_items(&vfs);
    assert_eq!(nav, vec![("home".to_string(), true)]);
    f.navigate("haavk://nowhere".to_string());
    assert_eq!(f.current_host(&vfs), None);
    assert_eq!(f.nav_items(&vfs), vec![("home".to_string(), false)]);
}

#[test]
fn listing_puts_sorted_dirs_first() {
    let entries = vec![
        ("zeta.txt".to_string(), false, "01-01 10:00".to_string()),
        ("b".to_string(), true, "--".to_string()),
        ("alpha.txt".to_string(), false, "01-02 11:00".to_string()),
        ("a".to_string(), true, "--".to_string()),
    ];
    let rows = listing_rows(&entries);
    let names: Vec<&str> = rows.iter().map(|r| r.0.as_str()).collect();
    assert_eq!(names, vec!["a", "b", "alpha.txt", "zeta.txt"]);
    assert_eq!(rows[2].2, "01-02 11:00");
}

// ---------------------------------------------------------------------------
// Browser
// ---------------------------------------------------------------------------

#[test]
fn strip_html_keeps_text_lines() {
    assert_eq!(strip_html("<p>Hello</p>\n<b>x</b>"), "Hello\nx");
    assert_eq!(strip_html("  a <i>b</i> c  "), "a\nb\nc");
    assert_eq!(strip_html(""), "");
}

#[test]
fn page_title_and_text() {
    let (title, text) = page_from_response(200, "<html><title> Hi </title><body>Text</body></html>");
    assert_eq!(title, "Hi · HTTP 200");
    assert_eq!(text, "Hi\nText");
    let (title, _) = page_from_response(404, "<p>none</p>");
    assert_eq!(title, "无标题 · HTTP 404");
    let (title, _) = page_from_response(200, "<title>One<title>Two</title>");
    assert_eq!(title, "One · HTTP 200");
    let long = "x".repeat(5000);
    let (_, text) = page_from_response(200, &long);
    assert_eq!(text.chars().count(), 3000);
}

#[test]
fn browser_loads_and_bookmarks() {
    let mut b = BrowserState::default();
    assert_eq!(b.tabs.len(), 1);
    assert_eq!(b.bookmarks.len(), 2);
    b.load_result("https://a.org", Ok(("A · HTTP 200".to_string(), "text".to_string())));
    assert_eq!(b.tabs[0].url, "https://a.org");
    assert_eq!(b.tabs[0].title, "A · HTTP 200");
    assert_eq!(b.history, vec!["https://a.org".to_string()]);
    b.load_result("https://b.org", Err("dns".to_string()));
    assert_eq!(b.tabs[0].url, "https://a.org");
    assert_eq!(b.tabs[0].title, "加载失败");
    assert_eq!(b.tabs[0].text, "无法访问 https://b.org: dns");
    b.bookmark_current();
    assert_eq!(b.bookmarks.len(), 3);
    b.bookmark_current();
    assert_eq!(b.bookmarks.len(), 3);
    b.new_tab();
    assert_eq!(b.active, 1);
    b.bookmark_current();
    assert_eq!(b.bookmarks.len(), 3);
    assert_eq!(b.tab_label(1), "新标签页 ✕");
    b.tabs[1].title = String::new();
    assert_eq!(b.tab_label(1), "新标签 ✕");
    b.tabs[1].title = "一二三四五六七八九十ABCDEFG".to_string();
    assert_eq!(b.tab_label(1), "一二三四五六七八九十ABCD ✕");
    b.bookmark_result("https://c.org", Err("x".to_string()));
    assert_eq!(b.tabs[1].text, "加载失败: x");
    b.select_tab(0);
    b.sync_url_input();
    assert_eq!(b.url_input, "https://a.org");
    assert_eq!(bookmark_label("https://www.example.com/very/long/path"), "https://www.example.com/");
}

#[test]
fn history_is_capped_by_address_bar_loads() {
    let mut b = BrowserState::default();
    for i in 0..55 {
        b.load_result(&format!("https://{i}.org"), Ok(("t".to_string(), "x".to_string())));
    }
    assert_eq!(b.history.len(), 50);
    assert_eq!(b.history[0], "https://5.org");
}

// ---------------------------------------------------------------------------
// Settings
// ---------------------------------------------------------------------------

#[test]
fn settings_rows_show_system() {
    let cfg = MandelConfig::default();
    let (core, _) = MandelCore::boot_with(cfg, Some("HAAVK-NODE-00002"), None, "/h/.haavk", "/h", &[false, false, false], Vec::new(), None);
    let rows = settings_rows(&core, HostOs::Linux, 3);
    assert_eq!(rows.len(), 16);
    assert_eq!(rows[2], ("节点 ID", "HAAVK-NODE-00002".to_string()));
    assert_eq!(rows[4], ("宿主内核", "Linux".to_string()));
    assert_eq!(rows[12], ("在线节点", "3 个".to_string()));
    assert_eq!(host_kernel_name(HostOs::Windows), "Windows NT");
    assert_eq!(host_kernel_name(HostOs::Android), "Android Linux");
}

#[test]
fn toggling_twice_restores_window() {
    let mut ui = UiState::new();
    ui.open_app(AppKind::Files);
    ui.open_app(AppKind::Nodes);
    ui.toggle_minimize(1);
    ui.toggle_minimize(1);
    assert!(!ui.windows[0].minimized);
    assert!(ui.windows[0].open);
    assert_eq!(ui.windows.len(), 2);
}

#[test]
fn plain_text_never_holds_brackets() {
    let text = strip_html("a<b>c>d<e<<f>>g> h <");
    assert!(!text.contains('<') && !text.contains('>'));
    assert_eq!(text, "a\nc\nd\ng\nh");
}

#[test]
fn strip_html_is_idempotent() {
    let once = strip_html("<p>Hello</p><b> HAAVK </b>");
    assert_eq!(once, "Hello\nHAAVK");
    assert_eq!(strip_html(&once), once);
    let page = strip_html("<html>\r\n <title> T </title>\n<body>a &lt; b\n\n  c  </body></html>");
    assert_eq!(strip_html(&page), page);
}

#[test]
fn image_parts_load_back() {
    let mut d = DiskImage::create(100);
    d.mkdir("/", "etc").unwrap();
    d.write_file("/etc", "hosts", b"127.0.0.1 localhost").unwrap();
    let (sb, parts, next) = d.to_parts();
    let ids: Vec<u32> = parts.iter().map(|(k, _)| *k).collect();
    assert_eq!(ids, vec![0, 1, 2]);
    let back = DiskImage::from_parts(sb, parts, next).unwrap();
    assert_eq!(back.read_file("/etc/hosts").unwrap(), b"127.0.0.1 localhost");
    assert_eq!(back.capacity_mb(), 100);
    assert_eq!(back.next_inode(), next);
    assert_eq!(back.lookup("/etc"), d.lookup("/etc"));
}

#[test]
fn capacity_and_paths_survive_writes() {
    let mut d = DiskImage::create(102400);
    assert_eq!(d.capacity_mb(), 102400);
    let etc = d.mkdir("/", "etc").unwrap();
    d.write_file("/etc", "a", b"one").unwrap();
    d.write_file("/", "b", b"two").unwrap();
    d.mkdir("/etc", "x").unwrap();
    assert_eq!(d.capacity_mb(), 102400);
    assert_eq!(d.lookup("/etc"), Some(etc));
    assert_eq!(d.read_file("/etc/a").unwrap(), b"one");
    assert_eq!(d.read_file("/b").unwrap(), b"two");
}

#[test]
fn bookmarks_stay_valid() {
    let mut b = BrowserState::default();
    b.bookmark_current();
    assert_eq!(b.bookmarks.len(), 2);
    b.new_tab();
    b.bookmark_current();
    assert_eq!(b.bookmarks.len(), 2);
    b.load_result("https://haavk.net", Ok(("H".to_string(), "t".to_string())));
    b.bookmark_current();
    b.bookmark_current();
    assert_eq!(b.bookmarks, vec!["https://www.example.com", "https://github.com", "https://haavk.net"]);
    assert_eq!(b.history.last().map(|s| s.as_str()), Some("https://haavk.net"));
}

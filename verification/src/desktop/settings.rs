//! The settings window's information rows.
use vstd::prelude::*;

use crate::text::{decimal, owned, push_decimal, push_str};
use crate::MandelCore;

verus! {

/// The host system the desktop runs on.
#[derive(Debug, Clone, Copy, PartialEq, Eq, Structural)]
pub enum HostOs {
    Windows,
    Android,
    /// Linux, and any other host.
    Linux,
}

/// The name of the host's kernel.
pub open spec fn kernel_name_spec(os: HostOs) -> Seq<char> {
    match os {
        HostOs::Windows => "Windows NT"@,
        HostOs::Android => "Android Linux"@,
        HostOs::Linux => "Linux"@,
    }
}

/// The name of the host's kernel.
pub fn host_kernel_name(os: HostOs) -> (r: &'static str)
    ensures
        r@ == kernel_name_spec(os),
{
    match os {
        HostOs::Windows => "Windows NT",
        HostOs::Android => "Android Linux",
        HostOs::Linux => "Linux",
    }
}

/// `开` or `关`.
pub open spec fn on_off(b: bool) -> Seq<char> {
    if b {
        "开"@
    } else {
        "关"@
    }
}

/// The settings window's rows, label and value: system information, then
/// computing power, then display, for a host `os` with `peers` peers online.
pub open spec fn settings_spec(c: MandelCore, os: HostOs, peers: nat) -> Seq<(Seq<char>, Seq<char>)> {
    seq![
        ("系统名称"@, "HAAVK OS · 曼德尔全域算力系统"@),
        ("Mandel Core"@, c.config.core.version@),
        ("节点 ID"@, c.node.node_id@),
        ("日志级别"@, c.config.core.log_level@),
        ("宿主内核"@, kernel_name_spec(os)),
        ("标语"@, "天空属于哈夫克，新世界就在你耳边"@),
        ("硬件型号"@, c.hardware.product_name@),
        ("CPU"@, c.hardware.cpu@),
        (
            "内存"@,
            decimal(c.hardware.memory_mb as nat) + " MB（上限 "@ + decimal(c.config.hardware.memory_limit_mb as nat)
                + " MB）"@,
        ),
        ("存储配额"@, decimal(c.config.hardware.storage_quota_mb as nat) + " MB"@),
        ("网卡"@, c.hardware.network@),
        ("Relink 总线"@, if c.relink.enabled {
            "同频在线 (UDP 42069)"@
        } else {
            "未启用"@
        }),
        ("在线节点"@, decimal(peers) + " 个"@),
        ("渲染后端"@, c.config.window_manager.render_backend@),
        ("动画"@, on_off(c.config.window_manager.animations)),
        ("Alt+Tab 切换"@, on_off(c.config.window_manager.alt_tab_switch)),
    ]
}

/// The values of the rows.
pub open spec fn rows_view(v: Seq<(&str, String)>) -> Seq<(Seq<char>, Seq<char>)> {
    v.map_values(|r: (&str, String)| (r.0@, r.1@))
}

fn add_row(rows: &mut Vec<(&'static str, String)>, label: &'static str, value: String)
    ensures
        rows_view(final(rows)@) == rows_view(old(rows)@).push((label@, value@)),
{
    rows.push((label, value));
    assert(rows_view(rows@) =~= rows_view(old(rows)@).push((label@, value@)));
}

/// The settings window's rows for a host `os` with `peers` peers online.
pub fn settings_rows(core: &MandelCore, os: HostOs, peers: usize) -> (r: Vec<(&'static str, String)>)
    ensures
        rows_view(r@) == settings_spec(*core, os, peers as nat),
{
    let mut rows: Vec<(&'static str, String)> = Vec::new();
    add_row(&mut rows, "系统名称", owned("HAAVK OS · 曼德尔全域算力系统"));
    add_row(&mut rows, "Mandel Core", owned(core.config.core.version.as_str()));
    add_row(&mut rows, "节点 ID", owned(core.node.node_id.as_str()));
    add_row(&mut rows, "日志级别", owned(core.config.core.log_level.as_str()));
    add_row(&mut rows, "宿主内核", owned(host_kernel_name(os)));
    add_row(&mut rows, "标语", owned("天空属于哈夫克，新世界就在你耳边"));
    add_row(&mut rows, "硬件型号", owned(core.hardware.product_name.as_str()));
    add_row(&mut rows, "CPU", owned(core.hardware.cpu.as_str()));
    let mut mem = String::new();
    push_decimal(&mut mem, core.hardware.memory_mb);
    push_str(&mut mem, " MB（上限 ");
    push_decimal(&mut mem, core.config.hardware.memory_limit_mb);
    push_str(&mut mem, " MB）");
    add_row(&mut rows, "内存", mem);
    let mut quota = String::new();
    push_decimal(&mut quota, core.config.hardware.storage_quota_mb);
    push_str(&mut quota, " MB");
    add_row(&mut rows, "存储配额", quota);
    add_row(&mut rows, "网卡", owned(core.hardware.network.as_str()));
    add_row(
        &mut rows,
        "Relink 总线",
        owned(
            if core.relink.enabled {
                "同频在线 (UDP 42069)"
            } else {
                "未启用"
            },
        ),
    );
    let mut online = String::new();
    push_decimal(&mut online, peers as u64);
    push_str(&mut online, " 个");
    add_row(&mut rows, "在线节点", online);
    add_row(&mut rows, "渲染后端", owned(core.config.window_manager.render_backend.as_str()));
    add_row(
        &mut rows,
        "动画",
        owned(
            if core.config.window_manager.animations {
                "开"
            } else {
                "关"
            },
        ),
    );
    add_row(
        &mut rows,
        "Alt+Tab 切换",
        owned(
            if core.config.window_manager.alt_tab_switch {
                "开"
            } else {
                "关"
            },
        ),
    );
    assert(rows_view(rows@) =~= settings_spec(*core, os, peers as nat));
    rows
}

} // verus!

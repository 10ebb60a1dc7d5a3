//! Mandel Core: the verified library of the HAAVK user-land system.
use vstd::prelude::*;

pub mod apps;
pub mod cli;
pub mod config;
pub mod desktop;
pub mod disk;
pub mod hardware;
pub mod logger;
pub mod node;
pub mod permissions;
pub mod relink;
pub mod text;
pub mod vfs;
pub mod vga;

use crate::apps::{builtins_registered, last_of_its_id, sorted_by_id, AppRegistry, InstalledApp};
use crate::config::MandelConfig;
use crate::disk::DiskImage;
use crate::hardware::{hardware_chosen, hardware_for, HardwareInfo, HostSources};
use crate::node::{is_generated_id, is_uuid_simple, node_id_source, node_id_spec, NodeInfo};
use crate::relink::RelinkBus;
use crate::text::{decimal, owned, push_decimal, push_str};
use crate::vfs::{auto_mounts, Vfs};

verus! {

/// The running system: configuration, node identity, hardware, the Relink
/// bus, the virtual file system, the installed applications and the disk
/// image, if one is mounted.
pub struct MandelCore {
    pub config: MandelConfig,
    pub node: NodeInfo,
    pub hardware: HardwareInfo,
    pub relink: RelinkBus,
    pub vfs: Vfs,
    pub apps: AppRegistry,
    pub disk: Option<DiskImage>,
}

/// The Relink line of the about text.
pub open spec fn relink_status(enabled: bool, port: u16) -> Seq<char> {
    if enabled {
        "同频在线:"@ + decimal(port as nat)
    } else {
        "未启用"@
    }
}

/// The text of the "about this node" panel.
pub open spec fn about_spec(c: MandelCore) -> Seq<char> {
    "HAAVK OS\nMandel Core："@ + c.config.core.version@ + "\n节点 ID："@ + c.node.node_id@ + "\n硬件："@
        + c.hardware.product_name@ + "\nCPU："@ + c.hardware.cpu@ + "\n内存："@ + decimal(
        c.hardware.memory_mb as nat,
    ) + " MB（上限 "@ + decimal(c.config.hardware.memory_limit_mb as nat) + " MB）\n存储配额："@
        + decimal(c.config.hardware.storage_quota_mb as nat) + " MB\n网卡："@ + c.hardware.network@
        + "\nRelink："@ + relink_status(c.relink.enabled, c.relink.discovery_port)
        + "\n标语：天空属于哈夫克，新世界就在你耳边"@
}

/// The node-id file contents as a value.
pub open spec fn opt_view(s: Option<&str>) -> Option<Seq<char>> {
    match s {
        Some(c) => Some(c@),
        None => None,
    }
}

/// The host files as a value.
pub open spec fn host_view(h: Option<&HostSources>) -> Option<HostSources> {
    match h {
        Some(s) => Some(*s),
        None => None,
    }
}

impl MandelCore {
    /// Assembles the system at boot from what was read outside: the
    /// configuration, the node-id file contents (`None` where there is no
    /// file), the host hardware files (read where the configuration asks for
    /// them), the user's directories for the virtual file system, the
    /// applications found installed, and the disk image. The flag says
    /// whether a new node id was made, which must then be persisted.
    pub fn boot_with(
        config: MandelConfig,
        persisted_node_id: Option<&str>,
        host: Option<&HostSources>,
        haavk_home: &str,
        user_home: &str,
        present: &[bool],
        found_apps: Vec<InstalledApp>,
        disk: Option<DiskImage>,
    ) -> (r: (MandelCore, bool))
        requires
            present@.len() == 3,
        ensures
            r.0.config == config,
            match node_id_source(config.core.node_id@, opt_view(persisted_node_id)) {
                Some(id) => r.0.node.node_id@ == id && !r.1,
                None => {
                    &&& is_generated_id(r.0.node.node_id@)
                    &&& exists|u: Seq<char>| is_uuid_simple(u) && r.0.node.node_id@ == #[trigger] node_id_spec(u)
                    &&& r.1
                },
            },
            hardware_chosen(config, host_view(host), r.0.hardware),
            r.0.relink.enabled == config.relink_bus.enable,
            r.0.relink.node_discovery == config.relink_bus.node_discovery,
            r.0.relink.discovery_port == config.relink_bus.discovery_port,
            r.0.relink.max_connections == config.relink_bus.max_connections,
            !r.0.relink.running,
            !r.0.relink.stop_requested,
            r.0.relink.peers.view().len() == 0,
            r.0.vfs.prefix() == config.vfs.root_prefix@,
            r.0.vfs.table() == if config.vfs.enable {
                auto_mounts(config.vfs.root_prefix@, haavk_home@, user_home@, present@)
            } else {
                Seq::empty()
            },
            sorted_by_id(r.0.apps.entries()),
            exists|found: Seq<InstalledApp>|
                #[trigger] builtins_registered(found, r.0.apps.entries()) && forall|e: InstalledApp|
                    #[trigger] found.contains(e) <==> last_of_its_id(found_apps@, e),
            r.0.disk == disk,
    {
        let (node, must_persist) = NodeInfo::load(&config, persisted_node_id);
        let hardware = hardware_for(&config, host);
        let relink = RelinkBus::new(&config);
        let mut vfs = Vfs::new(&config);
        if config.vfs.enable {
            vfs.auto_mount_host(haavk_home, user_home, present);
            assert(vfs.table() =~= auto_mounts(config.vfs.root_prefix@, haavk_home@, user_home@, present@));
        }
        let mut apps = AppRegistry::new();
        apps.scan_found(found_apps);
        let ghost found = apps.entries();
        apps.register_builtins();
        (MandelCore { config, node, hardware, relink, vfs, apps, disk }, must_persist)
    }

    /// The text of the "about this node" panel: version, node id, hardware,
    /// memory and storage figures, network card, Relink state, motto.
    pub fn about_text(&self) -> (r: String)
        ensures
            r@ == about_spec(*self),
    {
        let mut r = owned("HAAVK OS\nMandel Core：");
        push_str(&mut r, self.config.core.version.as_str());
        push_str(&mut r, "\n节点 ID：");
        push_str(&mut r, self.node.node_id.as_str());
        push_str(&mut r, "\n硬件：");
        push_str(&mut r, self.hardware.product_name.as_str());
        push_str(&mut r, "\nCPU：");
        push_str(&mut r, self.hardware.cpu.as_str());
        push_str(&mut r, "\n内存：");
        push_decimal(&mut r, self.hardware.memory_mb);
        push_str(&mut r, " MB（上限 ");
        push_decimal(&mut r, self.config.hardware.memory_limit_mb);
        push_str(&mut r, " MB）\n存储配额：");
        push_decimal(&mut r, self.config.hardware.storage_quota_mb);
        push_str(&mut r, " MB\n网卡：");
        push_str(&mut r, self.hardware.network.as_str());
        push_str(&mut r, "\nRelink：");
        if self.relink.enabled {
            push_str(&mut r, "同频在线:");
            push_decimal(&mut r, self.relink.discovery_port as u64);
        } else {
            push_str(&mut r, "未启用");
        }
        push_str(&mut r, "\n标语：天空属于哈夫克，新世界就在你耳边");
        r
    }

    /// Leaves the HAAVK environment (the host system is not affected): the
    /// Relink bus is asked to stop; nothing else changes.
    pub fn shutdown(&mut self)
        ensures
            final(self).relink.stop_requested,
            final(self).relink.running == old(self).relink.running,
            final(self).relink.enabled == old(self).relink.enabled,
            final(self).relink.discovery_port == old(self).relink.discovery_port,
            final(self).relink.peers == old(self).relink.peers,
            final(self).config == old(self).config,
            final(self).node == old(self).node,
            final(self).hardware == old(self).hardware,
            final(self).vfs == old(self).vfs,
            final(self).apps == old(self).apps,
            final(self).disk == old(self).disk,
    {
        self.relink.stop();
    }
}

} // verus!

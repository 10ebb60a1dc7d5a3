//! Host hardware information (the DMI/SMBIOS name plate, CPU, memory,
//! network), and how it is read out of the host's `/sys` and `/proc` files.
use vstd::prelude::*;

use crate::config::MandelConfig;
use crate::text::{
    chars_eq, chars_match_range, chars_of, decimal, find_char, has_prefix, idx_of, is_blank, lemma_idx_of,
    line_bounds, lines_of, owned, parse_u64_chars, parse_unsigned, push_decimal, push_str,
    str_eq, string_of, strip_leading, strip_leading_start, strip_trailing, strip_trailing_end,
    trim, trim_bounds, trim_seq, trim_start_bound, trim_start_seq,
};

verus! {

/// What is known of the host's hardware.
#[derive(Debug)]
pub struct HardwareInfo {
    pub bios_vendor: String,
    pub manufacturer: String,
    pub product_name: String,
    pub serial: String,
    pub cpu: String,
    pub memory_mb: u64,
    pub network: String,
}

/// `v`, or `fallback` where `v` is blank.
pub open spec fn nonempty_spec(v: Seq<char>, fallback: Seq<char>) -> Seq<char> {
    if trim_seq(v).len() == 0 {
        fallback
    } else {
        v
    }
}

/// `v`, or `fallback` where `v` is blank (empty once trimmed).
pub fn nonempty(v: &str, fallback: &str) -> (r: String)
    ensures
        r@ == nonempty_spec(v@, fallback@),
{
    if is_blank(v) {
        owned(fallback)
    } else {
        owned(v)
    }
}

/// The value of a `/proc/cpuinfo` line that names the CPU model: a line
/// whose trimmed start begins with `model name` and that holds a `:`, gives
/// what follows the first `:`, trimmed.
pub open spec fn model_name_value(l: Seq<char>) -> Option<Seq<char>> {
    if has_prefix(trim_start_seq(l), "model name"@) && idx_of(l, ':') < l.len() {
        Some(trim_seq(l.skip(idx_of(l, ':') as int + 1)))
    } else {
        None
    }
}

/// The first model name among `lines`.
pub open spec fn first_model_name(lines: Seq<Seq<char>>) -> Option<Seq<char>>
    decreases lines.len(),
{
    if lines.len() == 0 {
        None
    } else {
        match model_name_value(lines[0]) {
            Some(v) => Some(v),
            None => first_model_name(lines.drop_first()),
        }
    }
}

/// The CPU model that `/proc/cpuinfo` names, or `Mandel CPU`.
pub open spec fn cpu_model_spec(cpuinfo: Seq<char>) -> Seq<char> {
    match first_model_name(lines_of(trim_seq(cpuinfo))) {
        Some(v) => v,
        None => "Mandel CPU"@,
    }
}

/// The CPU model comes from the first line whose trimmed start begins with
/// the words `model name`: lines before it that do not (such as
/// `model\t\t: 158`) are passed over, and the model is what follows that
/// line's first `:`, trimmed, whatever lines come after.
pub proof fn law_model_name_line(pre: Seq<Seq<char>>, a: Seq<char>, b: Seq<char>, post: Seq<Seq<char>>)
    requires
        forall|i: int| 0 <= i < pre.len() ==> !has_prefix(trim_start_seq(#[trigger] pre[i]), "model name"@),
        has_prefix(trim_start_seq(a + seq![':'] + b), "model name"@),
        !a.contains(':'),
    ensures
        first_model_name(pre + seq![a + seq![':'] + b] + post) == Some(trim_seq(b)),
    decreases pre.len(),
{
    let l = a + seq![':'] + b;
    let all = pre + seq![l] + post;
    if pre.len() == 0 {
        assert(all[0] == l);
        assert forall|j: int| 0 <= j < a.len() implies l[j] != ':' by {
            assert(l[j] == a[j]);
            if l[j] == ':' {
                assert(a.contains(a[j]));
            }
        }
        lemma_idx_of(l, ':', a.len() as int);
        assert(l.skip(a.len() as int + 1) =~= b);
    } else {
        let rest = pre.drop_first();
        assert forall|i: int| 0 <= i < rest.len() implies !has_prefix(trim_start_seq(#[trigger] rest[i]), "model name"@) by {
            assert(rest[i] == pre[i + 1]);
        }
        law_model_name_line(rest, a, b, post);
        assert(all[0] == pre[0]);
        assert(!has_prefix(trim_start_seq(pre[0]), "model name"@));
        assert(all.drop_first() =~= rest + seq![l] + post);
    }
}

/// The CPU model of a `/proc/cpuinfo` text whose lines (once the text is
/// trimmed) are `pre`, a `model name ... : X` line, and `post`, where no line
/// of `pre` starts with `model name`: `X` trimmed.
pub proof fn law_cpu_model(cpuinfo: Seq<char>, pre: Seq<Seq<char>>, a: Seq<char>, b: Seq<char>, post: Seq<Seq<char>>)
    requires
        lines_of(trim_seq(cpuinfo)) == pre + seq![a + seq![':'] + b] + post,
        forall|i: int| 0 <= i < pre.len() ==> !has_prefix(trim_start_seq(#[trigger] pre[i]), "model name"@),
        has_prefix(trim_start_seq(a + seq![':'] + b), "model name"@),
        !a.contains(':'),
    ensures
        cpu_model_spec(cpuinfo) == trim_seq(b),
{
    law_model_name_line(pre, a, b, post);
}

/// What follows `MemTotal` on the first `/proc/meminfo` line that starts with it.
pub open spec fn first_memtotal(lines: Seq<Seq<char>>) -> Option<Seq<char>>
    decreases lines.len(),
{
    if lines.len() == 0 {
        None
    } else if has_prefix(lines[0], "MemTotal"@) {
        Some(lines[0].skip(8))
    } else {
        first_memtotal(lines.drop_first())
    }
}

/// Total memory in MB that `/proc/meminfo` gives: its `MemTotal` value with
/// leading `:` and trailing `kB` removed and trimmed, read as kilobytes and
/// divided by 1024; 0 where there is no such line or the value does not read.
pub open spec fn memory_mb_spec(meminfo: Seq<char>) -> u64 {
    match first_memtotal(lines_of(trim_seq(meminfo))) {
        None => 0,
        Some(v) => match parse_unsigned(
            trim_seq(strip_trailing(trim_seq(strip_leading(v, ':')), "kB"@)),
            u64::MAX as nat,
        ) {
            Some(kb) => (kb / 1024) as u64,
            None => 0,
        },
    }
}

/// The views of a sequence of strings.
pub open spec fn string_views(s: Seq<String>) -> Seq<Seq<char>> {
    s.map_values(|n: String| n@)
}

/// The first network interface other than the loopback `lo`, or `e1000`.
pub open spec fn first_interface(names: Seq<Seq<char>>) -> Seq<char>
    decreases names.len(),
{
    if names.len() == 0 {
        "e1000"@
    } else if names[0] != "lo"@ {
        names[0]
    } else {
        first_interface(names.drop_first())
    }
}

/// The CPU model named in the text of `/proc/cpuinfo`.
pub fn cpu_model(cpuinfo: &str) -> (r: String)
    ensures
        r@ == cpu_model_spec(cpuinfo@),
{
    let t = trim(cpuinfo);
    let v = chars_of(t.as_str());
    let lines = line_bounds(&v);
    let pat = chars_of("model name");
    let mut k: usize = 0;
    assert(lines_of(v@).skip(0) =~= lines_of(v@));
    while k < lines.len()
        invariant
            v@ == trim_seq(cpuinfo@),
            pat@ == "model name"@,
            k <= lines.len(),
            lines@.len() == lines_of(v@).len(),
            forall|j: int|
                0 <= j < lines@.len() ==> {
                    &&& (#[trigger] lines@[j]).0 <= lines@[j].1 <= v.len()
                    &&& v@.subrange(lines@[j].0 as int, lines@[j].1 as int) == lines_of(v@)[j]
                },
            first_model_name(lines_of(v@)) == first_model_name(lines_of(v@).skip(k as int)),
        decreases lines.len() - k,
    {
        let (a, b) = lines[k];
        let ghost l = v@.subrange(a as int, b as int);
        assert(lines_of(v@).skip(k as int)[0] == l);
        assert(lines_of(v@).skip(k as int).drop_first() =~= lines_of(v@).skip(k + 1));
        let s = trim_start_bound(&v, a, b);
        let colon = find_char(&v, a, b, ':');
        if chars_match_range(&v, s, b, &pat) && colon < b {
            let (x, y) = trim_bounds(&v, colon + 1, b);
            assert(l.skip(colon - a + 1) =~= v@.subrange(colon + 1, b as int));
            return string_of(&v, x, y);
        }
        k = k + 1;
    }
    owned("Mandel CPU")
}

/// Total memory in MB named in the text of `/proc/meminfo`.
pub fn memory_mb(meminfo: &str) -> (r: u64)
    ensures
        r == memory_mb_spec(meminfo@),
{
    let t = trim(meminfo);
    let v = chars_of(t.as_str());
    let lines = line_bounds(&v);
    let pat = chars_of("MemTotal");
    let kb = chars_of("kB");
    let mut k: usize = 0;
    assert(lines_of(v@).skip(0) =~= lines_of(v@));
    while k < lines.len()
        invariant
            v@ == trim_seq(meminfo@),
            pat@ == "MemTotal"@,
            kb@ == "kB"@,
            k <= lines.len(),
            lines@.len() == lines_of(v@).len(),
            forall|j: int|
                0 <= j < lines@.len() ==> {
                    &&& (#[trigger] lines@[j]).0 <= lines@[j].1 <= v.len()
                    &&& v@.subrange(lines@[j].0 as int, lines@[j].1 as int) == lines_of(v@)[j]
                },
            first_memtotal(lines_of(v@)) == first_memtotal(lines_of(v@).skip(k as int)),
        decreases lines.len() - k,
    {
        let (a, b) = lines[k];
        let ghost l = v@.subrange(a as int, b as int);
        assert(lines_of(v@).skip(k as int)[0] == l);
        assert(lines_of(v@).skip(k as int).drop_first() =~= lines_of(v@).skip(k + 1));
        if chars_match_range(&v, a, b, &pat) {
            proof {
                reveal_strlit("MemTotal");
            }
            let ghost rest = l.skip(8);
            assert(rest =~= v@.subrange(a + 8, b as int));
            let c = strip_leading_start(&v, a + 8, b, ':');
            let (x, y) = trim_bounds(&v, c, b);
            let e = strip_trailing_end(&v, x, y, &kb);
            let (x2, y2) = trim_bounds(&v, x, e);
            return match parse_u64_chars(&v, x2, y2) {
                Some(n) => n / 1024,
                None => 0,
            };
        }
        k = k + 1;
    }
    0
}

/// The network interface to show, from the interface names found (`None`
/// where they could not be listed).
pub fn primary_network(names: Option<&Vec<String>>) -> (r: String)
    ensures
        names is None ==> r@ == "e1000"@,
        names matches Some(ns) ==> r@ == first_interface(string_views(ns@)),
{
    match names {
        None => owned("e1000"),
        Some(ns) => {
            let ghost views = string_views(ns@);
            let mut i: usize = 0;
            assert(views.skip(0) =~= views);
            while i < ns.len()
                invariant
                    i <= ns.len(),
                    names == Some(ns),
                    views == string_views(ns@),
                    first_interface(views) == first_interface(views.skip(i as int)),
                decreases ns.len() - i,
            {
                assert(views.skip(i as int)[0] == ns@[i as int]@);
                assert(views.skip(i as int).drop_first() =~= views.skip(i + 1));
                if !str_eq(ns[i].as_str(), "lo") {
                    assert(views.skip(i as int).len() > 0);
                    assert(views.skip(i as int)[0] != "lo"@);
                    assert(first_interface(views.skip(i as int)) == ns@[i as int]@);
                    return owned(ns[i].as_str());
                }
                i = i + 1;
            }
            assert(views.skip(i as int).len() == 0);
            owned("e1000")
        },
    }
}

/// The raw contents of the host files that hardware information is read
/// from (empty where a file could not be read), and the names of the
/// network interfaces (`None` where they could not be listed).
pub struct HostSources {
    pub bios_vendor: String,
    pub sys_vendor: String,
    pub product_name: String,
    pub board_serial: String,
    pub cpuinfo: String,
    pub meminfo: String,
    pub net_names: Option<Vec<String>>,
}

/// What `collect_impl` reads out of `src`.
pub open spec fn probed_spec(src: HostSources, h: HardwareInfo) -> bool {
    &&& h.bios_vendor@ == nonempty_spec(trim_seq(src.bios_vendor@), "HAAVK Group"@)
    &&& h.manufacturer@ == nonempty_spec(trim_seq(src.sys_vendor@), "HAAVK哈夫克集团"@)
    &&& h.product_name@ == nonempty_spec(trim_seq(src.product_name@), "HAAVK全域算力终端"@)
    &&& h.serial@ == nonempty_spec(trim_seq(src.board_serial@), "HAAVK-NODE-UNKNOWN"@)
    &&& h.cpu@ == cpu_model_spec(src.cpuinfo@)
    &&& h.memory_mb == memory_mb_spec(src.meminfo@)
    &&& h.network@ == match src.net_names {
        None => "e1000"@,
        Some(ns) => first_interface(string_views(ns@)),
    }
}

/// Hardware information read out of the host's files, blank name-plate
/// fields replaced by the HAAVK defaults.
pub fn collect_impl(src: &HostSources) -> (r: HardwareInfo)
    ensures
        probed_spec(*src, r),
{
    let bios = trim(src.bios_vendor.as_str());
    let vendor = trim(src.sys_vendor.as_str());
    let product = trim(src.product_name.as_str());
    let serial = trim(src.board_serial.as_str());
    HardwareInfo {
        bios_vendor: nonempty(bios.as_str(), "HAAVK Group"),
        manufacturer: nonempty(vendor.as_str(), "HAAVK哈夫克集团"),
        product_name: nonempty(product.as_str(), "HAAVK全域算力终端"),
        serial: nonempty(serial.as_str(), "HAAVK-NODE-UNKNOWN"),
        cpu: cpu_model(src.cpuinfo.as_str()),
        memory_mb: memory_mb(src.meminfo.as_str()),
        network: match &src.net_names {
            Some(ns) => primary_network(Some(ns)),
            None => primary_network(None),
        },
    }
}

/// What the Windows management queries answered, as printed (empty where a
/// query failed): vendor, product name, serial number, BIOS maker, CPU
/// name, total memory in bytes, and the network connection ids joined by
/// commas.
pub struct WindowsSources {
    pub vendor: String,
    pub product_name: String,
    pub serial: String,
    pub bios_vendor: String,
    pub cpu: String,
    pub total_memory: String,
    pub net_ids: String,
}

/// The first comma-separated piece of `s` that is not blank.
pub open spec fn first_nonblank_piece(s: Seq<char>) -> Option<Seq<char>>
    decreases s.len(),
{
    let i = idx_of(s, ',');
    if trim_seq(s.take(i as int)).len() > 0 {
        Some(s.take(i as int))
    } else if i < s.len() {
        first_nonblank_piece(s.skip(i as int + 1))
    } else {
        None
    }
}

/// What `collect_windows` reads out of the query answers (each trimmed):
/// blank name-plate fields replaced by the HAAVK defaults, the memory in
/// whole MB, the first connection id that is not blank (`e1000` if none).
pub open spec fn windows_probed_spec(src: WindowsSources, h: HardwareInfo) -> bool {
    &&& h.bios_vendor@ == nonempty_spec(trim_seq(src.bios_vendor@), "HAAVK Group"@)
    &&& h.manufacturer@ == nonempty_spec(trim_seq(src.vendor@), "HAAVK哈夫克集团"@)
    &&& h.product_name@ == nonempty_spec(trim_seq(src.product_name@), "HAAVK全域算力终端"@)
    &&& h.serial@ == nonempty_spec(trim_seq(src.serial@), "HAAVK-NODE-UNKNOWN"@)
    &&& h.cpu@ == nonempty_spec(trim_seq(src.cpu@), "Mandel CPU"@)
    &&& h.memory_mb == match parse_unsigned(trim_seq(src.total_memory@), u64::MAX as nat) {
        Some(b) => b / 1024 / 1024,
        None => 0,
    }
    &&& h.network@ == match first_nonblank_piece(trim_seq(src.net_ids@)) {
        Some(p) => p,
        None => "e1000"@,
    }
}

/// `h` is what `collect` gives: where the configuration reads DMI, `probed`
/// with the defaults applied (an unknown, zero, memory size becomes the
/// configured memory limit, an empty network name `e1000`); else no host
/// value is used: the unknown information, with the configured memory
/// limit as its memory size.
pub open spec fn collected(config: MandelConfig, probed: HardwareInfo, h: HardwareInfo) -> bool {
    if config.hardware.read_dmi {
        &&& h.bios_vendor == probed.bios_vendor
        &&& h.manufacturer == probed.manufacturer
        &&& h.product_name == probed.product_name
        &&& h.serial == probed.serial
        &&& h.cpu == probed.cpu
        &&& h.memory_mb == if probed.memory_mb == 0 {
            config.hardware.memory_limit_mb
        } else {
            probed.memory_mb
        }
        &&& h.network@ == if probed.network@.len() == 0 {
            "e1000"@
        } else {
            probed.network@
        }
    } else {
        &&& h.bios_vendor@ == "HAAVK Group"@
        &&& h.manufacturer@ == "HAAVK哈夫克集团"@
        &&& h.product_name@ == "HAAVK全域算力终端"@
        &&& h.serial@ == "HAAVK-NODE-UNKNOWN"@
        &&& h.cpu@ == "Mandel CPU (未知)"@
        &&& h.memory_mb == config.hardware.memory_limit_mb
        &&& h.network@ == "e1000 (未知)"@
    }
}

/// `h` is the information used where the host cannot be read.
pub open spec fn is_unknown(h: HardwareInfo) -> bool {
    &&& h.bios_vendor@ == "HAAVK Group"@
    &&& h.manufacturer@ == "HAAVK哈夫克集团"@
    &&& h.product_name@ == "HAAVK全域算力终端"@
    &&& h.serial@ == "HAAVK-NODE-UNKNOWN"@
    &&& h.cpu@ == "Mandel CPU (未知)"@
    &&& h.memory_mb == 0
    &&& h.network@ == "e1000 (未知)"@
}

/// `h` is the hardware information chosen at boot: read out of the host
/// files where the configuration asks for them (`host` holds them then),
/// else the unknown information.
pub open spec fn hardware_chosen(config: MandelConfig, host: Option<HostSources>, h: HardwareInfo) -> bool {
    if config.hardware.read_dmi && host is Some {
        exists|p: HardwareInfo| #[trigger] probed_spec(host->0, p) && collected(config, p, h)
    } else {
        is_unknown(h)
    }
}

/// The hardware information to use, under the `read_dmi` switch: where it
/// is on, what was probed; where it is off, the unknown information. Then an
/// unknown (zero) memory size becomes the configured memory limit, and an
/// empty network name becomes `e1000`.
pub fn collect(config: &MandelConfig, probed: HardwareInfo) -> (r: HardwareInfo)
    ensures
        collected(*config, probed, r),
{
    proof {
        reveal_strlit("e1000 (未知)");
    }
    let mut info = if config.hardware.read_dmi {
        probed
    } else {
        HardwareInfo::unknown()
    };
    if info.memory_mb == 0 {
        info.memory_mb = config.hardware.memory_limit_mb;
    }
    if info.network.as_str().is_empty() {
        info.network = owned("e1000");
    }
    info
}

impl HardwareInfo {
    /// The information used where the host cannot be read.
    pub fn unknown() -> (r: Self)
        ensures
            is_unknown(r),
    {
        HardwareInfo {
            bios_vendor: owned("HAAVK Group"),
            manufacturer: owned("HAAVK哈夫克集团"),
            product_name: owned("HAAVK全域算力终端"),
            serial: owned("HAAVK-NODE-UNKNOWN"),
            cpu: owned("Mandel CPU (未知)"),
            memory_mb: 0,
            network: owned("e1000 (未知)"),
        }
    }

    /// A one-line summary: product, CPU, memory, network card, serial.
    pub fn summary(&self) -> (r: String)
        ensures
            r@ == self.product_name@ + " | CPU: "@ + self.cpu@ + " | RAM: "@ + decimal(self.memory_mb as nat)
                + " MB | 网卡: "@ + self.network@ + " | SN: "@ + self.serial@,
    {
        let mut r = owned(self.product_name.as_str());
        push_str(&mut r, " | CPU: ");
        push_str(&mut r, self.cpu.as_str());
        push_str(&mut r, " | RAM: ");
        push_decimal(&mut r, self.memory_mb);
        push_str(&mut r, " MB | 网卡: ");
        push_str(&mut r, self.network.as_str());
        push_str(&mut r, " | SN: ");
        push_str(&mut r, self.serial.as_str());
        r
    }
}

/// The hardware information to use at boot: read out of the host files
/// where the configuration asks for them, else the unknown information.
pub fn hardware_for(config: &MandelConfig, host: Option<&HostSources>) -> (r: HardwareInfo)
    ensures
        hardware_chosen(
            *config,
            match host {
                Some(s) => Some(*s),
                None => None,
            },
            r,
        ),
{
    if config.hardware.read_dmi {
        match host {
            Some(s) => {
                let p = collect_impl(s);
                let ghost pg = p;
                let ghost hs: Option<HostSources> = Some(*s);
                let r = collect(config, p);
                assert(probed_spec(hs->0, pg) && collected(*config, pg, r));
                r
            },
            None => HardwareInfo::unknown(),
        }
    } else {
        HardwareInfo::unknown()
    }
}

/// The first comma-separated piece of `v[from..]` that is not blank.
fn first_nonblank_piece_of(v: &Vec<char>) -> (r: Option<String>)
    ensures
        match first_nonblank_piece(v@) {
            Some(p) => r matches Some(s) && s@ == p,
            None => r is None,
        },
{
    let mut pos: usize = 0;
    assert(v@.skip(0) =~= v@);
    loop
        invariant
            pos <= v.len(),
            first_nonblank_piece(v@) == first_nonblank_piece(v@.skip(pos as int)),
        decreases v.len() - pos,
    {
        let ghost rest = v@.skip(pos as int);
        let i = find_char(v, pos, v.len(), ',');
        assert(rest =~= v@.subrange(pos as int, v.len() as int));
        assert(rest.take(i - pos) =~= v@.subrange(pos as int, i as int));
        let (a, b) = trim_bounds(v, pos, i);
        if a < b {
            return Some(string_of(v, pos, i));
        }
        if i == v.len() {
            return None;
        }
        assert(rest.skip(i - pos + 1) =~= v@.skip(i + 1));
        pos = i + 1;
    }
}

/// Hardware information read out of the answers of the Windows management
/// queries.
pub fn collect_windows(src: &WindowsSources) -> (r: HardwareInfo)
    ensures
        windows_probed_spec(*src, r),
{
    let bios = trim(src.bios_vendor.as_str());
    let vendor = trim(src.vendor.as_str());
    let product = trim(src.product_name.as_str());
    let serial = trim(src.serial.as_str());
    let cpu = trim(src.cpu.as_str());
    let mem = trim(src.total_memory.as_str());
    let mv = chars_of(mem.as_str());
    assert(mv@.subrange(0, mv.len() as int) =~= mv@);
    let memory_mb = match parse_u64_chars(&mv, 0, mv.len()) {
        Some(b) => b / 1024 / 1024,
        None => 0,
    };
    let ids = trim(src.net_ids.as_str());
    let iv = chars_of(ids.as_str());
    let network = match first_nonblank_piece_of(&iv) {
        Some(p) => p,
        None => owned("e1000"),
    };
    HardwareInfo {
        bios_vendor: nonempty(bios.as_str(), "HAAVK Group"),
        manufacturer: nonempty(vendor.as_str(), "HAAVK哈夫克集团"),
        product_name: nonempty(product.as_str(), "HAAVK全域算力终端"),
        serial: nonempty(serial.as_str(), "HAAVK-NODE-UNKNOWN"),
        cpu: nonempty(cpu.as_str(), "Mandel CPU"),
        memory_mb,
        network,
    }
}

} // verus!

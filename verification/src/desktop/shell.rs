//! The Mandel Shell: the terminal's state and what each command does.
use vstd::prelude::*;

use crate::apps::{AppRegistry, InstalledApp};
use crate::disk::DiskImage;
use crate::relink::{peer_view, PeerNode};
use crate::text::{
    chars_of, concat2, concat3, decimal, find_char, from_utf8_lossy, idx_of, join_seq,
    join_strings, line_bounds, lines_of, owned, push_decimal, push_str, split_words, str_eq,
    string_of, trim, trim_prefix_all, trim_seq, trim_start_matches, utf8_lossy, words,
};
use crate::vfs::{resolve_spec, Vfs};

verus! {

/// The state of one terminal window.
#[derive(Debug)]
pub struct TerminalState {
    pub input: String,
    pub history: Vec<String>,
    pub cwd: String,
    pub output: Vec<String>,
}

/// The value of a terminal state: input, history, working path, output lines.
pub struct TerminalView {
    pub input: Seq<char>,
    pub history: Seq<Seq<char>>,
    pub cwd: Seq<char>,
    pub output: Seq<Seq<char>>,
}

impl TerminalState {
    /// The value of the state.
    pub open spec fn view(&self) -> TerminalView {
        TerminalView {
            input: self.input@,
            history: self.history@.map_values(|h: String| h@),
            cwd: self.cwd@,
            output: self.output@.map_values(|h: String| h@),
        }
    }
}

/// The state a new terminal starts in.
pub open spec fn terminal_start() -> TerminalView {
    TerminalView {
        input: seq![],
        history: seq![],
        cwd: "haavk://home"@,
        output: seq!["HAAVK Mandel Shell v0.1"@, "输入 help 查看可用命令"@],
    }
}

impl Default for TerminalState {
    fn default() -> (r: Self)
        ensures
            r@ == terminal_start(),
    {
        let mut output: Vec<String> = Vec::new();
        output.push(owned("HAAVK Mandel Shell v0.1"));
        output.push(owned("输入 help 查看可用命令"));
        let r = TerminalState { input: String::new(), history: Vec::new(), cwd: owned("haavk://home"), output };
        assert(r@.history =~= Seq::<Seq<char>>::empty());
        assert(r@.output =~= seq!["HAAVK Mandel Shell v0.1"@, "输入 help 查看可用命令"@]);
        r
    }
}

/// A peer as the shell sees it: id, address, product, version, last seen.
pub type PeerTuple = (Seq<char>, Seq<char>, Seq<char>, Seq<char>, u64);

/// What a command asks of the outside world once its own lines are printed.
#[derive(Debug)]
pub enum ShellRequest {
    /// Nothing more to do.
    NoRequest,
    /// Print the local date and time.
    Date,
    /// List the host directory `host`, which the virtual path `path` names.
    ListDir { path: String, host: String },
    /// Try a TCP connection to port 80 of `host`.
    Ping { host: String },
    /// Fetch `/` over HTTP from port 80 of `addr`.
    Curl { addr: String },
}

/// The value of a request.
pub enum RequestView {
    NoRequest,
    Date,
    ListDir(Seq<char>, Seq<char>),
    Ping(Seq<char>),
    Curl(Seq<char>),
}

impl ShellRequest {
    /// The value of the request.
    pub open spec fn view(&self) -> RequestView {
        match self {
            ShellRequest::NoRequest => RequestView::NoRequest,
            ShellRequest::Date => RequestView::Date,
            ShellRequest::ListDir { path, host } => RequestView::ListDir(path@, host@),
            ShellRequest::Ping { host } => RequestView::Ping(host@),
            ShellRequest::Curl { addr } => RequestView::Curl(addr@),
        }
    }
}

/// The lines that `help` prints.
pub open spec fn help_lines() -> Seq<Seq<char>> {
    seq![
        "HAAVK Mandel Shell 可用命令："@,
        "  help          显示本帮助"@,
        "  pwd           显示当前路径"@,
        "  ls [路径]     列出目录内容"@,
        "  cd <路径>     切换目录"@,
        "  nodes         列出 Relink 同频节点"@,
        "  apps          列出已安装 .hvk 应用"@,
        "  disk          显示 .mandel 虚拟磁盘用量"@,
        "  ping <主机>   测试网络连通性"@,
        "  curl <URL>    获取网页内容（前 500 字节）"@,
        "  echo <文本>   输出文本"@,
        "  whoami        显示当前用户"@,
        "  uname         显示系统名"@,
        "  date          显示当前时间"@,
        "  clear         清空终端"@,
    ]
}

/// The command word: the first word, or nothing.
pub open spec fn head_word(ws: Seq<Seq<char>>) -> Seq<char> {
    if ws.len() > 0 {
        ws[0]
    } else {
        seq![]
    }
}

/// The first argument, or `d` when there is none.
pub open spec fn arg_or(ws: Seq<Seq<char>>, d: Seq<char>) -> Seq<char> {
    if ws.len() > 1 {
        ws[1]
    } else {
        d
    }
}

/// The line `nodes` prints for a peer.
pub open spec fn peer_line(p: PeerTuple) -> Seq<char> {
    "  "@ + p.0 + " @ "@ + p.1 + " v"@ + p.3
}

/// The line `apps` prints for an application.
pub open spec fn app_line(a: InstalledApp) -> Seq<char> {
    "  "@ + a.manifest.name@ + " ["@ + a.manifest.kind@ + "] v"@ + a.manifest.version@
}

/// The used and total size of a disk image in MB, if one is loaded.
pub open spec fn disk_sizes(disk: Option<&DiskImage>) -> Option<(nat, nat)> {
    match disk {
        Some(d) => Some(
            (
                (d.superblock.used_blocks * 4096 / 1048576) as nat,
                (d.superblock.total_blocks * 4096 / 1048576) as nat,
            ),
        ),
        None => None,
    }
}

/// The line `disk` prints.
pub open spec fn disk_line(sizes: Option<(nat, nat)>) -> Seq<char> {
    match sizes {
        Some((used, total)) => "曼德尔虚拟磁盘："@ + decimal(used) + " MB / 总 "@ + decimal(total) + " MB"@,
        None => "虚拟磁盘未加载"@,
    }
}

/// The host that `curl` connects to for `url`: the scheme prefixes dropped,
/// and everything from the first `/` on.
pub open spec fn curl_addr(url: Seq<char>) -> Seq<char> {
    let t = trim_prefix_all(trim_prefix_all(url, "https://"@), "http://"@);
    t.take(idx_of(t, '/') as int)
}

/// What a command (split into words) does to the working path and the
/// output, and what it then asks for.
pub open spec fn shell_effect(
    cwd: Seq<char>,
    out: Seq<Seq<char>>,
    ws: Seq<Seq<char>>,
    prefix: Seq<char>,
    mounts: Seq<(Seq<char>, Seq<char>)>,
    apps: Seq<InstalledApp>,
    peers: Seq<PeerTuple>,
    disk: Option<(nat, nat)>,
) -> (Seq<char>, Seq<Seq<char>>, RequestView) {
    let h = head_word(ws);
    if h == "help"@ {
        (cwd, out + help_lines(), RequestView::NoRequest)
    } else if h == "pwd"@ {
        (cwd, out.push(cwd), RequestView::NoRequest)
    } else if h == "echo"@ {
        (cwd, out.push(join_seq(ws.skip(1), " "@)), RequestView::NoRequest)
    } else if h == "whoami"@ {
        (cwd, out.push("haavk"@), RequestView::NoRequest)
    } else if h == "uname"@ {
        (cwd, out.push("HAAVK-Mandel-Core 0.9 (userland microkernel)"@), RequestView::NoRequest)
    } else if h == "date"@ {
        (cwd, out, RequestView::Date)
    } else if h == "ls"@ {
        let p = arg_or(ws, cwd);
        match resolve_spec(prefix, mounts, p) {
            Some(host) => (cwd, out, RequestView::ListDir(p, host)),
            None => (cwd, out.push("ls: 未挂载路径 "@ + p), RequestView::NoRequest),
        }
    } else if h == "cd"@ {
        (arg_or(ws, cwd), out, RequestView::NoRequest)
    } else if h == "nodes"@ {
        if peers.len() == 0 {
            (cwd, out.push("（暂无在线节点）"@), RequestView::NoRequest)
        } else {
            (cwd, out + peers.map_values(|p: PeerTuple| peer_line(p)), RequestView::NoRequest)
        }
    } else if h == "apps"@ {
        (
            cwd,
            out.push("已安装应用（"@ + decimal(apps.len()) + " 个）："@) + apps.map_values(
                |a: InstalledApp| app_line(a),
            ),
            RequestView::NoRequest,
        )
    } else if h == "disk"@ {
        (cwd, out.push(disk_line(disk)), RequestView::NoRequest)
    } else if h == "clear"@ {
        (cwd, seq![], RequestView::NoRequest)
    } else if h == "ping"@ {
        let host = arg_or(ws, "8.8.8.8"@);
        (cwd, out.push("ping "@ + host + " ..."@), RequestView::Ping(host))
    } else if h == "curl"@ {
        let url = arg_or(ws, "https://example.com"@);
        (cwd, out.push("curl "@ + url + " ..."@), RequestView::Curl(curl_addr(url)))
    } else {
        (cwd, out.push("mandel: 未找到命令："@ + h + "（输入 help 查看）"@), RequestView::NoRequest)
    }
}

/// What running `cmd` does to a terminal, and what it then asks for: an
/// empty command does nothing; any other is added to the history and
/// then has its effect.
pub open spec fn shell_step(
    t: TerminalView,
    cmd: Seq<char>,
    prefix: Seq<char>,
    mounts: Seq<(Seq<char>, Seq<char>)>,
    apps: Seq<InstalledApp>,
    peers: Seq<PeerTuple>,
    disk: Option<(nat, nat)>,
) -> (TerminalView, RequestView) {
    if cmd.len() == 0 {
        (t, RequestView::NoRequest)
    } else {
        let e = shell_effect(t.cwd, t.output, words(cmd), prefix, mounts, apps, peers, disk);
        (TerminalView { input: t.input, history: t.history.push(cmd), cwd: e.0, output: e.1 }, e.2)
    }
}

/// `ping` connects to the host it is given: for a command whose words are
/// `ping`, `h` and possibly more, the terminal prints `ping h ...` and asks
/// for a connection to `h`; only `ping` alone tries `8.8.8.8`. The working
/// path stays, and the command joins the history.
pub proof fn law_ping_host(
    t: TerminalView,
    cmd: Seq<char>,
    prefix: Seq<char>,
    mounts: Seq<(Seq<char>, Seq<char>)>,
    apps: Seq<InstalledApp>,
    peers: Seq<PeerTuple>,
    disk: Option<(nat, nat)>,
)
    requires
        words(cmd).len() >= 1,
        words(cmd)[0] == "ping"@,
    ensures
        ({
            let (t2, req) = shell_step(t, cmd, prefix, mounts, apps, peers, disk);
            let h = if words(cmd).len() >= 2 {
                words(cmd)[1]
            } else {
                "8.8.8.8"@
            };
            &&& req == RequestView::Ping(h)
            &&& t2.output == t.output.push("ping "@ + h + " ..."@)
            &&& t2.cwd == t.cwd
            &&& t2.history == t.history.push(cmd)
        }),
{
    lemma_ping_not_other();
    assert(cmd.len() > 0);
}

/// `ping` is none of the other commands.
proof fn lemma_ping_not_other()
    ensures
        "ping"@ != "help"@,
        "ping"@ != "pwd"@,
        "ping"@ != "echo"@,
        "ping"@ != "whoami"@,
        "ping"@ != "uname"@,
        "ping"@ != "date"@,
        "ping"@ != "ls"@,
        "ping"@ != "cd"@,
        "ping"@ != "nodes"@,
        "ping"@ != "apps"@,
        "ping"@ != "disk"@,
        "ping"@ != "clear"@,
{
    reveal_strlit("ping");
    reveal_strlit("help");
    reveal_strlit("pwd");
    reveal_strlit("echo");
    reveal_strlit("whoami");
    reveal_strlit("uname");
    reveal_strlit("date");
    reveal_strlit("ls");
    reveal_strlit("cd");
    reveal_strlit("nodes");
    reveal_strlit("apps");
    reveal_strlit("disk");
    reveal_strlit("clear");
    assert("ping"@[0] == 'p' && "ping"@[1] == 'i');
    assert("pwd"@[1] == 'w');
}

/// The disk sizes in bytes fit in a `u64` where the `disk` command needs them.
pub open spec fn disk_fits(cmd: Seq<char>, disk: Option<&DiskImage>) -> bool {
    head_word(words(cmd)) == "disk"@ ==> match disk {
        Some(d) => d.superblock.used_blocks * 4096 <= u64::MAX && d.superblock.total_blocks * 4096
            <= u64::MAX,
        None => true,
    }
}

impl TerminalState {
    /// Adds a line to the output.
    pub fn say(&mut self, line: String)
        ensures
            final(self)@ == (TerminalView { output: old(self)@.output.push(line@), ..old(self)@ }),
    {
        self.output.push(line);
        assert(self@.output =~= old(self)@.output.push(line@));
    }

    /// Adds a copy of `line` to the output.
    pub fn print(&mut self, line: &str)
        ensures
            final(self)@ == (TerminalView { output: old(self)@.output.push(line@), ..old(self)@ }),
    {
        self.say(owned(line));
    }

    fn say_help(&mut self)
        ensures
            final(self)@ == (TerminalView { output: old(self)@.output + help_lines(), ..old(self)@ }),
    {
        self.print("HAAVK Mandel Shell 可用命令：");
        self.print("  help          显示本帮助");
        self.print("  pwd           显示当前路径");
        self.print("  ls [路径]     列出目录内容");
        self.print("  cd <路径>     切换目录");
        self.print("  nodes         列出 Relink 同频节点");
        self.print("  apps          列出已安装 .hvk 应用");
        self.print("  disk          显示 .mandel 虚拟磁盘用量");
        self.print("  ping <主机>   测试网络连通性");
        self.print("  curl <URL>    获取网页内容（前 500 字节）");
        self.print("  echo <文本>   输出文本");
        self.print("  whoami        显示当前用户");
        self.print("  uname         显示系统名");
        self.print("  date          显示当前时间");
        self.print("  clear         清空终端");
        assert(self@.output =~= old(self)@.output + help_lines());
    }

    fn say_peers(&mut self, peers: &[PeerNode])
        ensures
            final(self)@ == (TerminalView {
                output: old(self)@.output + peers@.map_values(|p: PeerNode| peer_view(p)).map_values(
                    |p: PeerTuple| peer_line(p),
                ),
                ..old(self)@
            }),
    {
        let ghost pv = peers@.map_values(|p: PeerNode| peer_view(p));
        let ghost lines = pv.map_values(|p: PeerTuple| peer_line(p));
        let mut i: usize = 0;
        while i < peers.len()
            invariant
                i <= peers.len(),
                pv == peers@.map_values(|p: PeerNode| peer_view(p)),
                lines == pv.map_values(|p: PeerTuple| peer_line(p)),
                self@ == (TerminalView { output: old(self)@.output + lines.take(i as int), ..old(self)@ }),
            decreases peers.len() - i,
        {
            let p = &peers[i];
            let mut l = owned("  ");
            push_str(&mut l, p.id.as_str());
            push_str(&mut l, " @ ");
            push_str(&mut l, p.addr.as_str());
            push_str(&mut l, " v");
            push_str(&mut l, p.version.as_str());
            assert(l@ == lines[i as int]);
            self.say(l);
            assert(old(self)@.output + lines.take(i as int + 1) =~= (old(self)@.output + lines.take(
                i as int,
            )).push(lines[i as int]));
            i = i + 1;
        }
        assert(lines.take(i as int) =~= lines);
    }

    fn say_apps(&mut self, apps: &AppRegistry)
        ensures
            final(self)@ == (TerminalView {
                output: old(self)@.output.push("已安装应用（"@ + decimal(apps.entries().len()) + " 个）："@)
                    + apps.entries().map_values(|a: InstalledApp| app_line(a)),
                ..old(self)@
            }),
    {
        let n = apps.count();
        let mut head = owned("已安装应用（");
        push_decimal(&mut head, n as u64);
        push_str(&mut head, " 个）：");
        self.say(head);
        let ghost start = self@.output;
        let all = apps.all();
        let ghost lines = apps.entries().map_values(|a: InstalledApp| app_line(a));
        let mut i: usize = 0;
        while i < all.len()
            invariant
                i <= all.len(),
                all@ == apps.entries(),
                lines == apps.entries().map_values(|a: InstalledApp| app_line(a)),
                self@ == (TerminalView { output: start + lines.take(i as int), ..old(self)@ }),
            decreases all.len() - i,
        {
            let a = &all[i];
            let mut l = owned("  ");
            push_str(&mut l, a.manifest.name.as_str());
            push_str(&mut l, " [");
            push_str(&mut l, a.manifest.kind.as_str());
            push_str(&mut l, "] v");
            push_str(&mut l, a.manifest.version.as_str());
            assert(l@ == lines[i as int]);
            self.say(l);
            assert(start + lines.take(i as int + 1) =~= (start + lines.take(i as int)).push(
                lines[i as int],
            ));
            i = i + 1;
        }
        assert(lines.take(i as int) =~= lines);
    }

    fn say_disk(&mut self, disk: Option<&DiskImage>)
        requires
            match disk {
                Some(d) => d.superblock.used_blocks * 4096 <= u64::MAX && d.superblock.total_blocks
                    * 4096 <= u64::MAX,
                None => true,
            },
        ensures
            final(self)@ == (TerminalView {
                output: old(self)@.output.push(disk_line(disk_sizes(disk))),
                ..old(self)@
            }),
    {
        match disk {
            Some(d) => {
                let mut l = owned("曼德尔虚拟磁盘：");
                push_decimal(&mut l, d.used_mb());
                push_str(&mut l, " MB / 总 ");
                push_decimal(&mut l, d.capacity_mb());
                push_str(&mut l, " MB");
                self.say(l);
            },
            None => self.print("虚拟磁盘未加载"),
        }
    }
}

/// The host `curl` connects to for `url`.
pub fn curl_host(url: &str) -> (r: String)
    ensures
        r@ == curl_addr(url@),
{
    proof {
        reveal_strlit("https://");
        reveal_strlit("http://");
    }
    let a = trim_start_matches(url, "https://");
    let b = trim_start_matches(a.as_str(), "http://");
    let v = chars_of(b.as_str());
    let i = find_char(&v, 0, v.len(), '/');
    assert(v@.subrange(0, v.len() as int) =~= v@);
    assert(v@.subrange(0, i as int) =~= v@.take(i as int));
    string_of(&v, 0, i)
}

/// Runs one shell command: records it in the history, prints what it
/// prints, and returns what it asks of the outside world (a date, a
/// directory listing, a connection).
pub fn run_shell_cmd(
    state: &mut TerminalState,
    cmd: &str,
    vfs: &Vfs,
    apps: &AppRegistry,
    peers: &[PeerNode],
    disk: Option<&DiskImage>,
) -> (r: ShellRequest)
    requires
        disk_fits(cmd@, disk),
    ensures
        (final(state)@, r@) == shell_step(
            old(state)@,
            cmd@,
            vfs.prefix(),
            vfs.table(),
            apps.entries(),
            peers@.map_values(|p: PeerNode| peer_view(p)),
            disk_sizes(disk),
        ),
{
    if cmd.is_empty() {
        return ShellRequest::NoRequest;
    }
    state.history.push(owned(cmd));
    assert(state@.history =~= old(state)@.history.push(cmd@));
    let ws = split_words(cmd);
    let ghost wsv = ws@.map_values(|w: String| w@);
    let head: &str = if ws.len() > 0 {
        ws[0].as_str()
    } else {
        ""
    };
    proof {
        reveal_strlit("");
    }
    assert(head@ == head_word(wsv));
    if str_eq(head, "help") {
        state.say_help();
        ShellRequest::NoRequest
    } else if str_eq(head, "pwd") {
        let c = owned(state.cwd.as_str());
        state.say(c);
        ShellRequest::NoRequest
    } else if str_eq(head, "echo") {
        proof {
            reveal_strlit("echo");
        }
        let mut rest: Vec<String> = Vec::new();
        let mut k: usize = 1;
        assert(rest@.map_values(|w: String| w@) =~= wsv.subrange(1, 1));
        while k < ws.len()
            invariant
                1 <= k <= ws.len(),
                wsv == ws@.map_values(|w: String| w@),
                rest@.map_values(|w: String| w@) == wsv.subrange(1, k as int),
            decreases ws.len() - k,
        {
            let ghost prev = rest@;
            rest.push(owned(ws[k].as_str()));
            assert(wsv[k as int] == ws@[k as int]@);
            assert(rest@.map_values(|w: String| w@) =~= prev.map_values(|w: String| w@).push(wsv[k as int]));
            assert(wsv.subrange(1, k as int + 1) =~= wsv.subrange(1, k as int).push(wsv[k as int]));
            assert(rest@.map_values(|w: String| w@) =~= wsv.subrange(1, k as int + 1));
            k = k + 1;
        }
        assert(wsv.subrange(1, k as int) =~= wsv.skip(1));
        state.say(join_strings(&rest, " "));
        ShellRequest::NoRequest
    } else if str_eq(head, "whoami") {
        state.print("haavk");
        ShellRequest::NoRequest
    } else if str_eq(head, "uname") {
        state.print("HAAVK-Mandel-Core 0.9 (userland microkernel)");
        ShellRequest::NoRequest
    } else if str_eq(head, "date") {
        ShellRequest::Date
    } else if str_eq(head, "ls") {
        let path = if ws.len() > 1 {
            owned(ws[1].as_str())
        } else {
            owned(state.cwd.as_str())
        };
        match vfs.resolve(path.as_str()) {
            Some(host) => ShellRequest::ListDir { path, host },
            None => {
                state.say(concat2("ls: 未挂载路径 ", path.as_str()));
                ShellRequest::NoRequest
            },
        }
    } else if str_eq(head, "cd") {
        if ws.len() > 1 {
            state.cwd = owned(ws[1].as_str());
        }
        ShellRequest::NoRequest
    } else if str_eq(head, "nodes") {
        if peers.len() == 0 {
            state.print("（暂无在线节点）");
        } else {
            state.say_peers(peers);
        }
        ShellRequest::NoRequest
    } else if str_eq(head, "apps") {
        state.say_apps(apps);
        ShellRequest::NoRequest
    } else if str_eq(head, "disk") {
        state.say_disk(disk);
        ShellRequest::NoRequest
    } else if str_eq(head, "clear") {
        state.output.clear();
        assert(state@.output =~= Seq::<Seq<char>>::empty());
        ShellRequest::NoRequest
    } else if str_eq(head, "ping") {
        let host = if ws.len() > 1 {
            owned(ws[1].as_str())
        } else {
            owned("8.8.8.8")
        };
        state.say(concat3("ping ", host.as_str(), " ..."));
        ShellRequest::Ping { host }
    } else if str_eq(head, "curl") {
        let url = if ws.len() > 1 {
            owned(ws[1].as_str())
        } else {
            owned("https://example.com")
        };
        state.say(concat3("curl ", url.as_str(), " ..."));
        ShellRequest::Curl { addr: curl_host(url.as_str()) }
    } else {
        state.say(concat3("mandel: 未找到命令：", head, "（输入 help 查看）"));
        ShellRequest::NoRequest
    }
}

/// The line `ls` prints once the directory has been read: the entry names
/// joined by two spaces, or why it could not be read.
pub open spec fn ls_line(path: Seq<char>, listing: Result<Seq<Seq<char>>, Seq<char>>) -> Seq<char> {
    match listing {
        Ok(names) => join_seq(names, "  "@),
        Err(e) => "ls: 无法访问 "@ + path + ": "@ + e,
    }
}

/// The line `ping` prints once the connection has been tried: the time it
/// took in milliseconds, or why it failed.
pub open spec fn ping_line(outcome: Result<u64, Seq<char>>) -> Seq<char> {
    match outcome {
        Ok(ms) => "  连接成功，耗时 "@ + decimal(ms as nat) + " ms"@,
        Err(e) => "  连接失败: "@ + e,
    }
}

/// The number of reply lines that `curl` shows.
pub open spec fn curl_shown(n: nat) -> nat {
    if n < 8 {
        n
    } else {
        8
    }
}

/// The lines `curl` prints once the request has been made: why it failed;
/// nothing when no reply could be read; else the size of the reply and its
/// first eight lines, indented.
pub open spec fn curl_lines(outcome: Result<Option<Seq<u8>>, Seq<char>>) -> Seq<Seq<char>> {
    match outcome {
        Err(e) => seq!["  curl 失败: "@ + e],
        Ok(None) => seq![],
        Ok(Some(b)) => {
            let ls = lines_of(utf8_lossy(b));
            seq!["  收到 "@ + decimal(b.len()) + " 字节："@] + ls.take(curl_shown(ls.len()) as int).map_values(
                |l: Seq<char>| "    "@ + l,
            )
        },
    }
}

impl TerminalState {
    /// Prints the result of an `ls` that asked to list the directory `path`.
    pub fn finish_ls(&mut self, path: &str, listing: Result<Vec<String>, String>)
        ensures
            final(self)@ == (TerminalView {
                output: old(self)@.output.push(
                    ls_line(
                        path@,
                        match listing {
                            Ok(names) => Ok(names@.map_values(|n: String| n@)),
                            Err(e) => Err(e@),
                        },
                    ),
                ),
                ..old(self)@
            }),
    {
        match listing {
            Ok(names) => self.say(join_strings(&names, "  ")),
            Err(e) => {
                let mut l = concat2("ls: 无法访问 ", path);
                push_str(&mut l, ": ");
                push_str(&mut l, e.as_str());
                self.say(l);
            },
        }
    }

    /// Prints the result of a `ping`: the milliseconds the connection took,
    /// or why it failed.
    pub fn finish_ping(&mut self, outcome: Result<u64, String>)
        ensures
            final(self)@ == (TerminalView {
                output: old(self)@.output.push(
                    ping_line(
                        match outcome {
                            Ok(ms) => Ok(ms),
                            Err(e) => Err(e@),
                        },
                    ),
                ),
                ..old(self)@
            }),
    {
        match outcome {
            Ok(ms) => {
                let mut l = owned("  连接成功，耗时 ");
                push_decimal(&mut l, ms);
                push_str(&mut l, " ms");
                self.say(l);
            },
            Err(e) => self.say(concat2("  连接失败: ", e.as_str())),
        }
    }

    /// Prints the result of a `curl`: the bytes of the reply, if one was
    /// read, or why the connection failed.
    pub fn finish_curl(&mut self, outcome: Result<Option<Vec<u8>>, String>)
        ensures
            final(self)@ == (TerminalView {
                output: old(self)@.output + curl_lines(
                    match outcome {
                        Ok(Some(b)) => Ok(Some(b@)),
                        Ok(None) => Ok(None),
                        Err(e) => Err(e@),
                    },
                ),
                ..old(self)@
            }),
    {
        match outcome {
            Err(e) => {
                self.say(concat2("  curl 失败: ", e.as_str()));
                assert(self@.output =~= old(self)@.output + seq!["  curl 失败: "@ + e@]);
            },
            Ok(None) => {
                assert(self@.output =~= old(self)@.output + Seq::<Seq<char>>::empty());
            },
            Ok(Some(b)) => {
                let mut head = owned("  收到 ");
                push_decimal(&mut head, b.len() as u64);
                push_str(&mut head, " 字节：");
                self.say(head);
                let ghost start = self@.output;
                let text = from_utf8_lossy(b.as_slice());
                let v = chars_of(text.as_str());
                let bounds = line_bounds(&v);
                let ghost ls = lines_of(utf8_lossy(b@));
                let ghost shown = ls.take(curl_shown(ls.len()) as int).map_values(|l: Seq<char>| "    "@ + l);
                let n: usize = if bounds.len() < 8 {
                    bounds.len()
                } else {
                    8
                };
                let mut k: usize = 0;
                while k < n
                    invariant
                        k <= n,
                        n == curl_shown(ls.len()),
                        n <= bounds.len(),
                        v@ == utf8_lossy(b@),
                        ls == lines_of(v@),
                        bounds@.len() == ls.len(),
                        forall|j: int|
                            0 <= j < bounds@.len() ==> {
                                &&& (#[trigger] bounds@[j]).0 <= bounds@[j].1 <= v.len()
                                &&& v@.subrange(bounds@[j].0 as int, bounds@[j].1 as int) == ls[j]
                            },
                        shown == ls.take(n as int).map_values(|l: Seq<char>| "    "@ + l),
                        self@ == (TerminalView { output: start + shown.take(k as int), ..old(self)@ }),
                    decreases n - k,
                {
                    let (a, e) = bounds[k];
                    let mut l = owned("    ");
                    let piece = string_of(&v, a, e);
                    push_str(&mut l, piece.as_str());
                    assert(l@ == shown[k as int]);
                    self.say(l);
                    assert(start + shown.take(k as int + 1) =~= (start + shown.take(k as int)).push(
                        shown[k as int],
                    ));
                    k = k + 1;
                }
                assert(shown.take(k as int) =~= shown);
                assert(self@.output =~= old(self)@.output + curl_lines(Ok(Some(b@))));
            },
        }
    }
}

/// Enter in the terminal's input line: the input, trimmed, is run as a
/// command, and the input line is cleared.
pub fn submit_input(
    state: &mut TerminalState,
    vfs: &Vfs,
    apps: &AppRegistry,
    peers: &[PeerNode],
    disk: Option<&DiskImage>,
) -> (r: ShellRequest)
    requires
        disk_fits(trim_seq(old(state).input@), disk),
    ensures
        (final(state)@, r@) == shell_step(
            TerminalView { input: seq![], ..old(state)@ },
            trim_seq(old(state).input@),
            vfs.prefix(),
            vfs.table(),
            apps.entries(),
            peers@.map_values(|p: PeerNode| peer_view(p)),
            disk_sizes(disk),
        ),
{
    let cmd = trim(state.input.as_str());
    state.input = String::new();
    assert(state@ == (TerminalView { input: seq![], ..old(state)@ }));
    run_shell_cmd(state, cmd.as_str(), vfs, apps, peers, disk)
}

} // verus!

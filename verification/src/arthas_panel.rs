//! Diagnosing a running Java process with Arthas: building commands and showing their output.
use vstd::prelude::*;

use crate::text;

verus! {

/// The commands that the panel can build.
#[derive(Clone, Copy, Debug, PartialEq, Eq, Structural)]
pub enum ArthasCommand {
    Watch,
    Trace,
    Stack,
    Monitor,
    Tt,
}

/// When `watch` observes; by default in every phase.
#[derive(Clone, Copy, Debug, PartialEq, Eq, Structural)]
pub enum WatchWhen {
    Default,
    Before,
    Success,
    Exception,
    Finish,
}

/// The numeric parameters.
#[derive(Clone, Copy, Debug, PartialEq, Eq, Structural)]
pub enum Param {
    Count,
    Depth,
    Interval,
}

/// What `watch` can observe.
#[derive(Clone, Copy, Debug, PartialEq, Eq, Structural)]
pub enum WatchExpr {
    Params,
    Ret,
    Throw,
    Target,
    Cost,
}

/// A Java process.
pub struct JavaProc {
    pub pid: String,
    pub name: String,
}

/// A command to run in a process.
pub struct RunRequest {
    pub boot: String,
    pub pid: String,
    pub command: String,
}

/// A control for one numeric parameter.
pub struct Stepper {
    pub param: Param,
    pub label: &'static str,
    pub value: u32,
}

/// A button for one of several alternatives, or for one of several switches.
pub struct Chip {
    pub label: &'static str,
    pub on: bool,
}

/// A line of the console.
pub struct ConsoleRow {
    pub text: String,
    /// Whether the line is Arthas's own chatter.
    pub is_log: bool,
}

/// A button for one process.
pub struct ProcRow {
    pub label: String,
    pub selected: bool,
}

/// The Arthas panel.
pub struct ArthasPanel {
    /// Class and method that the commands are about.
    pub fqn: Option<String>,
    pub method: Option<String>,
    pub active: ArthasCommand,
    pub processes: Vec<JavaProc>,
    pub selected_pid: Option<String>,
    pub boot: Option<String>,
    /// Whether a command was started.
    pub has_run: bool,
    pub running: bool,
    pub output: Vec<String>,
    pub status: String,
    pub count: u32,
    pub depth: u32,
    pub interval: u32,
    pub w_params: bool,
    pub w_ret: bool,
    pub w_throw: bool,
    pub w_target: bool,
    pub w_cost: bool,
    pub w_when: WatchWhen,
}

/// What a command does, in words.
pub open spec fn blurb_of(cmd: ArthasCommand) -> Seq<char> {
    match cmd {
        ArthasCommand::Watch => "观察方法入参 / 返回值 / 异常,无需改代码重启"@,
        ArthasCommand::Trace => "渲染方法内部调用路径与每段耗时,定位慢在哪一层"@,
        ArthasCommand::Stack => "输出方法被调用的完整调用栈,回答谁调起来的"@,
        ArthasCommand::Monitor => "按周期统计调用次数 / 成功失败 / 平均最大耗时"@,
        ArthasCommand::Tt => "记录每次调用快照进时间隧道,事后可重放回看"@,
    }
}

/// What a command does, in words.
pub fn cmd_blurb(cmd: ArthasCommand) -> (r: &'static str)
    ensures
        r@ == blurb_of(cmd),
{
    match cmd {
        ArthasCommand::Watch => "观察方法入参 / 返回值 / 异常,无需改代码重启",
        ArthasCommand::Trace => "渲染方法内部调用路径与每段耗时,定位慢在哪一层",
        ArthasCommand::Stack => "输出方法被调用的完整调用栈,回答谁调起来的",
        ArthasCommand::Monitor => "按周期统计调用次数 / 成功失败 / 平均最大耗时",
        ArthasCommand::Tt => "记录每次调用快照进时间隧道,事后可重放回看",
    }
}

/// The option for a phase.
pub open spec fn when_flag(when: WatchWhen) -> Seq<char> {
    match when {
        WatchWhen::Default => ""@,
        WatchWhen::Before => "-b "@,
        WatchWhen::Success => "-s "@,
        WatchWhen::Exception => "-e "@,
        WatchWhen::Finish => "-f "@,
    }
}

/// `e` as a list of one where `on` holds, else nothing.
pub open spec fn if_on(on: bool, e: Seq<char>) -> Seq<Seq<char>> {
    if on {
        seq![e]
    } else {
        Seq::empty()
    }
}

/// `v` moved by `delta` and kept between `lo` and `hi`.
pub open spec fn bumped(v: int, delta: int, lo: int, hi: int) -> int {
    if v + delta < lo {
        lo
    } else if v + delta > hi {
        hi
    } else {
        v + delta
    }
}

fn bump(v: u32, delta: i32, lo: u32, hi: u32) -> (r: u32)
    requires
        lo <= hi,
    ensures
        r == bumped(v as int, delta as int, lo as int, hi as int),
{
    let s: i64 = v as i64 + delta as i64;
    if s < lo as i64 {
        lo
    } else if s > hi as i64 {
        hi
    } else {
        s as u32
    }
}

/// Whether a process with the identifier `pid` is in the list.
pub open spec fn has_pid(processes: Seq<JavaProc>, pid: Seq<char>) -> bool {
    exists|i: int| 0 <= i < processes.len() && (#[trigger] processes[i]).pid@ == pid
}

/// The first process of the list.
pub open spec fn first_pid(processes: Seq<JavaProc>) -> Option<Seq<char>> {
    if processes.len() == 0 {
        None
    } else {
        Some(processes[0].pid@)
    }
}

fn first_of(processes: &Vec<JavaProc>) -> (r: Option<String>)
    ensures
        text::opt_text(r) == first_pid(processes@),
{
    if processes.len() == 0 {
        None
    } else {
        Some(processes[0].pid.clone())
    }
}

/// Whether a console line is Arthas's own chatter.
pub open spec fn is_chatter(line: Seq<char>) -> bool {
    (line.len() > 0 && line[0] == '[') || "Press "@.is_prefix_of(line)
}

impl ArthasPanel {
    /// The numeric parameters are in their ranges.
    pub open spec fn inv(self) -> bool {
        &&& 1 <= self.count <= 999
        &&& 1 <= self.depth <= 10
        &&& 1 <= self.interval <= 60
    }

    /// What `watch` observes, the parameters where nothing is chosen.
    pub open spec fn expressions(self) -> Seq<char> {
        let chosen = if_on(self.w_params, "params"@) + if_on(self.w_ret, "returnObj"@) + if_on(
            self.w_throw,
            "throwExp"@,
        ) + if_on(self.w_target, "target"@) + if_on(self.w_cost, "#cost"@);
        if chosen.len() == 0 {
            "params"@
        } else {
            text::joined(chosen, ","@)
        }
    }

    /// The command that the parameters describe, once a class is known.
    pub open spec fn command(self) -> Option<Seq<char>> {
        match self.fqn {
            None => None,
            Some(f) => {
                let fqn = f@;
                let method = match self.method {
                    Some(m) => m@,
                    None => "*"@,
                };
                let target = fqn + " "@ + method;
                let n = text::dec(self.count as nat);
                let x = text::dec(self.depth as nat);
                let c = text::dec(self.interval as nat);
                Some(
                    match self.active {
                        ArthasCommand::Watch => "watch "@ + target + " '{"@ + self.expressions()
                            + "}' "@ + when_flag(self.w_when) + "-n "@ + n + " -x "@ + x,
                        ArthasCommand::Trace => "trace "@ + target + " -n "@ + n + " -x "@ + x
                            + " --skipJDKMethod false"@,
                        ArthasCommand::Stack => "stack "@ + target + " -n "@ + n,
                        ArthasCommand::Monitor => "monitor "@ + target + " -c "@ + c + " -n "@ + n,
                        ArthasCommand::Tt => "tt -t "@ + target + " -n "@ + n + " -x "@ + x,
                    },
                )
            },
        }
    }

    /// A panel for the given processes and the given `arthas-boot.jar`.
    pub fn new(processes: Vec<JavaProc>, boot: Option<String>) -> (p: Self)
        ensures
            p.inv(),
            p.fqn is None,
            p.method is None,
            p.active == ArthasCommand::Watch,
            p.processes == processes,
            text::opt_text(p.selected_pid) == first_pid(processes@),
            p.boot == boot,
            !p.has_run,
            !p.running,
            p.output@.len() == 0,
            p.count == 5,
            p.depth == 3,
            p.interval == 5,
            p.w_params && p.w_ret && p.w_throw && !p.w_target && !p.w_cost,
            p.w_when == WatchWhen::Default,
            p.status@ == (if boot is None {
                "未找到 arthas-boot.jar:设 ARTHAS_BOOT_JAR 或放到 ~/.arthas-boot.jar 后可一键执行"@
            } else {
                "把光标放到 Java 方法上,菜单 Arthas → 选命令即可定位目标;选进程后可运行"@
            }),
    {
        let selected_pid = first_of(&processes);
        let status = if boot.is_none() {
            "未找到 arthas-boot.jar:设 ARTHAS_BOOT_JAR 或放到 ~/.arthas-boot.jar 后可一键执行".to_owned()
        } else {
            "把光标放到 Java 方法上,菜单 Arthas → 选命令即可定位目标;选进程后可运行".to_owned()
        };
        Self {
            fqn: None,
            method: None,
            active: ArthasCommand::Watch,
            processes,
            selected_pid,
            boot,
            has_run: false,
            running: false,
            output: Vec::new(),
            status,
            count: 5,
            depth: 3,
            interval: 5,
            w_params: true,
            w_ret: true,
            w_throw: true,
            w_target: false,
            w_cost: false,
            w_when: WatchWhen::Default,
        }
    }

    /// Aims the panel at a method and a command.
    pub fn set_target(&mut self, fqn: String, method: Option<String>, cmd: ArthasCommand)
        ensures
            *final(self) == (Self {
                fqn: Some(fqn),
                method,
                active: cmd,
                status: final(self).status,
                ..*old(self)
            }),
            final(self).status@ == "已定位目标方法"@,
    {
        self.fqn = Some(fqn);
        self.method = method;
        self.active = cmd;
        self.status = "已定位目标方法".to_owned();
    }

    fn observed(&self) -> (r: String)
        ensures
            r@ == self.expressions(),
    {
        let mut exprs: Vec<String> = Vec::new();
        let ghost a = if_on(self.w_params, "params"@);
        if self.w_params {
            exprs.push("params".to_owned());
        }
        assert(text::texts(exprs@) =~= a);
        let ghost b = a + if_on(self.w_ret, "returnObj"@);
        if self.w_ret {
            exprs.push("returnObj".to_owned());
        }
        assert(text::texts(exprs@) =~= b);
        let ghost c = b + if_on(self.w_throw, "throwExp"@);
        if self.w_throw {
            exprs.push("throwExp".to_owned());
        }
        assert(text::texts(exprs@) =~= c);
        let ghost d = c + if_on(self.w_target, "target"@);
        if self.w_target {
            exprs.push("target".to_owned());
        }
        assert(text::texts(exprs@) =~= d);
        let ghost e = d + if_on(self.w_cost, "#cost"@);
        if self.w_cost {
            exprs.push("#cost".to_owned());
        }
        assert(text::texts(exprs@) =~= e);
        assert(e.len() == exprs@.len());
        if exprs.len() == 0 {
            "params".to_owned()
        } else {
            text::join(&exprs, ",")
        }
    }

    /// The command that the parameters describe, once a class is known.
    pub fn build_command(&self) -> (r: Option<String>)
        ensures
            text::opt_text(r) == self.command(),
    {
        match &self.fqn {
            None => None,
            Some(fqn) => {
                let method = match &self.method {
                    Some(m) => m.clone(),
                    None => "*".to_owned(),
                };
                let target = text::cat3(fqn.as_str(), " ", method.as_str());
                let n = text::dec_u64(self.count as u64);
                let x = text::dec_u64(self.depth as u64);
                let cmd = match self.active {
                    ArthasCommand::Watch => {
                        let mut s = text::cat2("watch ", target.as_str());
                        s.append(" '{");
                        s.append(self.observed().as_str());
                        s.append("}' ");
                        s.append(
                            match self.w_when {
                                WatchWhen::Default => "",
                                WatchWhen::Before => "-b ",
                                WatchWhen::Success => "-s ",
                                WatchWhen::Exception => "-e ",
                                WatchWhen::Finish => "-f ",
                            },
                        );
                        s.append("-n ");
                        s.append(n.as_str());
                        s.append(" -x ");
                        s.append(x.as_str());
                        s
                    },
                    ArthasCommand::Trace => {
                        let mut s = text::cat4("trace ", target.as_str(), " -n ", n.as_str());
                        s.append(" -x ");
                        s.append(x.as_str());
                        s.append(" --skipJDKMethod false");
                        s
                    },
                    ArthasCommand::Stack => text::cat4(
                        "stack ",
                        target.as_str(),
                        " -n ",
                        n.as_str(),
                    ),
                    ArthasCommand::Monitor => {
                        let mut s = text::cat4(
                            "monitor ",
                            target.as_str(),
                            " -c ",
                            text::dec_u64(self.interval as u64).as_str(),
                        );
                        s.append(" -n ");
                        s.append(n.as_str());
                        s
                    },
                    ArthasCommand::Tt => {
                        let mut s = text::cat4("tt -t ", target.as_str(), " -n ", n.as_str());
                        s.append(" -x ");
                        s.append(x.as_str());
                        s
                    },
                };
                Some(cmd)
            },
        }
    }

    /// Brings the tab of `cmd` to the front.
    pub fn select(&mut self, cmd: ArthasCommand)
        ensures
            *final(self) == (Self { active: cmd, ..*old(self) }),
    {
        self.active = cmd;
    }

    /// Moves a numeric parameter by `delta`, within its range.
    pub fn adjust(&mut self, p: Param, delta: i32)
        requires
            old(self).inv(),
        ensures
            final(self).inv(),
            *final(self) == (match p {
                Param::Count => Self {
                    count: bumped(old(self).count as int, delta as int, 1, 999) as u32,
                    ..*old(self)
                },
                Param::Depth => Self {
                    depth: bumped(old(self).depth as int, delta as int, 1, 10) as u32,
                    ..*old(self)
                },
                Param::Interval => Self {
                    interval: bumped(old(self).interval as int, delta as int, 1, 60) as u32,
                    ..*old(self)
                },
            }),
    {
        match p {
            Param::Count => {
                self.count = bump(self.count, delta, 1, 999);
            },
            Param::Depth => {
                self.depth = bump(self.depth, delta, 1, 10);
            },
            Param::Interval => {
                self.interval = bump(self.interval, delta, 1, 60);
            },
        }
    }

    /// Switches one observed expression on or off.
    pub fn toggle_expr(&mut self, e: WatchExpr)
        ensures
            *final(self) == (match e {
                WatchExpr::Params => Self { w_params: !old(self).w_params, ..*old(self) },
                WatchExpr::Ret => Self { w_ret: !old(self).w_ret, ..*old(self) },
                WatchExpr::Throw => Self { w_throw: !old(self).w_throw, ..*old(self) },
                WatchExpr::Target => Self { w_target: !old(self).w_target, ..*old(self) },
                WatchExpr::Cost => Self { w_cost: !old(self).w_cost, ..*old(self) },
            }),
    {
        match e {
            WatchExpr::Params => {
                self.w_params = !self.w_params;
            },
            WatchExpr::Ret => {
                self.w_ret = !self.w_ret;
            },
            WatchExpr::Throw => {
                self.w_throw = !self.w_throw;
            },
            WatchExpr::Target => {
                self.w_target = !self.w_target;
            },
            WatchExpr::Cost => {
                self.w_cost = !self.w_cost;
            },
        }
    }

    /// Chooses when `watch` observes.
    pub fn set_when(&mut self, when: WatchWhen)
        ensures
            *final(self) == (Self { w_when: when, ..*old(self) }),
    {
        self.w_when = when;
    }

    /// Chooses the process with the identifier `pid`.
    pub fn select_process(&mut self, pid: String)
        ensures
            *final(self) == (Self { selected_pid: Some(pid), ..*old(self) }),
    {
        self.selected_pid = Some(pid);
    }

    fn knows(&self, pid: &str) -> (r: bool)
        ensures
            r == has_pid(self.processes@, pid@),
    {
        let mut i: usize = 0;
        while i < self.processes.len()
            invariant
                i <= self.processes@.len(),
                forall|j: int| 0 <= j < i ==> (#[trigger] self.processes@[j]).pid@ != pid@,
            decreases self.processes@.len() - i,
        {
            if text::str_eq(self.processes[i].pid.as_str(), pid) {
                return true;
            }
            i += 1;
        }
        false
    }

    /// Takes over a new list of processes. The chosen one stays chosen while it is listed, else the
    /// first one is chosen.
    pub fn refresh_processes(&mut self, processes: Vec<JavaProc>)
        ensures
            *final(self) == (Self {
                processes,
                selected_pid: final(self).selected_pid,
                status: final(self).status,
                ..*old(self)
            }),
            ({
                let stays = old(self).selected_pid is Some && has_pid(
                    processes@,
                    old(self).selected_pid->0@,
                );
                &&& stays ==> final(self).selected_pid == old(self).selected_pid
                &&& !stays ==> text::opt_text(final(self).selected_pid) == first_pid(processes@)
            }),
            final(self).status@ == "已刷新:发现 "@ + text::dec(processes@.len()) + " 个 Java 进程"@,
    {
        self.processes = processes;
        let stays = match &self.selected_pid {
            Some(pid) => self.knows(pid.as_str()),
            None => false,
        };
        if !stays {
            self.selected_pid = first_of(&self.processes);
        }
        self.status = text::cat3(
            "已刷新:发现 ",
            text::dec_usize(self.processes.len()).as_str(),
            " 个 Java 进程",
        );
    }

    /// What to put on the clipboard.
    pub fn copy(&mut self) -> (r: Option<String>)
        ensures
            text::opt_text(r) == old(self).command(),
            *final(self) == (Self { status: final(self).status, ..*old(self) }),
            r is None ==> final(self).status@ == "尚无目标方法,无法生成命令"@,
            r is Some ==> final(self).status == old(self).status,
    {
        let cmd = self.build_command();
        if cmd.is_none() {
            self.status = "尚无目标方法,无法生成命令".to_owned();
        }
        cmd
    }

    /// The clipboard has answered.
    pub fn copied(&mut self, result: Result<(), String>)
        ensures
            *final(self) == (Self { status: final(self).status, ..*old(self) }),
            result is Ok ==> final(self).status@ == "命令已复制到剪贴板"@,
            result matches Err(e) ==> final(self).status@ == "复制失败: "@ + e@,
    {
        self.status = match result {
            Ok(_) => "命令已复制到剪贴板".to_owned(),
            Err(e) => text::cat2("复制失败: ", e.as_str()),
        };
    }

    /// Stops the command. Whether there is one to be ended.
    pub fn stop(&mut self) -> (kill: bool)
        ensures
            kill == old(self).has_run,
            *final(self) == (Self {
                running: false,
                status: final(self).status,
                ..*old(self)
            }),
            final(self).status@ == "已停止"@,
    {
        self.running = false;
        self.status = "已停止".to_owned();
        self.has_run
    }

    /// What to start: the command in the chosen process, where all of it is known.
    pub fn run_command(&mut self) -> (r: Option<RunRequest>)
        ensures
            r is Some <==> old(self).command() is Some && old(self).selected_pid is Some && old(
                self,
            ).boot is Some,
            *final(self) == (Self { status: final(self).status, ..*old(self) }),
            r matches Some(q) ==> {
                &&& Some(q.command@) == old(self).command()
                &&& Some(q.pid) == old(self).selected_pid
                &&& Some(q.boot) == old(self).boot
                &&& final(self).status == old(self).status
            },
            r is None ==> final(self).status@ == (if old(self).command() is None {
                "尚无目标方法,无法执行"@
            } else if old(self).selected_pid is None {
                "先选一个目标 Java 进程(下方进程行 / 刷新)"@
            } else {
                "未找到 arthas-boot.jar:设 ARTHAS_BOOT_JAR 或放到 ~/.arthas-boot.jar"@
            }),
    {
        let command = match self.build_command() {
            Some(c) => c,
            None => {
                self.status = "尚无目标方法,无法执行".to_owned();
                return None;
            },
        };
        let pid = match &self.selected_pid {
            Some(p) => p.clone(),
            None => {
                self.status = "先选一个目标 Java 进程(下方进程行 / 刷新)".to_owned();
                return None;
            },
        };
        let boot = match &self.boot {
            Some(b) => b.clone(),
            None => {
                self.status = "未找到 arthas-boot.jar:设 ARTHAS_BOOT_JAR 或放到 ~/.arthas-boot.jar".to_owned();
                return None;
            },
        };
        Some(RunRequest { boot, pid, command })
    }

    /// The command was started, or why it could not be.
    pub fn run_started(&mut self, request: &RunRequest, result: Result<(), String>)
        ensures
            result is Ok ==> *final(self) == (Self {
                has_run: true,
                running: true,
                output: final(self).output,
                status: final(self).status,
                ..*old(self)
            }) && final(self).output@.len() == 0 && final(self).status@ == "正在 attach pid "@
                + request.pid@ + " 执行: "@ + request.command@,
            result matches Err(e) ==> *final(self) == (Self {
                status: final(self).status,
                ..*old(self)
            }) && final(self).status@ == "启动失败: "@ + e@,
    {
        match result {
            Ok(_) => {
                self.has_run = true;
                self.running = true;
                self.output = Vec::new();
                self.status = text::cat4(
                    "正在 attach pid ",
                    request.pid.as_str(),
                    " 执行: ",
                    request.command.as_str(),
                );
            },
            Err(e) => {
                self.status = text::cat2("启动失败: ", e.as_str());
            },
        }
    }

    /// The command has news: takes its lines over where they changed or it is finished. Whether
    /// more news can come.
    pub fn run_news(&mut self, dirty: bool, finished: bool, lines: Vec<String>) -> (more: bool)
        ensures
            more == (old(self).has_run && !finished),
            !old(self).has_run ==> *final(self) == *old(self),
            old(self).has_run ==> {
                &&& *final(self) == (Self {
                    output: final(self).output,
                    running: old(self).running && !finished,
                    status: final(self).status,
                    ..*old(self)
                })
                &&& final(self).output == (if dirty || finished {
                    lines
                } else {
                    old(self).output
                })
                &&& final(self).status@ == (if finished {
                    "执行结束(命令已完成)"@
                } else {
                    old(self).status@
                })
            },
    {
        if !self.has_run {
            return false;
        }
        if dirty || finished {
            self.output = lines;
        }
        if finished {
            self.running = false;
            self.status = "执行结束(命令已完成)".to_owned();
        }
        !finished
    }

    /// The tabs of the panel.
    pub fn tabs(&self) -> (r: Vec<(ArthasCommand, Chip)>)
        ensures
            r@.len() == 5,
            r@[0].0 == ArthasCommand::Watch && r@[0].1.label@ == "Watch"@,
            r@[1].0 == ArthasCommand::Trace && r@[1].1.label@ == "Trace"@,
            r@[2].0 == ArthasCommand::Stack && r@[2].1.label@ == "Stack"@,
            r@[3].0 == ArthasCommand::Monitor && r@[3].1.label@ == "Monitor"@,
            r@[4].0 == ArthasCommand::Tt && r@[4].1.label@ == "TimeTunnel"@,
            forall|i: int| 0 <= i < 5 ==> (#[trigger] r@[i]).1.on == (r@[i].0 == self.active),
    {
        let mut r: Vec<(ArthasCommand, Chip)> = Vec::new();
        let a = self.active;
        r.push((ArthasCommand::Watch, Chip { label: "Watch", on: a == ArthasCommand::Watch }));
        r.push((ArthasCommand::Trace, Chip { label: "Trace", on: a == ArthasCommand::Trace }));
        r.push((ArthasCommand::Stack, Chip { label: "Stack", on: a == ArthasCommand::Stack }));
        r.push((ArthasCommand::Monitor, Chip { label: "Monitor", on: a == ArthasCommand::Monitor }));
        r.push((ArthasCommand::Tt, Chip { label: "TimeTunnel", on: a == ArthasCommand::Tt }));
        r
    }

    /// The method that the commands are about.
    pub fn target_label(&self) -> (r: String)
        ensures
            r@ == (match (self.fqn, self.method) {
                (Some(f), Some(m)) => f@ + " # "@ + m@,
                (Some(f), None) => f@ + " # *"@,
                _ => "(未定位目标方法)"@,
            }),
    {
        match (&self.fqn, &self.method) {
            (Some(f), Some(m)) => text::cat3(f.as_str(), " # ", m.as_str()),
            (Some(f), None) => text::cat2(f.as_str(), " # *"),
            _ => "(未定位目标方法)".to_owned(),
        }
    }

    /// The command as the panel shows it.
    pub fn command_line(&self) -> (r: String)
        ensures
            r@ == "$ "@ + (match self.command() {
                Some(c) => c,
                None => "—"@,
            }),
    {
        match self.build_command() {
            Some(c) => text::cat2("$ ", c.as_str()),
            None => text::cat2("$ ", "—"),
        }
    }

    /// Whether the button that runs the command is lit.
    pub fn can_run(&self) -> (r: bool)
        ensures
            r == (self.boot is Some && self.selected_pid is Some && self.fqn is Some),
    {
        self.boot.is_some() && self.selected_pid.is_some() && self.fqn.is_some()
    }

    /// The line about the connection.
    pub fn connection(&self) -> (r: String)
        ensures
            r@ == (if self.boot is Some {
                "arthas-boot ✓ · pid "@ + (match self.selected_pid {
                    Some(p) => p@,
                    None => "—"@,
                }) + " · "@ + text::dec(self.processes@.len()) + " 进程"@
            } else {
                "arthas-boot ✗"@
            }),
    {
        if self.boot.is_some() {
            let pid = match &self.selected_pid {
                Some(p) => p.clone(),
                None => "—".to_owned(),
            };
            let mut s = text::cat3("arthas-boot ✓ · pid ", pid.as_str(), " · ");
            s.append(text::dec_usize(self.processes.len()).as_str());
            s.append(" 进程");
            s
        } else {
            "arthas-boot ✗".to_owned()
        }
    }

    /// What can be observed, and what is; only `watch` observes.
    pub fn expr_chips(&self) -> (r: Vec<(WatchExpr, Chip)>)
        ensures
            self.active != ArthasCommand::Watch ==> r@.len() == 0,
            self.active == ArthasCommand::Watch ==> {
                &&& r@.len() == 5
                &&& r@[0].0 == WatchExpr::Params && r@[0].1.label@ == "params"@ && r@[0].1.on
                    == self.w_params
                &&& r@[1].0 == WatchExpr::Ret && r@[1].1.label@ == "returnObj"@ && r@[1].1.on
                    == self.w_ret
                &&& r@[2].0 == WatchExpr::Throw && r@[2].1.label@ == "throwExp"@ && r@[2].1.on
                    == self.w_throw
                &&& r@[3].0 == WatchExpr::Target && r@[3].1.label@ == "target"@ && r@[3].1.on
                    == self.w_target
                &&& r@[4].0 == WatchExpr::Cost && r@[4].1.label@ == "#cost"@ && r@[4].1.on
                    == self.w_cost
            },
    {
        let mut r: Vec<(WatchExpr, Chip)> = Vec::new();
        if self.active == ArthasCommand::Watch {
            r.push((WatchExpr::Params, Chip { label: "params", on: self.w_params }));
            r.push((WatchExpr::Ret, Chip { label: "returnObj", on: self.w_ret }));
            r.push((WatchExpr::Throw, Chip { label: "throwExp", on: self.w_throw }));
            r.push((WatchExpr::Target, Chip { label: "target", on: self.w_target }));
            r.push((WatchExpr::Cost, Chip { label: "#cost", on: self.w_cost }));
        }
        r
    }

    /// When `watch` can observe, and when it does.
    pub fn when_chips(&self) -> (r: Vec<(WatchWhen, Chip)>)
        ensures
            self.active != ArthasCommand::Watch ==> r@.len() == 0,
            self.active == ArthasCommand::Watch ==> {
                &&& r@.len() == 5
                &&& r@[0].0 == WatchWhen::Default && r@[0].1.label@ == "默认"@
                &&& r@[1].0 == WatchWhen::Before && r@[1].1.label@ == "前 -b"@
                &&& r@[2].0 == WatchWhen::Success && r@[2].1.label@ == "成功 -s"@
                &&& r@[3].0 == WatchWhen::Exception && r@[3].1.label@ == "异常 -e"@
                &&& r@[4].0 == WatchWhen::Finish && r@[4].1.label@ == "完成 -f"@
                &&& forall|i: int| 0 <= i < 5 ==> (#[trigger] r@[i]).1.on == (r@[i].0 == self.w_when)
            },
    {
        let mut r: Vec<(WatchWhen, Chip)> = Vec::new();
        let w = self.w_when;
        if self.active == ArthasCommand::Watch {
            r.push((WatchWhen::Default, Chip { label: "默认", on: w == WatchWhen::Default }));
            r.push((WatchWhen::Before, Chip { label: "前 -b", on: w == WatchWhen::Before }));
            r.push((WatchWhen::Success, Chip { label: "成功 -s", on: w == WatchWhen::Success }));
            r.push((WatchWhen::Exception, Chip { label: "异常 -e", on: w == WatchWhen::Exception }));
            r.push((WatchWhen::Finish, Chip { label: "完成 -f", on: w == WatchWhen::Finish }));
        }
        r
    }

    /// The numeric parameters of the current command, the repeat count last.
    pub fn steppers(&self) -> (r: Vec<Stepper>)
        ensures
            ({
                let first = match self.active {
                    ArthasCommand::Watch | ArthasCommand::Trace | ArthasCommand::Tt => Some(
                        (Param::Depth, "遍历深度 -x"@, self.depth),
                    ),
                    ArthasCommand::Monitor => Some(
                        (Param::Interval, "统计周期 -c(秒)"@, self.interval),
                    ),
                    ArthasCommand::Stack => None,
                };
                let last = r@.last();
                &&& r@.len() == (if first is Some {
                    2nat
                } else {
                    1nat
                })
                &&& last.param == Param::Count && last.label@ == "执行次数 -n"@ && last.value
                    == self.count
                &&& first matches Some(f) ==> (r@[0].param, r@[0].label@, r@[0].value) == f
            }),
    {
        let mut r: Vec<Stepper> = Vec::new();
        match self.active {
            ArthasCommand::Watch | ArthasCommand::Trace | ArthasCommand::Tt => {
                r.push(Stepper { param: Param::Depth, label: "遍历深度 -x", value: self.depth });
            },
            ArthasCommand::Monitor => {
                r.push(
                    Stepper {
                        param: Param::Interval,
                        label: "统计周期 -c(秒)",
                        value: self.interval,
                    },
                );
            },
            ArthasCommand::Stack => {},
        }
        r.push(Stepper { param: Param::Count, label: "执行次数 -n", value: self.count });
        r
    }

    /// The lines of the console.
    pub fn console(&self) -> (rows: Vec<ConsoleRow>)
        ensures
            rows@.len() == self.output@.len(),
            forall|i: int|
                0 <= i < rows@.len() ==> (#[trigger] rows@[i]).text@ == self.output@[i]@
                    && rows@[i].is_log == is_chatter(self.output@[i]@),
    {
        let mut rows: Vec<ConsoleRow> = Vec::new();
        let mut i: usize = 0;
        while i < self.output.len()
            invariant
                i <= self.output@.len(),
                rows@.len() == i,
                forall|j: int|
                    0 <= j < i ==> (#[trigger] rows@[j]).text@ == self.output@[j]@
                        && rows@[j].is_log == is_chatter(self.output@[j]@),
            decreases self.output@.len() - i,
        {
            let line = self.output[i].as_str();
            let bracket = match text::first_char(line) {
                Some(c) => c == '[',
                None => false,
            };
            let is_log = bracket || text::starts_with(line, "Press ");
            rows.push(ConsoleRow { text: self.output[i].clone(), is_log });
            i += 1;
        }
        rows
    }

    /// The buttons of the processes.
    pub fn process_rows(&self) -> (rows: Vec<ProcRow>)
        ensures
            rows@.len() == self.processes@.len(),
            forall|i: int|
                0 <= i < rows@.len() ==> {
                    let p = self.processes@[i];
                    &&& (#[trigger] rows@[i]).label@ == p.name@ + " · "@ + p.pid@
                    &&& rows@[i].selected == (text::opt_text(self.selected_pid) == Some(p.pid@))
                },
    {
        let mut rows: Vec<ProcRow> = Vec::new();
        let mut i: usize = 0;
        while i < self.processes.len()
            invariant
                i <= self.processes@.len(),
                rows@.len() == i,
                forall|j: int|
                    0 <= j < i ==> {
                        let p = self.processes@[j];
                        &&& (#[trigger] rows@[j]).label@ == p.name@ + " · "@ + p.pid@
                        &&& rows@[j].selected == (text::opt_text(self.selected_pid) == Some(
                            p.pid@,
                        ))
                    },
            decreases self.processes@.len() - i,
        {
            let p = &self.processes[i];
            let selected = match &self.selected_pid {
                Some(s) => text::str_eq(s.as_str(), p.pid.as_str()),
                None => false,
            };
            rows.push(
                ProcRow { label: text::cat3(p.name.as_str(), " · ", p.pid.as_str()), selected },
            );
            i += 1;
        }
        rows
    }
}

proof fn lemma_ends(all: Seq<char>, head: Seq<char>, tail: Seq<char>)
    requires
        all == head + tail,
    ensures
        head.is_prefix_of(all),
        tail.is_suffix_of(all),
{
    assert(all.take(head.len() as int) =~= head);
    assert(all.skip(all.len() - tail.len()) =~= tail);
}

/// A command is built once a class is known. It begins with its name, the class and the method, or a
/// star for every method.
pub proof fn law_commands_begin_with_their_target(p: ArthasPanel, r: Option<String>)
    requires
        call_ensures(ArthasPanel::build_command, (&p,), r),
    ensures
        r is Some <==> p.fqn is Some,
        r matches Some(cmd) ==> ((match p.active {
            ArthasCommand::Watch => "watch "@,
            ArthasCommand::Trace => "trace "@,
            ArthasCommand::Stack => "stack "@,
            ArthasCommand::Monitor => "monitor "@,
            ArthasCommand::Tt => "tt -t "@,
        }) + (p.fqn->0@ + " "@ + (match p.method {
            Some(m) => m@,
            None => "*"@,
        }))).is_prefix_of(cmd@),
{
    if let Some(cmd) = r {
        let n = text::dec(p.count as nat);
        let x = text::dec(p.depth as nat);
        let c = text::dec(p.interval as nat);
        let target = p.fqn->0@ + " "@ + (match p.method {
            Some(m) => m@,
            None => "*"@,
        });
        match p.active {
            ArthasCommand::Watch => {
                let rest = " '{"@ + p.expressions() + "}' "@ + when_flag(p.w_when) + "-n "@ + n
                    + " -x "@ + x;
                assert(cmd@ =~= ("watch "@ + target) + rest);
                lemma_ends(cmd@, "watch "@ + target, rest);
            },
            ArthasCommand::Trace => {
                let rest = " -n "@ + n + " -x "@ + x + " --skipJDKMethod false"@;
                assert(cmd@ =~= ("trace "@ + target) + rest);
                lemma_ends(cmd@, "trace "@ + target, rest);
            },
            ArthasCommand::Stack => {
                let rest = " -n "@ + n;
                assert(cmd@ =~= ("stack "@ + target) + rest);
                lemma_ends(cmd@, "stack "@ + target, rest);
            },
            ArthasCommand::Monitor => {
                let rest = " -c "@ + c + " -n "@ + n;
                assert(cmd@ =~= ("monitor "@ + target) + rest);
                lemma_ends(cmd@, "monitor "@ + target, rest);
            },
            ArthasCommand::Tt => {
                let rest = " -n "@ + n + " -x "@ + x;
                assert(cmd@ =~= ("tt -t "@ + target) + rest);
                lemma_ends(cmd@, "tt -t "@ + target, rest);
            },
        }
    }
}

/// The number after `-n` is the repeat count, and for the commands that look into values the number
/// after `-x` is the depth; no other number follows them.
pub proof fn law_commands_tell_count_and_depth(p: ArthasPanel, r: Option<String>)
    requires
        call_ensures(ArthasPanel::build_command, (&p,), r),
    ensures
        r matches Some(cmd) ==> {
            let count = text::dec(p.count as nat);
            let depth = text::dec(p.depth as nat);
            (match p.active {
                ArthasCommand::Watch => "-n "@ + count + " -x "@ + depth,
                ArthasCommand::Tt => " -n "@ + count + " -x "@ + depth,
                ArthasCommand::Trace => " -n "@ + count + " -x "@ + depth
                    + " --skipJDKMethod false"@,
                ArthasCommand::Stack | ArthasCommand::Monitor => " -n "@ + count,
            }).is_suffix_of(cmd@)
        },
{
    if let Some(cmd) = r {
        let n = text::dec(p.count as nat);
        let x = text::dec(p.depth as nat);
        let c = text::dec(p.interval as nat);
        let target = p.fqn->0@ + " "@ + (match p.method {
            Some(m) => m@,
            None => "*"@,
        });
        match p.active {
            ArthasCommand::Watch => {
                let head = "watch "@ + target + " '{"@ + p.expressions() + "}' "@ + when_flag(
                    p.w_when,
                );
                let tail = "-n "@ + n + " -x "@ + x;
                assert(cmd@ =~= head + tail);
                lemma_ends(cmd@, head, tail);
            },
            ArthasCommand::Trace => {
                let tail = " -n "@ + n + " -x "@ + x + " --skipJDKMethod false"@;
                assert(cmd@ =~= ("trace "@ + target) + tail);
                lemma_ends(cmd@, "trace "@ + target, tail);
            },
            ArthasCommand::Stack => {
                assert(cmd@ =~= ("stack "@ + target) + (" -n "@ + n));
                lemma_ends(cmd@, "stack "@ + target, " -n "@ + n);
            },
            ArthasCommand::Monitor => {
                let head = "monitor "@ + target + " -c "@ + c;
                assert(cmd@ =~= head + (" -n "@ + n));
                lemma_ends(cmd@, head, " -n "@ + n);
            },
            ArthasCommand::Tt => {
                let tail = " -n "@ + n + " -x "@ + x;
                assert(cmd@ =~= ("tt -t "@ + target) + tail);
                lemma_ends(cmd@, "tt -t "@ + target, tail);
            },
        }
    }
}

/// In a command that counts calls the number after `-c` is the interval, and the repeat count comes
/// after it.
pub proof fn law_monitoring_tells_the_interval(p: ArthasPanel, r: Option<String>)
    requires
        call_ensures(ArthasPanel::build_command, (&p,), r),
        p.active == ArthasCommand::Monitor,
    ensures
        r matches Some(cmd) ==> exists|head: Seq<char>|
            cmd@ == #[trigger] (head + " -c "@ + text::dec(p.interval as nat) + " -n "@ + text::dec(
                p.count as nat,
            )),
{
    if let Some(cmd) = r {
        let head = "monitor "@ + (p.fqn->0@ + " "@ + (match p.method {
            Some(m) => m@,
            None => "*"@,
        }));
        assert(cmd@ =~= head + " -c "@ + text::dec(p.interval as nat) + " -n "@ + text::dec(
            p.count as nat,
        ));
    }
}

/// A parameter that a command does not have leaves it as it is: the interval matters where calls are
/// counted, the depth where values are looked into, and what is observed and when to `watch` alone.
pub proof fn law_other_parameters_leave_a_command(
    p: ArthasPanel,
    q: ArthasPanel,
    r: Option<String>,
    s: Option<String>,
)
    requires
        call_ensures(ArthasPanel::build_command, (&p,), r),
        call_ensures(ArthasPanel::build_command, (&q,), s),
        text::opt_text(p.fqn) == text::opt_text(q.fqn),
        text::opt_text(p.method) == text::opt_text(q.method),
        p.active == q.active,
        p.count == q.count,
        p.active == ArthasCommand::Monitor ==> p.interval == q.interval,
        p.active != ArthasCommand::Monitor && p.active != ArthasCommand::Stack ==> p.depth
            == q.depth,
        p.active == ArthasCommand::Watch ==> p.w_params == q.w_params && p.w_ret == q.w_ret
            && p.w_throw == q.w_throw && p.w_target == q.w_target && p.w_cost == q.w_cost
            && p.w_when == q.w_when,
    ensures
        text::opt_text(r) == text::opt_text(s),
{
}

/// What `watch` observes is listed with commas between: the parameters where they are chosen or
/// nothing is, and everything else exactly where it is chosen, each once and in a fixed order.
pub proof fn law_watch_lists_what_is_chosen(p: ArthasPanel)
    ensures
        ({
            let names = text::split_on(p.expressions(), ',');
            let none = !p.w_params && !p.w_ret && !p.w_throw && !p.w_target && !p.w_cost;
            &&& names.contains("params"@) <==> p.w_params || none
            &&& names.contains("returnObj"@) <==> p.w_ret
            &&& names.contains("throwExp"@) <==> p.w_throw
            &&& names.contains("target"@) <==> p.w_target
            &&& names.contains("#cost"@) <==> p.w_cost
            &&& names.no_duplicates()
            &&& p.w_params ==> names[0] == "params"@
            &&& p.w_cost ==> names.last() == "#cost"@
        }),
{
    reveal_strlit(",");
    reveal_strlit("params");
    reveal_strlit("returnObj");
    reveal_strlit("throwExp");
    reveal_strlit("target");
    reveal_strlit("#cost");
    let a = if_on(p.w_params, "params"@);
    let b = if_on(p.w_ret, "returnObj"@);
    let c = if_on(p.w_throw, "throwExp"@);
    let d = if_on(p.w_target, "target"@);
    let e = if_on(p.w_cost, "#cost"@);
    let chosen = a + b + c + d + e;
    assert(","@ =~= seq![',']);
    let names = if chosen.len() == 0 {
        seq!["params"@]
    } else {
        chosen
    };
    assert forall|i: int| 0 <= i < names.len() implies !(#[trigger] names[i]).contains(',') by {
        assert(names[i] == "params"@ || names[i] == "returnObj"@ || names[i] == "throwExp"@
            || names[i] == "target"@ || names[i] == "#cost"@);
    }
    text::law_joined_pieces_come_back(names, ',');
    assert(p.expressions() == text::joined(names, seq![',']));
    assert("params"@.len() == 6 && "returnObj"@.len() == 9 && "throwExp"@.len() == 8
        && "target"@.len() == 6 && "#cost"@.len() == 5);
    assert("params"@[0] != "target"@[0]);
    let ia = a.len() as int;
    let ib = ia + b.len();
    let ic = ib + c.len();
    let id = ic + d.len();
    if chosen.len() > 0 {
        if p.w_params {
            assert(names[0] == "params"@);
        }
        if p.w_ret {
            assert(names[ia] == "returnObj"@);
        }
        if p.w_throw {
            assert(names[ib] == "throwExp"@);
        }
        if p.w_target {
            assert(names[ic] == "target"@);
        }
        if p.w_cost {
            assert(names[id] == "#cost"@);
        }
    } else {
        assert(names[0] == "params"@);
    }
}

/// A watch command observes what is chosen, between braces, and has the option of its phase after
/// that; by default it has none.
pub proof fn law_watch_tells_what_and_when(p: ArthasPanel, r: Option<String>)
    requires
        call_ensures(ArthasPanel::build_command, (&p,), r),
        p.active == ArthasCommand::Watch,
    ensures
        r matches Some(cmd) ==> {
            let flag = match p.w_when {
                WatchWhen::Default => ""@,
                WatchWhen::Before => "-b "@,
                WatchWhen::Success => "-s "@,
                WatchWhen::Exception => "-e "@,
                WatchWhen::Finish => "-f "@,
            };
            let target = p.fqn->0@ + " "@ + (match p.method {
                Some(m) => m@,
                None => "*"@,
            });
            ("watch "@ + target + " '{"@ + p.expressions() + "}' "@ + flag + "-n "@).is_prefix_of(
                cmd@,
            )
        },
{
    if let Some(cmd) = r {
        let head = "watch "@ + (p.fqn->0@ + " "@ + (match p.method {
            Some(m) => m@,
            None => "*"@,
        }));
        let tail = text::dec(p.count as nat) + " -x "@ + text::dec(p.depth as nat);
        let flag = match p.w_when {
            WatchWhen::Default => ""@,
            WatchWhen::Before => "-b "@,
            WatchWhen::Success => "-s "@,
            WatchWhen::Exception => "-e "@,
            WatchWhen::Finish => "-f "@,
        };
        let upto = head + " '{"@ + p.expressions() + "}' "@ + flag + "-n "@;
        assert(cmd@ =~= upto + tail);
        lemma_ends(cmd@, upto, tail);
    }
}

/// A parameter moves by what it is adjusted by and stays within its range; the others stay as they
/// are. Away from the ends of the range, moving back restores it.
pub proof fn law_parameters_move_within_their_range(
    p: &mut ArthasPanel,
    param: Param,
    delta: i32,
)
    requires
        old(p).inv(),
        call_ensures(ArthasPanel::adjust, (p, param, delta), ()),
    ensures
        ({
            let (was, is, most) = match param {
                Param::Count => (old(p).count, final(p).count, 999int),
                Param::Depth => (old(p).depth, final(p).depth, 10int),
                Param::Interval => (old(p).interval, final(p).interval, 60int),
            };
            &&& 1 <= is <= most
            &&& 1 <= was + delta <= most ==> is == was + delta
            &&& was + delta < 1 ==> is == 1
            &&& was + delta > most ==> is == most
            &&& param != Param::Count ==> final(p).count == old(p).count
            &&& param != Param::Depth ==> final(p).depth == old(p).depth
            &&& param != Param::Interval ==> final(p).interval == old(p).interval
        }),
{
}

/// What is run is the command that is shown, in the chosen process.
pub proof fn law_what_is_shown_is_run(
    p: &mut ArthasPanel,
    shown: String,
    r: Option<RunRequest>,
)
    requires
        call_ensures(ArthasPanel::command_line, (&*old(p),), shown),
        call_ensures(ArthasPanel::run_command, (p,), r),
    ensures
        r matches Some(q) ==> shown@ == "$ "@ + q.command@ && old(p).selected_pid == Some(q.pid)
            && old(p).boot == Some(q.boot) && final(p).status == old(p).status,
        r is None ==> old(p).fqn is None || old(p).selected_pid is None || old(p).boot is None,
{
}

/// A new list of processes keeps the chosen one while it is there, else the first one is chosen.
pub proof fn law_the_chosen_process_stays_while_it_lives(
    p: &mut ArthasPanel,
    processes: Vec<JavaProc>,
    i: int,
)
    requires
        call_ensures(ArthasPanel::refresh_processes, (p, processes), ()),
        0 <= i < processes@.len(),
    ensures
        final(p).processes == processes,
        text::opt_text(old(p).selected_pid) == Some(processes@[i].pid@) ==> final(p).selected_pid
            == old(p).selected_pid,
        final(p).selected_pid matches Some(pid) ==> exists|j: int|
            0 <= j < processes@.len() && (#[trigger] processes@[j]).pid@ == pid@,
        old(p).selected_pid is None ==> text::opt_text(final(p).selected_pid) == Some(
            processes@[0].pid@,
        ),
{
    let first = processes@[0].pid@;
    assert(processes@[i].pid@ == processes@[i].pid@);
}

/// Turning a watched expression on or off shows at its own chip and at no other; doing it twice leaves
/// the panel as it was.
pub proof fn law_chips_follow_what_is_turned(
    p: &mut ArthasPanel,
    again: &mut ArthasPanel,
    e: WatchExpr,
    before: Vec<(WatchExpr, Chip)>,
    after: Vec<(WatchExpr, Chip)>,
    i: int,
)
    requires
        old(p).active == ArthasCommand::Watch,
        call_ensures(ArthasPanel::expr_chips, (&*old(p),), before),
        call_ensures(ArthasPanel::toggle_expr, (p, e), ()),
        *old(again) == *final(p),
        call_ensures(ArthasPanel::expr_chips, (&*old(again),), after),
        call_ensures(ArthasPanel::toggle_expr, (again, e), ()),
        0 <= i < before@.len(),
    ensures
        after@.len() == before@.len() == 5,
        after@[i].0 == before@[i].0,
        after@[i].1.label@ == before@[i].1.label@,
        before@[i].0 == e <==> after@[i].1.on != before@[i].1.on,
        exists|k: int| 0 <= k < 5 && (#[trigger] before@[k]).0 == e,
        *final(again) == *old(p),
{
    match e {
        WatchExpr::Params => {
            assert(before@[0].0 == e);
        },
        WatchExpr::Ret => {
            assert(before@[1].0 == e);
        },
        WatchExpr::Throw => {
            assert(before@[2].0 == e);
        },
        WatchExpr::Target => {
            assert(before@[3].0 == e);
        },
        WatchExpr::Cost => {
            assert(before@[4].0 == e);
        },
    }
    if i == 0 {
    } else if i == 1 {
    } else if i == 2 {
    } else if i == 3 {
    } else {
        assert(i == 4);
    }
}

/// Of the moments to watch at and of the commands exactly the chosen one is on.
pub proof fn law_one_chip_is_on(
    p: &mut ArthasPanel,
    q: &mut ArthasPanel,
    when: WatchWhen,
    cmd: ArthasCommand,
    moments: Vec<(WatchWhen, Chip)>,
    commands: Vec<(ArthasCommand, Chip)>,
    i: int,
    j: int,
)
    requires
        call_ensures(ArthasPanel::set_when, (p, when), ()),
        call_ensures(ArthasPanel::when_chips, (&*final(p),), moments),
        call_ensures(ArthasPanel::select, (q, cmd), ()),
        call_ensures(ArthasPanel::tabs, (&*final(q),), commands),
        0 <= i < moments@.len(),
        0 <= j < commands@.len(),
    ensures
        moments@[i].1.on <==> moments@[i].0 == when,
        commands@[j].1.on <==> commands@[j].0 == cmd,
        old(p).active == ArthasCommand::Watch,
        final(q).w_when == old(q).w_when,
{
}

/// A parameter is offered where the command takes it, with its own value; how often is always asked.
pub proof fn law_parameters_are_offered_where_taken(p: ArthasPanel, r: Vec<Stepper>, i: int)
    requires
        call_ensures(ArthasPanel::steppers, (&p,), r),
        0 <= i < r@.len(),
    ensures
        r@[i].param == Param::Count ==> r@[i].value == p.count,
        r@[i].param == Param::Depth ==> r@[i].value == p.depth && p.active != ArthasCommand::Monitor
            && p.active != ArthasCommand::Stack,
        r@[i].param == Param::Interval ==> r@[i].value == p.interval && p.active
            == ArthasCommand::Monitor,
        r@[r@.len() - 1].param == Param::Count,
        p.active == ArthasCommand::Stack ==> r@.len() == 1,
        p.active != ArthasCommand::Stack ==> r@.len() == 2 && r@[0].param != Param::Count,
{
    assert(i == 0 || i == 1);
}

/// The console shows every line as it came, and every process has a row that ends in its number.
pub proof fn law_rows_of_the_panel(p: ArthasPanel, lines: Vec<ConsoleRow>, rows: Vec<ProcRow>, i: int, j: int)
    requires
        call_ensures(ArthasPanel::console, (&p,), lines),
        call_ensures(ArthasPanel::process_rows, (&p,), rows),
        0 <= i < p.output@.len(),
        0 <= j < p.processes@.len(),
    ensures
        lines@.len() == p.output@.len(),
        lines@[i].text@ == p.output@[i]@,
        rows@.len() == p.processes@.len(),
        p.processes@[j].name@.is_prefix_of(rows@[j].label@),
        p.processes@[j].pid@.is_suffix_of(rows@[j].label@),
        rows@[j].selected <==> p.selected_pid is Some && p.selected_pid->0@
            == p.processes@[j].pid@,
{
    let name = p.processes@[j].name@;
    let pid = p.processes@[j].pid@;
    let label = rows@[j].label@;
    assert(label.take(name.len() as int) =~= name);
    assert(label.skip(label.len() - pid.len()) =~= pid);
}

/// A command runs from its start until it ends or is stopped; what it wrote last is kept.
pub proof fn law_a_command_runs_until_it_ends(
    p: &mut ArthasPanel,
    q: &mut ArthasPanel,
    s: &mut ArthasPanel,
    request: RunRequest,
    dirty: bool,
    finished: bool,
    lines: Vec<String>,
    more: bool,
    kill: bool,
)
    requires
        call_ensures(ArthasPanel::run_started, (p, &request, Ok::<(), String>(())), ()),
        *old(q) == *final(p),
        call_ensures(ArthasPanel::run_news, (q, dirty, finished, lines), more),
        *old(s) == *final(q),
        call_ensures(ArthasPanel::stop, (s,), kill),
    ensures
        final(p).running && final(p).output@.len() == 0,
        final(q).running <==> !finished,
        more <==> !finished,
        dirty || finished ==> final(q).output == lines,
        !dirty && !finished ==> final(q).output@.len() == 0,
        kill && !final(s).running,
        final(s).output == final(q).output,
        final(s).processes == old(p).processes && final(s).fqn == old(p).fqn && final(s).count
            == old(p).count,
{
}

/// The label of the target begins with the class and ends with the method, or with a star for all of
/// them.
pub proof fn law_the_label_names_the_target(
    p: &mut ArthasPanel,
    fqn: String,
    method: Option<String>,
    cmd: ArthasCommand,
    r: String,
)
    requires
        call_ensures(ArthasPanel::set_target, (p, fqn, method, cmd), ()),
        call_ensures(ArthasPanel::target_label, (&*final(p),), r),
    ensures
        fqn@.is_prefix_of(r@),
        method matches Some(m) ==> m@.is_suffix_of(r@) && r@.len() == fqn@.len() + 3 + m@.len(),
        method is None ==> r@.last() == '*',
        final(p).active == cmd,
        final(p).selected_pid == old(p).selected_pid,
{
    reveal_strlit(" # ");
    reveal_strlit(" # *");
    assert(r@.take(fqn@.len() as int) =~= fqn@);
    if let Some(m) = method {
        assert(r@.skip(r@.len() - m@.len()) =~= m@);
    }
}

/// Nothing can be run without the program, a process and a target.
pub proof fn law_running_needs_all_three(p: ArthasPanel, r: bool)
    requires
        call_ensures(ArthasPanel::can_run, (&p,), r),
    ensures
        p.boot is None ==> !r,
        p.selected_pid is None ==> !r,
        p.fqn is None ==> !r,
        p.boot is Some && p.selected_pid is Some && p.fqn is Some ==> r,
{
}

/// Lines of the program itself begin with a bracket or ask to press a key; all others are what was
/// asked for.
pub proof fn law_own_lines_are_told_apart(p: ArthasPanel, lines: Vec<ConsoleRow>, i: int, rest: Seq<char>)
    requires
        call_ensures(ArthasPanel::console, (&p,), lines),
        0 <= i < p.output@.len(),
    ensures
        p.output@[i]@ == seq!['['] + rest ==> lines@[i].is_log,
        p.output@[i]@ == "Press "@ + rest ==> lines@[i].is_log,
        p.output@[i]@.len() == 0 ==> !lines@[i].is_log,
        p.output@[i]@.len() > 0 && p.output@[i]@[0] != '[' && p.output@[i]@[0] != 'P'
            ==> !lines@[i].is_log,
{
    reveal_strlit("Press ");
    let t = p.output@[i]@;
    if t == "Press "@ + rest {
        assert(t.take("Press "@.len() as int) =~= "Press "@);
    }
    if "Press "@.is_prefix_of(t) {
        assert(t.subrange(0, "Press "@.len() as int)[0] == t[0]);
    }
}

/// The line on the connection tells the process that is chosen and how many there are, where the program
/// is found.
pub proof fn law_the_connection_is_told(p: &mut ArthasPanel, pid: String, r: String)
    requires
        old(p).boot is Some,
        call_ensures(ArthasPanel::select_process, (p, pid), ()),
        call_ensures(ArthasPanel::connection, (&*final(p),), r),
    ensures
        exists|a: Seq<char>, b: Seq<char>, c: Seq<char>|
            r@ == #[trigger] (a + pid@ + b + text::dec(old(p).processes@.len()) + c),
        final(p).selected_pid == Some(pid),
        final(p).processes == old(p).processes,
{
    let n = text::dec(old(p).processes@.len());
    assert(r@ == "arthas-boot ✓ · pid "@ + pid@ + " · "@ + n + " 进程"@);
}

} // verus!

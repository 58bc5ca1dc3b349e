//! Signing in to Astore and publishing a project there.
use vstd::prelude::*;

use crate::text;

verus! {

/// What Astore knows of the user and the project.
pub struct AstoreSession {
    /// Empty while nobody is signed in.
    pub sso_token: String,
    pub nick_name: String,
    pub current_env: String,
    pub project_type: String,
    pub template_id: Option<i64>,
}

/// Work for the Astore service.
pub enum AstoreOp {
    Login { username: String, password: String },
    Detect { root: String },
    SetEnv { env: String },
    SyncCode { cwd: String },
    Publish,
    Logout,
}

/// What the service answered.
pub enum AstoreReply {
    LoggedIn { nick_name: String },
    Detected { project_type: String },
    EnvSet { env: String },
    /// A message of the service itself.
    Message(String),
    LoggedOut,
}

/// The Astore panel.
pub struct AstorePanel {
    pub project_root: String,
    pub session: AstoreSession,
    pub busy: bool,
    pub status: String,
}

/// The message for an answer.
pub open spec fn reply_text(r: AstoreReply) -> Seq<char> {
    match r {
        AstoreReply::LoggedIn { nick_name } => "已登录: "@ + nick_name@,
        AstoreReply::Detected { project_type } => "项目类型: "@ + project_type@,
        AstoreReply::EnvSet { env } => "已切到"@ + env@,
        AstoreReply::Message(m) => m@,
        AstoreReply::LoggedOut => "已登出"@,
    }
}

/// The message for an answer.
pub fn reply_message(r: AstoreReply) -> (s: String)
    ensures
        s@ == reply_text(r),
{
    match r {
        AstoreReply::LoggedIn { nick_name } => text::cat2("已登录: ", nick_name.as_str()),
        AstoreReply::Detected { project_type } => text::cat2("项目类型: ", project_type.as_str()),
        AstoreReply::EnvSet { env } => text::cat2("已切到", env.as_str()),
        AstoreReply::Message(m) => m,
        AstoreReply::LoggedOut => "已登出".to_owned(),
    }
}

impl AstorePanel {
    /// Whether somebody is signed in.
    pub open spec fn signed_in(self) -> bool {
        self.session.sso_token@.len() > 0
    }

    /// A panel for the project at `project_root`, with nobody signed in yet.
    pub fn new(project_root: String) -> (p: Self)
        ensures
            p.project_root == project_root,
            !p.signed_in(),
            p.session.nick_name@.len() == 0,
            p.session.current_env@.len() == 0,
            p.session.project_type@.len() == 0,
            p.session.template_id is None,
            !p.busy,
            p.status@.len() == 0,
    {
        Self {
            project_root,
            session: AstoreSession {
                sso_token: String::new(),
                nick_name: String::new(),
                current_env: String::new(),
                project_type: String::new(),
                template_id: None,
            },
            busy: false,
            status: String::new(),
        }
    }

    /// The stored session has been read.
    pub fn session_read(&mut self, session: AstoreSession)
        ensures
            *final(self) == (Self { session, ..*old(self) }),
    {
        self.session = session;
    }

    /// Whether `r` is what starting `op` under the name `label` comes to: nothing while another
    /// operation runs.
    pub open spec fn starts(self, label: Seq<char>, after: Self, r: Option<AstoreOp>) -> bool {
        &&& r is Some <==> !self.busy
        &&& r is None ==> after == self
        &&& r is Some ==> after == (Self { busy: true, status: after.status, ..self })
            && after.status@ == label + "…"@
    }

    fn run_op(&mut self, label: &str, op: AstoreOp) -> (r: Option<AstoreOp>)
        ensures
            old(self).starts(label@, *final(self), r),
            r is Some ==> r == Some(op),
    {
        if self.busy {
            return None;
        }
        self.busy = true;
        self.status = text::cat2(label, "…");
        Some(op)
    }

    /// The operation is over, and the session was read again.
    pub fn op_done(&mut self, result: Result<AstoreReply, String>, session: AstoreSession)
        ensures
            *final(self) == (Self {
                busy: false,
                session,
                status: final(self).status,
                ..*old(self)
            }),
            result matches Ok(reply) ==> final(self).status@ == reply_text(reply),
            result matches Err(e) ==> final(self).status@ == "失败: "@ + e@,
    {
        self.busy = false;
        self.session = session;
        self.status = match result {
            Ok(reply) => reply_message(reply),
            Err(e) => text::cat2("失败: ", e.as_str()),
        };
    }

    /// Signs in, once a name and a password have been given.
    pub fn login(&mut self, username: String, password: String) -> (r: Option<AstoreOp>)
        ensures
            ({
                let missing = text::all_white(username@) || password@.len() == 0;
                &&& missing ==> r is None && *final(self) == (Self {
                    status: final(self).status,
                    ..*old(self)
                }) && final(self).status@ == "请输入账号与密码"@
                &&& !missing ==> old(self).starts("登录"@, *final(self), r)
                &&& r matches Some(op) ==> op == (AstoreOp::Login { username, password })
            }),
    {
        if text::is_blank(username.as_str()) || text::first_char(password.as_str()).is_none() {
            self.status = "请输入账号与密码".to_owned();
            return None;
        }
        self.run_op("登录", AstoreOp::Login { username, password })
    }

    /// Asks what kind of project this is, where somebody is signed in.
    pub fn detect(&mut self) -> (r: Option<AstoreOp>)
        ensures
            !old(self).signed_in() ==> r is None && *final(self) == *old(self),
            old(self).signed_in() ==> old(self).starts("检测项目"@, *final(self), r),
            r matches Some(op) ==> op == (AstoreOp::Detect { root: old(self).project_root }),
    {
        if text::first_char(self.session.sso_token.as_str()).is_none() {
            return None;
        }
        let root = self.project_root.clone();
        self.run_op("检测项目", AstoreOp::Detect { root })
    }

    /// Moves to another project and asks what kind it is.
    pub fn set_project(&mut self, root: String) -> (r: Option<AstoreOp>)
        ensures
            ({
                let moved = (Self { project_root: root, ..*old(self) });
                &&& !moved.signed_in() ==> r is None && *final(self) == moved
                &&& moved.signed_in() ==> moved.starts("检测项目"@, *final(self), r)
            }),
            r matches Some(op) ==> op == (AstoreOp::Detect { root }),
    {
        self.project_root = root;
        self.detect()
    }

    /// Switches to the environment `env`.
    pub fn set_env(&mut self, env: String) -> (r: Option<AstoreOp>)
        ensures
            old(self).starts("切换环境"@, *final(self), r),
            r matches Some(op) ==> op == (AstoreOp::SetEnv { env }),
    {
        self.run_op("切换环境", AstoreOp::SetEnv { env })
    }

    /// Hands the current branch of the project to the service.
    pub fn sync_code(&mut self) -> (r: Option<AstoreOp>)
        ensures
            old(self).starts("同步代码"@, *final(self), r),
            r matches Some(op) ==> op == (AstoreOp::SyncCode { cwd: old(self).project_root }),
    {
        let cwd = self.project_root.clone();
        self.run_op("同步代码", AstoreOp::SyncCode { cwd })
    }

    /// Publishes the project.
    pub fn publish(&mut self) -> (r: Option<AstoreOp>)
        ensures
            old(self).starts("发布"@, *final(self), r),
            r matches Some(op) ==> op == AstoreOp::Publish,
    {
        self.run_op("发布", AstoreOp::Publish)
    }

    /// Signs out.
    pub fn logout(&mut self) -> (r: Option<AstoreOp>)
        ensures
            old(self).starts("登出"@, *final(self), r),
            r matches Some(op) ==> op == AstoreOp::Logout,
    {
        self.run_op("登出", AstoreOp::Logout)
    }

    /// The address to open is there, or why there is none: what to open.
    pub fn url_read(&mut self, url: Result<String, String>) -> (open: Option<String>)
        ensures
            *final(self) == (Self { status: final(self).status, ..*old(self) }),
            url matches Ok(u) ==> open == Some(u) && final(self).status@ == "已在浏览器打开"@,
            url matches Err(e) ==> open is None && final(self).status@ == "失败: "@ + e@,
    {
        match url {
            Ok(u) => {
                self.status = "已在浏览器打开".to_owned();
                Some(u)
            },
            Err(e) => {
                self.status = text::cat2("失败: ", e.as_str());
                None
            },
        }
    }

    /// Whether somebody is signed in, which decides what the panel shows.
    pub fn logged_in(&self) -> (r: bool)
        ensures
            r == self.signed_in(),
    {
        text::first_char(self.session.sso_token.as_str()).is_some()
    }

    /// The line about the project.
    pub fn project_line(&self) -> (r: String)
        ensures
            r@ == "项目: "@ + self.session.project_type@ + " · 模板: "@ + (
            match self.session.template_id {
                Some(v) => text::dec_int(v as int),
                None => "-"@,
            }),
    {
        let id = match self.session.template_id {
            Some(v) => text::dec_i64(v),
            None => "-".to_owned(),
        };
        text::cat4("项目: ", self.session.project_type.as_str(), " · 模板: ", id.as_str())
    }
}

/// Logging in needs a name and a password and sends them as they were typed; one thing is done at a
/// time.
pub proof fn law_logging_in_needs_both(p: &mut AstorePanel, username: String, password: String, r: Option<AstoreOp>)
    requires
        call_ensures(AstorePanel::login, (p, username, password), r),
    ensures
        text::trimmed(username@).len() == 0 || password@.len() == 0 ==> r is None,
        old(p).busy ==> r is None,
        text::trimmed(username@).len() > 0 && password@.len() > 0 && !old(p).busy ==> r == Some(
            AstoreOp::Login { username, password },
        ) && final(p).busy,
        final(p).session == old(p).session,
{
    text::lemma_trimmed_empty(username@);
}

/// A project is looked at only by one who is signed in, and in its own folder.
pub proof fn law_detecting_needs_a_session(p: &mut AstorePanel, root: String, r: Option<AstoreOp>)
    requires
        call_ensures(AstorePanel::set_project, (p, root), r),
    ensures
        final(p).project_root == root,
        old(p).session.sso_token@.len() == 0 ==> r is None,
        r is Some ==> r == Some(AstoreOp::Detect { root }),
        old(p).session.sso_token@.len() > 0 && !old(p).busy ==> r is Some,
{
}

/// What is done ends with the session that came of it, and with what was replied or went wrong at the
/// end of the status.
pub proof fn law_an_operation_ends(
    p: &mut AstorePanel,
    result: Result<AstoreReply, String>,
    session: AstoreSession,
)
    requires
        call_ensures(AstorePanel::op_done, (p, result, session), ()),
    ensures
        !final(p).busy,
        final(p).session == session,
        final(p).project_root == old(p).project_root,
        result matches Err(e) ==> e@.is_suffix_of(final(p).status@),
        result matches Ok(AstoreReply::LoggedIn { nick_name }) ==> nick_name@.is_suffix_of(
            final(p).status@,
        ),
        result matches Ok(AstoreReply::Detected { project_type }) ==> project_type@.is_suffix_of(
            final(p).status@,
        ),
        result matches Ok(AstoreReply::EnvSet { env }) ==> env@.is_suffix_of(final(p).status@),
        result matches Ok(AstoreReply::Message(m)) ==> final(p).status@ == m@,
{
    let s = final(p).status@;
    match result {
        Err(e) => {
            assert(s.skip(s.len() - e@.len()) =~= e@);
        },
        Ok(AstoreReply::LoggedIn { nick_name }) => {
            assert(s.skip(s.len() - nick_name@.len()) =~= nick_name@);
        },
        Ok(AstoreReply::Detected { project_type }) => {
            assert(s.skip(s.len() - project_type@.len()) =~= project_type@);
        },
        Ok(AstoreReply::EnvSet { env }) => {
            assert(s.skip(s.len() - env@.len()) =~= env@);
        },
        _ => {},
    }
}

/// Each button asks for its own operation, where nothing else runs, in the folder of the project.
pub proof fn law_buttons_ask_for_their_operation(
    a: &mut AstorePanel,
    b: &mut AstorePanel,
    c: &mut AstorePanel,
    d: &mut AstorePanel,
    env: String,
    ra: Option<AstoreOp>,
    rb: Option<AstoreOp>,
    rc: Option<AstoreOp>,
    rd: Option<AstoreOp>,
)
    requires
        call_ensures(AstorePanel::sync_code, (a,), ra),
        call_ensures(AstorePanel::set_env, (b, env), rb),
        call_ensures(AstorePanel::publish, (c,), rc),
        call_ensures(AstorePanel::detect, (d,), rd),
    ensures
        !old(a).busy ==> ra == Some(AstoreOp::SyncCode { cwd: old(a).project_root }) && final(a).busy,
        !old(b).busy ==> rb == Some(AstoreOp::SetEnv { env }) && final(b).busy,
        !old(c).busy ==> rc == Some(AstoreOp::Publish) && final(c).busy,
        old(a).busy ==> ra is None,
        old(b).busy ==> rb is None,
        old(c).busy ==> rc is None,
        old(d).session.sso_token@.len() == 0 || old(d).busy ==> rd is None,
        old(d).session.sso_token@.len() > 0 && !old(d).busy ==> rd == Some(
            AstoreOp::Detect { root: old(d).project_root },
        ),
{
}

/// The page is opened at the address that came, and what went wrong is told; the line on the project
/// begins with its type.
pub proof fn law_addresses_are_opened_as_they_came(
    p: &mut AstorePanel,
    url: Result<String, String>,
    open: Option<String>,
    q: AstorePanel,
    line: String,
)
    requires
        call_ensures(AstorePanel::url_read, (p, url), open),
        call_ensures(AstorePanel::project_line, (&q,), line),
    ensures
        url matches Ok(u) ==> open == Some(u),
        url matches Err(e) ==> open is None && e@.is_suffix_of(final(p).status@),
        final(p).session == old(p).session && final(p).busy == old(p).busy,
        exists|a: Seq<char>, b: Seq<char>| line@ == #[trigger] (a + q.session.project_type@ + b),
        q.session.template_id matches Some(v) ==> text::dec_int(v as int).is_suffix_of(line@),
{
    if let Err(e) = url {
        let s = final(p).status@;
        assert(s.skip(s.len() - e@.len()) =~= e@);
    }
    let t = q.session.project_type@;
    let end = line@.skip(("项目: "@.len() + t.len()) as int);
    assert(line@ =~= "项目: "@ + t + end);
    if let Some(v) = q.session.template_id {
        let n = text::dec_int(v as int);
        assert(line@.skip(line@.len() - n.len()) =~= n);
    }
}

} // verus!

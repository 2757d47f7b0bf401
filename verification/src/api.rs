//! The daemon's request handling. Each request is an exchange that the
//! service drives step by step: the exchange decides, the service performs
//! what it is asked (running hooks, reading the vault file, installing or
//! clearing the vault) and hands back what came of it.
use crate::hooks::{HookContext, HookContextView};
use crate::kdbx::{kdbx_decrypt, keepass1_file, KdbxContents};
use crate::secret::{secret_text, Secret};
use crate::vault::{
    entries_view, find_model, search_model, tree_model, EntryView, NodeView, Vault, VaultEntry,
    VaultNode,
};
use vstd::prelude::*;

verus! {

/// Who is calling: the user id of the peer on the socket.
pub struct UdsConnectInfo {
    pub uid: u32,
}

/// The body of a search request.
pub struct SearchRequest {
    pub query: String,
}

/// The body of an unlock request.
pub struct UnlockRequest {
    pub password: Secret,
}

/// Why a request failed.
pub enum AppError {
    /// The vault is locked.
    Locked,
    /// No entry has the requested identifier.
    NotFound,
    /// A pre-hook, or the state of the vault, refused the request.
    HookRejected(String),
    /// The vault could not be opened.
    Internal(String),
}

pub enum AppErrorView {
    Locked,
    NotFound,
    HookRejected(Seq<char>),
    Internal(Seq<char>),
}

impl View for AppError {
    type V = AppErrorView;

    open spec fn view(&self) -> AppErrorView {
        match self {
            AppError::Locked => AppErrorView::Locked,
            AppError::NotFound => AppErrorView::NotFound,
            AppError::HookRejected(m) => AppErrorView::HookRejected(m@),
            AppError::Internal(m) => AppErrorView::Internal(m@),
        }
    }
}

/// An HTTP answer: a status code and a text body.
pub struct HttpReply {
    pub status: u16,
    pub body: String,
}

/// The answer to each error: 423 for a locked vault, 404 for a missing
/// entry, 403 with the refusal's message, and 500 naming the failure.
pub open spec fn error_reply(e: AppErrorView) -> (u16, Seq<char>) {
    match e {
        AppErrorView::Locked => (423, "Database is locked"@),
        AppErrorView::NotFound => (404, "Not Found"@),
        AppErrorView::HookRejected(m) => (403, m),
        AppErrorView::Internal(m) => (500, "Error: "@ + m),
    }
}

impl AppError {
    /// The HTTP answer to this error.
    pub fn into_response(self) -> (r: HttpReply)
        ensures
            (r.status, r.body@) == error_reply(self@),
    {
        match self {
            AppError::Locked => HttpReply { status: 423, body: "Database is locked".to_owned() },
            AppError::NotFound => HttpReply { status: 404, body: "Not Found".to_owned() },
            AppError::HookRejected(m) => HttpReply { status: 403, body: m },
            AppError::Internal(m) => {
                let mut body = "Error: ".to_owned();
                body.append(m.as_str());
                HttpReply { status: 500, body }
            },
        }
    }
}

/// What a request asks for.
pub enum Route {
    Health,
    Unlock(UnlockRequest),
    Lock,
    Tree,
    Entry(String),
    Search(SearchRequest),
}

pub enum RouteView {
    Health,
    Unlock(Seq<char>),
    Lock,
    Tree,
    Entry(Seq<char>),
    Search(Seq<char>),
}

impl View for Route {
    type V = RouteView;

    open spec fn view(&self) -> RouteView {
        match self {
            Route::Health => RouteView::Health,
            Route::Unlock(r) => RouteView::Unlock(secret_text(r.password)),
            Route::Lock => RouteView::Lock,
            Route::Tree => RouteView::Tree,
            Route::Entry(u) => RouteView::Entry(u@),
            Route::Search(r) => RouteView::Search(r.query@),
        }
    }
}

/// What a request is answered.
pub enum Reply {
    /// 200 with no body.
    Done,
    Tree(VaultNode),
    Entry(VaultEntry),
    Entries(Vec<VaultEntry>),
    Failed(AppError),
}

pub enum ReplyView {
    Done,
    Tree(NodeView),
    Entry(EntryView),
    Entries(Seq<EntryView>),
    Failed(AppErrorView),
}

impl View for Reply {
    type V = ReplyView;

    open spec fn view(&self) -> ReplyView {
        match self {
            Reply::Done => ReplyView::Done,
            Reply::Tree(n) => ReplyView::Tree(n@),
            Reply::Entry(e) => ReplyView::Entry(e@),
            Reply::Entries(v) => ReplyView::Entries(entries_view(v@)),
            Reply::Failed(e) => ReplyView::Failed(e@),
        }
    }
}

/// What came of the last thing the service was asked to do.
pub enum Event {
    /// The request arrived.
    Start,
    /// The pre-hooks ran, and let the request through or refused it.
    PreHooksDone(Result<(), String>),
    /// The vault file was read, or could not be.
    FileRead(Option<Vec<u8>>),
    /// The opened vault is in place.
    Installed,
    /// The vault is cleared.
    Cleared,
    /// The post-hooks ran.
    PostHooksDone,
}

pub enum EventView {
    Start,
    PreHooksDone(Result<(), Seq<char>>),
    FileRead(Option<Seq<u8>>),
    Installed,
    Cleared,
    PostHooksDone,
}

impl View for Event {
    type V = EventView;

    open spec fn view(&self) -> EventView {
        match self {
            Event::Start => EventView::Start,
            Event::PreHooksDone(Ok(())) => EventView::PreHooksDone(Ok(())),
            Event::PreHooksDone(Err(m)) => EventView::PreHooksDone(Err(m@)),
            Event::FileRead(Some(b)) => EventView::FileRead(Some(b@)),
            Event::FileRead(None) => EventView::FileRead(None),
            Event::Installed => EventView::Installed,
            Event::Cleared => EventView::Cleared,
            Event::PostHooksDone => EventView::PostHooksDone,
        }
    }
}

/// What the service is asked to do next.
pub enum Action {
    RunPreHooks(HookContext),
    /// Read the vault file and hand back its bytes.
    ReadVaultFile,
    /// Put this opened vault in place of the locked one.
    Install(Vault),
    /// Drop the vault, locking it.
    Clear,
    RunPostHooks(HookContext),
    /// Answer the request; the exchange is over.
    Respond(Reply),
}

pub enum ActionView {
    RunPreHooks(HookContextView),
    ReadVaultFile,
    Install(KdbxContents),
    Clear,
    RunPostHooks(HookContextView),
    Respond(ReplyView),
}

impl View for Action {
    type V = ActionView;

    open spec fn view(&self) -> ActionView {
        match self {
            Action::RunPreHooks(c) => ActionView::RunPreHooks(c@),
            Action::ReadVaultFile => ActionView::ReadVaultFile,
            Action::Install(v) => ActionView::Install(v@),
            Action::Clear => ActionView::Clear,
            Action::RunPostHooks(c) => ActionView::RunPostHooks(c@),
            Action::Respond(r) => ActionView::Respond(r@),
        }
    }
}

/// Where an exchange stands.
#[derive(Clone, Copy, PartialEq, Eq, Structural)]
pub enum Stage {
    Begin,
    AwaitPre,
    AwaitFile,
    AwaitInstall,
    AwaitClear,
    AwaitPost,
    Finished,
}

/// The handling of one request.
pub struct Exchange {
    pub uid: u32,
    pub route: Route,
    pub stage: Stage,
    /// The context the hooks see, once it is known.
    pub ctx: Option<HookContext>,
    /// The answer held back while the post-hooks run.
    pub pending: Option<Reply>,
}

pub struct ExchangeView {
    pub uid: u32,
    pub route: RouteView,
    pub stage: Stage,
    pub ctx: Option<HookContextView>,
    pub pending: Option<ReplyView>,
}

impl View for Exchange {
    type V = ExchangeView;

    open spec fn view(&self) -> ExchangeView {
        ExchangeView {
            uid: self.uid,
            route: self.route@,
            stage: self.stage,
            ctx: match self.ctx {
                Some(c) => Some(c@),
                None => None,
            },
            pending: match self.pending {
                Some(p) => Some(p@),
                None => None,
            },
        }
    }
}

pub open spec fn vault_view(v: Option<Vault>) -> Option<KdbxContents> {
    match v {
        Some(x) => Some(x@),
        None => None,
    }
}

// ---------------------------------------------------------------------------
// The decisions.

pub open spec fn ctx_model(uid: u32, method: Seq<char>, path: Seq<char>, title: Option<Seq<char>>) -> HookContextView {
    HookContextView { client_uid: Some(uid), method, path, entry_title: title }
}

/// The exchange ends with the error `e` as its answer.
pub open spec fn fail_model(x: ExchangeView, e: AppErrorView) -> (ExchangeView, ActionView) {
    (
        ExchangeView { stage: Stage::Finished, pending: None, ..x },
        ActionView::Respond(ReplyView::Failed(e)),
    )
}

/// An event that the exchange did not ask for ends it with an internal
/// error.
pub open spec fn out_of_order_model(x: ExchangeView) -> (ExchangeView, ActionView) {
    fail_model(x, AppErrorView::Internal("request handled out of order"@))
}

/// The pre-hooks are to run with context `ctx`.
pub open spec fn pre_model(x: ExchangeView, ctx: HookContextView) -> (ExchangeView, ActionView) {
    (ExchangeView { stage: Stage::AwaitPre, ctx: Some(ctx), ..x }, ActionView::RunPreHooks(ctx))
}

/// The answer `p` is ready; the post-hooks are to run first.
pub open spec fn post_model(x: ExchangeView, p: ReplyView) -> (ExchangeView, ActionView) {
    match x.ctx {
        Some(ctx) => (
            ExchangeView { stage: Stage::AwaitPost, pending: Some(p), ..x },
            ActionView::RunPostHooks(ctx),
        ),
        None => out_of_order_model(x),
    }
}

/// How a request starts. A health check is answered at once. Unlocking and
/// locking run the pre-hooks first. Reading the tree,
/// an entry or a search needs an unlocked vault and is refused as `Locked`
/// before any hook runs; a lookup of an identifier that no entry has is
/// answered `NotFound`, also before the hooks, and otherwise the hooks see
/// the entry's title.
pub open spec fn begin_model(x: ExchangeView, v: Option<KdbxContents>) -> (ExchangeView, ActionView) {
    match x.route {
        RouteView::Health => (
            ExchangeView { stage: Stage::Finished, ..x },
            ActionView::Respond(ReplyView::Done),
        ),
        RouteView::Unlock(_) => pre_model(x, ctx_model(x.uid, "POST"@, "/vault/unlock"@, None)),
        RouteView::Lock => pre_model(x, ctx_model(x.uid, "POST"@, "/vault/lock"@, None)),
        RouteView::Tree => match v {
            None => fail_model(x, AppErrorView::Locked),
            Some(_) => pre_model(x, ctx_model(x.uid, "GET"@, "/vault/tree"@, None)),
        },
        RouteView::Entry(u) => match v {
            None => fail_model(x, AppErrorView::Locked),
            Some(c) => match find_model(c, u) {
                None => fail_model(x, AppErrorView::NotFound),
                Some(e) => pre_model(
                    ExchangeView { pending: Some(ReplyView::Entry(e)), ..x },
                    ctx_model(x.uid, "GET"@, "/vault/entry/"@ + u, Some(e.title)),
                ),
            },
        },
        RouteView::Search(_) => match v {
            None => fail_model(x, AppErrorView::Locked),
            Some(_) => pre_model(x, ctx_model(x.uid, "POST"@, "/vault/search"@, None)),
        },
    }
}

/// What follows the pre-hooks. A refusal is the answer, with its message.
/// Unlocking an unlocked vault is refused; otherwise the vault file is
/// read. Locking clears the vault. The tree and the search are computed now, and the found entry was
/// already; the post-hooks run before the answer goes out.
pub open spec fn after_pre_model(x: ExchangeView, v: Option<KdbxContents>, r: Result<(), Seq<char>>) -> (ExchangeView, ActionView) {
    match r {
        Err(m) => fail_model(x, AppErrorView::HookRejected(m)),
        Ok(()) => match x.route {
            RouteView::Unlock(_) => if v is Some {
                fail_model(x, AppErrorView::HookRejected("Vault is already unlocked"@))
            } else {
                (ExchangeView { stage: Stage::AwaitFile, ..x }, ActionView::ReadVaultFile)
            },
            RouteView::Lock => (ExchangeView { stage: Stage::AwaitClear, ..x }, ActionView::Clear),
            RouteView::Tree => match v {
                None => fail_model(x, AppErrorView::Locked),
                Some(c) => post_model(x, ReplyView::Tree(NodeView::Group(tree_model(c)))),
            },
            RouteView::Entry(_) => match x.pending {
                Some(p) => post_model(x, p),
                None => out_of_order_model(x),
            },
            RouteView::Search(q) => match v {
                None => fail_model(x, AppErrorView::Locked),
                Some(c) => post_model(x, ReplyView::Entries(search_model(c, q))),
            },
            _ => out_of_order_model(x),
        },
    }
}

/// What follows reading the vault file: where the file could not be read,
/// is a KeePass 1 file, or does not open with the password, the unlock
/// fails; otherwise the opened vault is to be put in place.
pub open spec fn after_file_model(x: ExchangeView, d: Option<Seq<u8>>) -> (ExchangeView, ActionView) {
    match x.route {
        RouteView::Unlock(pw) => match d {
            None => fail_model(x, AppErrorView::Internal("Failed to decrypt KDBX database"@)),
            Some(bytes) => if keepass1_file(bytes) {
                fail_model(x, AppErrorView::Internal("Failed to decrypt KDBX database"@))
            } else {
                match kdbx_decrypt(bytes, pw) {
                    None => fail_model(x, AppErrorView::Internal("Failed to decrypt KDBX database"@)),
                    Some(c) => (ExchangeView { stage: Stage::AwaitInstall, ..x }, ActionView::Install(c)),
                }
            },
        },
        _ => out_of_order_model(x),
    }
}

/// After the post-hooks the held answer goes out.
pub open spec fn finish_model(x: ExchangeView) -> (ExchangeView, ActionView) {
    match x.pending {
        Some(p) => (
            ExchangeView { stage: Stage::Finished, pending: None, ..x },
            ActionView::Respond(p),
        ),
        None => out_of_order_model(x),
    }
}

/// One step of an exchange: from where it stands, the vault as it is, and
/// what came of its last request, to where it stands next and what it asks
/// for.
pub open spec fn step_model(x: ExchangeView, v: Option<KdbxContents>, ev: EventView) -> (ExchangeView, ActionView) {
    match x.stage {
        Stage::Begin => match ev {
            EventView::Start => begin_model(x, v),
            _ => out_of_order_model(x),
        },
        Stage::AwaitPre => match ev {
            EventView::PreHooksDone(r) => after_pre_model(x, v, r),
            _ => out_of_order_model(x),
        },
        Stage::AwaitFile => match ev {
            EventView::FileRead(d) => after_file_model(x, d),
            _ => out_of_order_model(x),
        },
        Stage::AwaitInstall => match ev {
            EventView::Installed => post_model(x, ReplyView::Done),
            _ => out_of_order_model(x),
        },
        Stage::AwaitClear => match ev {
            EventView::Cleared => post_model(x, ReplyView::Done),
            _ => out_of_order_model(x),
        },
        Stage::AwaitPost => match ev {
            EventView::PostHooksDone => finish_model(x),
            _ => out_of_order_model(x),
        },
        Stage::Finished => out_of_order_model(x),
    }
}

impl HookContext {
    /// A copy of the context.
    pub fn duplicate(&self) -> (c: HookContext)
        ensures
            c@ == self@,
    {
        let title = match &self.entry_title {
            Some(t) => Some(t.clone()),
            None => None,
        };
        HookContext {
            client_uid: self.client_uid,
            method: self.method.clone(),
            path: self.path.clone(),
            entry_title: title,
        }
    }
}

impl Exchange {
    /// A request from user `uid`, not yet started.
    pub fn new(uid: u32, route: Route) -> (x: Exchange)
        ensures
            x@ == (ExchangeView { uid, route: route@, stage: Stage::Begin, ctx: None, pending: None }),
    {
        Exchange { uid, route, stage: Stage::Begin, ctx: None, pending: None }
    }

    /// Takes the exchange one step further; see `step_model`.
    pub fn step(&mut self, vault: &Option<Vault>, event: Event) -> (a: Action)
        ensures
            (final(self)@, a@) == step_model(old(self)@, vault_view(*vault), event@),
    {
        match self.stage {
            Stage::Begin => match event {
                Event::Start => self.begin(vault),
                _ => self.out_of_order(),
            },
            Stage::AwaitPre => match event {
                Event::PreHooksDone(r) => self.after_pre(vault, r),
                _ => self.out_of_order(),
            },
            Stage::AwaitFile => match event {
                Event::FileRead(d) => self.after_file(d),
                _ => self.out_of_order(),
            },
            Stage::AwaitInstall => match event {
                Event::Installed => self.to_post(Reply::Done),
                _ => self.out_of_order(),
            },
            Stage::AwaitClear => match event {
                Event::Cleared => self.to_post(Reply::Done),
                _ => self.out_of_order(),
            },
            Stage::AwaitPost => match event {
                Event::PostHooksDone => self.finish(),
                _ => self.out_of_order(),
            },
            Stage::Finished => self.out_of_order(),
        }
    }

    fn fail(&mut self, e: AppError) -> (a: Action)
        ensures
            (final(self)@, a@) == fail_model(old(self)@, e@),
    {
        self.stage = Stage::Finished;
        self.pending = None;
        Action::Respond(Reply::Failed(e))
    }

    fn out_of_order(&mut self) -> (a: Action)
        ensures
            (final(self)@, a@) == out_of_order_model(old(self)@),
    {
        self.fail(AppError::Internal("request handled out of order".to_owned()))
    }

    fn to_pre(&mut self, ctx: HookContext) -> (a: Action)
        ensures
            (final(self)@, a@) == pre_model(old(self)@, ctx@),
    {
        let c = ctx.duplicate();
        self.stage = Stage::AwaitPre;
        self.ctx = Some(ctx);
        Action::RunPreHooks(c)
    }

    fn to_post(&mut self, p: Reply) -> (a: Action)
        ensures
            (final(self)@, a@) == post_model(old(self)@, p@),
    {
        match &self.ctx {
            Some(ctx) => {
                let c = ctx.duplicate();
                self.stage = Stage::AwaitPost;
                self.pending = Some(p);
                Action::RunPostHooks(c)
            },
            None => self.out_of_order(),
        }
    }

    fn begin(&mut self, vault: &Option<Vault>) -> (a: Action)
        ensures
            (final(self)@, a@) == begin_model(old(self)@, vault_view(*vault)),
    {
        let uid = self.uid;
        match &self.route {
            Route::Health => {
                self.stage = Stage::Finished;
                Action::Respond(Reply::Done)
            },
            Route::Unlock(_) => self.to_pre(HookContext::new(Some(uid), "POST", "/vault/unlock".to_owned(), None)),
            Route::Lock => self.to_pre(HookContext::new(Some(uid), "POST", "/vault/lock".to_owned(), None)),
            Route::Tree => match vault {
                None => self.fail(AppError::Locked),
                Some(_) => self.to_pre(HookContext::new(Some(uid), "GET", "/vault/tree".to_owned(), None)),
            },
            Route::Entry(u) => match vault {
                None => self.fail(AppError::Locked),
                Some(v) => {
                    let mut path = "/vault/entry/".to_owned();
                    path.append(u.as_str());
                    match v.find_entry(u.as_str()) {
                        None => self.fail(AppError::NotFound),
                        Some(e) => {
                            let title = e.title.clone();
                            let ctx = HookContext::new(Some(uid), "GET", path, Some(title));
                            self.pending = Some(Reply::Entry(e));
                            self.to_pre(ctx)
                        },
                    }
                },
            },
            Route::Search(_) => match vault {
                None => self.fail(AppError::Locked),
                Some(_) => self.to_pre(HookContext::new(Some(uid), "POST", "/vault/search".to_owned(), None)),
            },
        }
    }

    fn after_pre(&mut self, vault: &Option<Vault>, r: Result<(), String>) -> (a: Action)
        ensures
            (final(self)@, a@) == after_pre_model(
                old(self)@,
                vault_view(*vault),
                match r {
                    Ok(()) => Ok(()),
                    Err(m) => Err(m@),
                },
            ),
    {
        match r {
            Err(m) => self.fail(AppError::HookRejected(m)),
            Ok(()) => match &self.route {
                Route::Unlock(_) => if vault.is_some() {
                    self.fail(AppError::HookRejected("Vault is already unlocked".to_owned()))
                } else {
                    self.stage = Stage::AwaitFile;
                    Action::ReadVaultFile
                },
                Route::Lock => {
                    self.stage = Stage::AwaitClear;
                    Action::Clear
                },
                Route::Tree => match vault {
                    None => self.fail(AppError::Locked),
                    Some(v) => {
                        let t = v.get_tree();
                        self.to_post(Reply::Tree(t))
                    },
                },
                Route::Entry(_) => match self.pending.take() {
                    Some(p) => self.to_post(p),
                    None => self.out_of_order(),
                },
                Route::Search(req) => match vault {
                    None => self.fail(AppError::Locked),
                    Some(v) => {
                        let found = v.search(req.query.as_str());
                        self.to_post(Reply::Entries(found))
                    },
                },
                _ => self.out_of_order(),
            },
        }
    }

    fn after_file(&mut self, d: Option<Vec<u8>>) -> (a: Action)
        requires
            old(self).stage == Stage::AwaitFile,
        ensures
            ({
                let dv = match d {
                    Some(b) => Some(b@),
                    None => None,
                };
                (final(self)@, a@) == after_file_model(old(self)@, dv)
            }),
    {
        let opened = match &self.route {
            Route::Unlock(req) => match &d {
                None => None,
                Some(bytes) => Some(Vault::load(bytes.as_slice(), &req.password)),
            },
            _ => {
                return self.out_of_order();
            },
        };
        match opened {
            None => self.fail(AppError::Internal("Failed to decrypt KDBX database".to_owned())),
            Some(Err(_)) => self.fail(AppError::Internal("Failed to decrypt KDBX database".to_owned())),
            Some(Ok(v)) => {
                self.stage = Stage::AwaitInstall;
                Action::Install(v)
            },
        }
    }

    fn finish(&mut self) -> (a: Action)
        ensures
            (final(self)@, a@) == finish_model(old(self)@),
    {
        match self.pending.take() {
            Some(p) => {
                self.stage = Stage::Finished;
                Action::Respond(p)
            },
            None => self.out_of_order(),
        }
    }
}

} // verus!

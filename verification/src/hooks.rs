//! Audit hooks: the context a request hands them, the hooks the library
//! knows, and the order in which a registry runs its hooks.
use crate::io_util::{json_string, json_string_text};
use crate::text::{decimal, push_decimal};
use vstd::prelude::*;

verus! {

/// What a hook learns of a request.
pub struct HookContext {
    pub client_uid: Option<u32>,
    pub method: String,
    pub path: String,
    pub entry_title: Option<String>,
}

/// A hook context as plain values.
pub struct HookContextView {
    pub client_uid: Option<u32>,
    pub method: Seq<char>,
    pub path: Seq<char>,
    pub entry_title: Option<Seq<char>>,
}

impl View for HookContext {
    type V = HookContextView;

    open spec fn view(&self) -> HookContextView {
        HookContextView {
            client_uid: self.client_uid,
            method: self.method@,
            path: self.path@,
            entry_title: self.entry_title.deep_view(),
        }
    }
}

impl HookContext {
    pub fn new(client_uid: Option<u32>, method: &str, path: String, entry_title: Option<String>) -> (c: HookContext)
        ensures
            c@ == (HookContextView {
                client_uid,
                method: method@,
                path: path@,
                entry_title: entry_title.deep_view(),
            }),
    {
        HookContext { client_uid, method: method.to_owned(), path, entry_title }
    }
}

/// The pre-hook that every registry starts with: it lets every request
/// through (and the service logs the attempt).
pub struct LoggingPreHook;

impl LoggingPreHook {
    /// Lets the request through.
    pub fn run(&self, ctx: &HookContext) -> (r: Result<(), String>)
        ensures
            r is Ok,
    {
        Ok(())
    }
}

/// A post-hook that notifies a Feishu (Lark) webhook of each access to an
/// entry.
pub struct FeishuPostHook {
    pub webhook_url: String,
}

/// How `{:?}` writes an optional user id: `Some(<decimal>)` or `None`.
pub open spec fn uid_debug(uid: Option<u32>) -> Seq<char> {
    match uid {
        Some(n) => "Some("@ + decimal(n as nat) + ")"@,
        None => "None"@,
    }
}

/// The text of the notification for a request that names an entry titled
/// `title`.
pub open spec fn notification_text(title: Seq<char>, ctx: HookContextView) -> Seq<char> {
    "Vault access notification:\nEntry: "@ + title + "\nUID: "@ + uid_debug(ctx.client_uid)
        + "\nPath: "@ + ctx.path
}

/// The message the hook posts to the webhook for the text `text`: a Feishu
/// text message as a JSON object, its members in the order `serde_json`
/// writes an object's keys.
pub open spec fn feishu_message(text: Seq<char>) -> Seq<char> {
    "{\"content\":{\"text\":"@ + json_string_text(text) + "},\"msg_type\":\"text\"}"@
}

impl FeishuPostHook {
    /// The text the hook sends for `ctx`: a notification naming the entry,
    /// the client's user id and the path, where the request names an entry;
    /// nothing is sent otherwise.
    pub fn notification(&self, ctx: &HookContext) -> (r: Option<String>)
        ensures
            match ctx@.entry_title {
                Some(t) => r matches Some(s) && s@ == notification_text(t, ctx@),
                None => r is None,
            },
    {
        match &ctx.entry_title {
            Some(title) => {
                let mut s = String::new();
                s.append("Vault access notification:\nEntry: ");
                s.append(title.as_str());
                s.append("\nUID: ");
                match ctx.client_uid {
                    Some(n) => {
                        s.append("Some(");
                        push_decimal(&mut s, n as u64);
                        s.append(")");
                    },
                    None => {
                        s.append("None");
                    },
                }
                s.append("\nPath: ");
                s.append(ctx.path.as_str());
                proof {
                    assert(s@ =~= notification_text(title@, ctx@));
                }
                Some(s)
            },
            None => None,
        }
    }

    /// The JSON body the hook posts for `ctx`: the notification as a Feishu
    /// text message, where the request names an entry; nothing is sent
    /// otherwise.
    pub fn notification_body(&self, ctx: &HookContext) -> (r: Option<String>)
        ensures
            match ctx@.entry_title {
                Some(t) => r matches Some(s) && s@ == feishu_message(notification_text(t, ctx@)),
                None => r is None,
            },
    {
        match self.notification(ctx) {
            Some(text) => {
                let mut body = "{\"content\":{\"text\":".to_owned();
                let quoted = json_string(text.as_str());
                body.append(quoted.as_str());
                body.append("},\"msg_type\":\"text\"}");
                Some(body)
            },
            None => None,
        }
    }
}

/// A pre-hook in a registry: the built-in logging hook, or one that the
/// service supplies.
pub enum PreHookEntry<H> {
    Logging(LoggingPreHook),
    Custom(H),
}

/// A post-hook in a registry: the built-in Feishu notifier, or one that the
/// service supplies.
pub enum PostHookEntry<H> {
    Feishu(FeishuPostHook),
    Custom(H),
}

/// What a registry asks for next while its pre-hooks run.
pub enum PreStep {
    /// Run the pre-hook at this index.
    Run(usize),
    /// All is decided: `Ok` lets the request through, `Err` refuses it.
    Finish(Result<(), String>),
}

/// Whether `results` holds a refusal before index `n`.
pub open spec fn refused_before(results: Seq<Result<(), String>>, n: int) -> bool {
    exists|i: int| 0 <= i < n && #[trigger] results[i] is Err
}

/// The index of the first refusal in `results`.
pub open spec fn first_refusal(results: Seq<Result<(), String>>) -> int {
    choose|i: int|
        0 <= i < results.len() && results[i] is Err && !refused_before(results, i)
}

/// What to do next with `n` pre-hooks when those that ran gave `results`.
pub open spec fn pre_step(n: nat, results: Seq<Result<(), String>>) -> PreStep {
    if refused_before(results, results.len() as int) {
        PreStep::Finish(results[first_refusal(results)])
    } else if results.len() < n {
        PreStep::Run(results.len() as usize)
    } else {
        PreStep::Finish(Ok(()))
    }
}

/// The registry of pre- and post-hooks.
pub struct HookRegistry<P, Q> {
    pub pre_hooks: Vec<PreHookEntry<P>>,
    pub post_hooks: Vec<PostHookEntry<Q>>,
}

impl<P, Q> HookRegistry<P, Q> {
    /// A registry with the logging pre-hook alone and no post-hooks.
    pub fn new() -> (r: Self)
        ensures
            r.pre_hooks@.len() == 1,
            r.pre_hooks@[0] is Logging,
            r.post_hooks@.len() == 0,
    {
        let mut pre_hooks: Vec<PreHookEntry<P>> = Vec::new();
        pre_hooks.push(PreHookEntry::Logging(LoggingPreHook));
        HookRegistry { pre_hooks, post_hooks: Vec::new() }
    }

    /// Adds a post-hook, to run after those already there.
    pub fn add_post_hook(&mut self, hook: PostHookEntry<Q>)
        ensures
            final(self).post_hooks@ == old(self).post_hooks@.push(hook),
            final(self).pre_hooks@ == old(self).pre_hooks@,
    {
        self.post_hooks.push(hook);
    }

    /// What to do next while the pre-hooks run, given the results of those
    /// that ran so far (in order): the first refusal refuses the request
    /// with its message and no later hook runs; otherwise the next hook
    /// runs; when all have let it through, the request goes on.
    pub fn next_pre(&self, results: &Vec<Result<(), String>>) -> (s: PreStep)
        ensures
            s == pre_step(self.pre_hooks@.len(), results@),
    {
        let mut i: usize = 0;
        while i < results.len()
            invariant
                i <= results@.len(),
                !refused_before(results@, i as int),
            decreases results@.len() - i,
        {
            match &results[i] {
                Err(msg) => {
                    proof {
                        assert(results@[i as int] is Err);
                        let k = first_refusal(results@);
                        assert(0 <= k < results@.len() && results@[k] is Err && !refused_before(results@, k));
                        assert(k == i) by {
                            if k < i {
                                assert(refused_before(results@, i as int));
                            } else if k > i {
                                assert(refused_before(results@, k));
                            }
                        }
                    }
                    return PreStep::Finish(Err(msg.clone()));
                },
                Ok(()) => {},
            }
            i = i + 1;
        }
        if results.len() < self.pre_hooks.len() {
            PreStep::Run(results.len())
        } else {
            PreStep::Finish(Ok(()))
        }
    }

    /// The post-hook to run after `done` of them have run: the next in
    /// order, until all have.
    pub fn next_post(&self, done: usize) -> (r: Option<usize>)
        ensures
            r == if done < self.post_hooks@.len() { Some(done) } else { None::<usize> },
    {
        if done < self.post_hooks.len() {
            Some(done)
        } else {
            None
        }
    }
}

/// Running the pre-hooks lets a request through exactly when every hook let
/// it through: once all `n` hooks have answered, the registry finishes with
/// `Ok` if and only if every answer was `Ok`, and otherwise with the first
/// refusal.
pub proof fn law_pre_hooks_unanimous(n: nat, results: Seq<Result<(), String>>)
    requires
        results.len() == n,
    ensures
        pre_step(n, results) == PreStep::Finish(Ok(())) <==> forall|i: int|
            0 <= i < results.len() ==> #[trigger] results[i] is Ok,
        pre_step(n, results) is Finish,
{
    if refused_before(results, results.len() as int) {
        let i = choose|i: int| 0 <= i < results.len() && #[trigger] results[i] is Err;
        let ghost j = first_refusal_exists(results, i);
    }
}

proof fn first_refusal_exists(results: Seq<Result<(), String>>, i: int) -> (j: int)
    requires
        0 <= i < results.len(),
        results[i] is Err,
    ensures
        0 <= first_refusal(results) < results.len(),
        results[first_refusal(results)] is Err,
        !refused_before(results, first_refusal(results)),
    decreases i,
{
    if refused_before(results, i) {
        let k = choose|k: int| 0 <= k < i && #[trigger] results[k] is Err;
        first_refusal_exists(results, k)
    } else {
        i
    }
}


/// The pre-hooks run one after another, each exactly once, in the
/// registry's order: as long as no hook has refused and some have not run,
/// the next to run is the one after those that answered. So the registry
/// finishes with `Ok` only once all `n` hooks have answered `Ok`, and the
/// first refusal among the answers is what it finishes with.
pub proof fn law_pre_hooks_run_in_order(n: nat, results: Seq<Result<(), String>>, i: int)
    ensures
        results.len() < n && (forall|j: int| 0 <= j < results.len() ==> #[trigger] results[j] is Ok)
            ==> pre_step(n, results) == PreStep::Run(results.len() as usize),
        pre_step(n, results) == PreStep::Finish(Ok(())) ==> results.len() >= n && forall|j: int|
            0 <= j < results.len() ==> #[trigger] results[j] is Ok,
        0 <= i < results.len() && results[i] is Err && (forall|j: int| 0 <= j < i ==> #[trigger] results[j] is Ok)
            ==> pre_step(n, results) == PreStep::Finish(results[i]),
{
    if results.len() < n && (forall|j: int| 0 <= j < results.len() ==> #[trigger] results[j] is Ok) {
        assert(!refused_before(results, results.len() as int));
    }
    if pre_step(n, results) == PreStep::Finish(Ok(())) {
        if refused_before(results, results.len() as int) {
            let k = choose|k: int| 0 <= k < results.len() && #[trigger] results[k] is Err;
            let ghost f = first_refusal_exists(results, k);
        }
    }
    if 0 <= i < results.len() && results[i] is Err && (forall|j: int| 0 <= j < i ==> #[trigger] results[j] is Ok) {
        assert(refused_before(results, results.len() as int));
        let ghost f = first_refusal_exists(results, i);
        let k = first_refusal(results);
        if k < i {
            assert(results[k] is Ok);
        } else if k > i {
            assert(refused_before(results, k));
        }
    }
}

} // verus!

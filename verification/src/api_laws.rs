//! Laws of request handling, stated over `step_model`, the decision that
//! `Exchange::step` makes.
use crate::api::{
    error_reply, step_model, ActionView, AppErrorView, EventView, ExchangeView, ReplyView,
    RouteView, Stage,
};
use crate::kdbx::{kdbx_decrypt, keepass1_file, KdbxContents};
use crate::vault::{find_model, search_model, tree_model, NodeView};
use crate::hooks::HookContextView;
use vstd::prelude::*;

verus! {

/// A fresh exchange for a request from `uid`.
pub open spec fn fresh(uid: u32, route: RouteView) -> ExchangeView {
    ExchangeView { uid, route, stage: Stage::Begin, ctx: None, pending: None }
}

/// Reading a locked vault is refused at once: the tree, an entry or a
/// search is answered `Locked` (423) before any hook runs.
pub proof fn law_locked_refuses_reads(uid: u32, route: RouteView)
    requires
        route is Tree || route is Entry || route is Search,
    ensures
        step_model(fresh(uid, route), None, EventView::Start).1 == ActionView::Respond(
            ReplyView::Failed(AppErrorView::Locked),
        ),
        error_reply(AppErrorView::Locked).0 == 423,
{
}

/// A refusal by the pre-hooks is the answer: the request ends with 403 and
/// the refusal's message, whatever the request and the vault.
pub proof fn law_refusal_is_answered(x: ExchangeView, v: Option<KdbxContents>, m: Seq<char>)
    requires
        x.stage == Stage::AwaitPre,
    ensures
        step_model(x, v, EventView::PreHooksDone(Err(m))).1 == ActionView::Respond(
            ReplyView::Failed(AppErrorView::HookRejected(m)),
        ),
        step_model(x, v, EventView::PreHooksDone(Err(m))).0.stage == Stage::Finished,
        error_reply(AppErrorView::HookRejected(m)) == (403u16, m),
{
}

/// Unlocking an unlocked vault is refused once the hooks let it through,
/// and the vault file is not read.
pub proof fn law_no_second_unlock(uid: u32, pw: Seq<char>, c: KdbxContents)
    ensures
        ({
            let (x1, a1) = step_model(fresh(uid, RouteView::Unlock(pw)), Some(c), EventView::Start);
            &&& a1 is RunPreHooks
            &&& step_model(x1, Some(c), EventView::PreHooksDone(Ok(()))).1 == ActionView::Respond(
                ReplyView::Failed(AppErrorView::HookRejected("Vault is already unlocked"@)),
            )
        }),
{
}

/// Unlocking a locked vault with the right password, the hooks letting it
/// through and the file read, puts in place a vault that holds what the
/// file decrypts to, and answers 200 after the post-hooks; a tree read
/// afterwards gives the tree of those contents.
pub proof fn law_unlock_then_read(uid: u32, pw: Seq<char>, bytes: Seq<u8>, c: KdbxContents)
    requires
        !keepass1_file(bytes),
        kdbx_decrypt(bytes, pw) == Some(c),
    ensures
        ({
            let (x1, a1) = step_model(fresh(uid, RouteView::Unlock(pw)), None, EventView::Start);
            let (x2, a2) = step_model(x1, None, EventView::PreHooksDone(Ok(())));
            let (x3, a3) = step_model(x2, None, EventView::FileRead(Some(bytes)));
            let (x4, a4) = step_model(x3, Some(c), EventView::Installed);
            let (x5, a5) = step_model(x4, Some(c), EventView::PostHooksDone);
            &&& a1 is RunPreHooks
            &&& a2 == ActionView::ReadVaultFile
            &&& a3 == ActionView::Install(c)
            &&& a4 is RunPostHooks
            &&& a5 == ActionView::Respond(ReplyView::Done)
            &&& x5.stage == Stage::Finished
        }),
        ({
            let (y1, b1) = step_model(fresh(uid, RouteView::Tree), Some(c), EventView::Start);
            let (y2, b2) = step_model(y1, Some(c), EventView::PreHooksDone(Ok(())));
            let (y3, b3) = step_model(y2, Some(c), EventView::PostHooksDone);
            &&& b1 is RunPreHooks
            &&& b2 is RunPostHooks
            &&& b3 == ActionView::Respond(ReplyView::Tree(NodeView::Group(tree_model(c))))
        }),
{
}

/// Unlocking fails without touching the vault where the file cannot be read
/// or does not open with the password.
pub proof fn law_bad_file_fails_unlock(uid: u32, pw: Seq<char>, d: Option<Seq<u8>>)
    requires
        d is None || kdbx_decrypt(d->0, pw) is None,
    ensures
        ({
            let (x1, a1) = step_model(fresh(uid, RouteView::Unlock(pw)), None, EventView::Start);
            let (x2, a2) = step_model(x1, None, EventView::PreHooksDone(Ok(())));
            step_model(x2, None, EventView::FileRead(d)).1 == ActionView::Respond(
                ReplyView::Failed(AppErrorView::Internal("Failed to decrypt KDBX database"@)),
            )
        }),
{
}

/// Looking up an entry answers `NotFound` before any hook runs where no
/// entry has the identifier; otherwise the hooks see the entry's title, and
/// once they let the request through the entry is the answer.
pub proof fn law_entry_lookup(uid: u32, u: Seq<char>, c: KdbxContents)
    ensures
        find_model(c, u) is None ==> step_model(fresh(uid, RouteView::Entry(u)), Some(c), EventView::Start).1
            == ActionView::Respond(ReplyView::Failed(AppErrorView::NotFound)),
        find_model(c, u) matches Some(e) ==> ({
            let (y1, b1) = step_model(fresh(uid, RouteView::Entry(u)), Some(c), EventView::Start);
            let (y2, b2) = step_model(y1, Some(c), EventView::PreHooksDone(Ok(())));
            let (y3, b3) = step_model(y2, Some(c), EventView::PostHooksDone);
            &&& b1 == ActionView::RunPreHooks(HookContextView {
                client_uid: Some(uid),
                method: "GET"@,
                path: "/vault/entry/"@ + u,
                entry_title: Some(e.title),
            })
            &&& b3 == ActionView::Respond(ReplyView::Entry(e))
        }),
{
}

/// Locking runs the pre-hooks first, with the context of `POST /vault/lock`.
/// A refusal is the answer, with its message, and the vault is not cleared;
/// once the hooks let it through the vault is cleared and, after the
/// post-hooks, the answer is 200.
pub proof fn law_lock_clears(uid: u32, v: Option<KdbxContents>, m: Seq<char>)
    ensures
        ({
            let ctx = HookContextView {
                client_uid: Some(uid),
                method: "POST"@,
                path: "/vault/lock"@,
                entry_title: None,
            };
            let (x1, a1) = step_model(fresh(uid, RouteView::Lock), v, EventView::Start);
            let (x2, a2) = step_model(x1, v, EventView::PreHooksDone(Ok(())));
            let (x3, a3) = step_model(x2, None, EventView::Cleared);
            let (x4, a4) = step_model(x3, None, EventView::PostHooksDone);
            let (y2, b2) = step_model(x1, v, EventView::PreHooksDone(Err(m)));
            &&& a1 == ActionView::RunPreHooks(ctx)
            &&& a2 == ActionView::Clear
            &&& a3 == ActionView::RunPostHooks(ctx)
            &&& a4 == ActionView::Respond(ReplyView::Done)
            &&& x4.stage == Stage::Finished
            &&& b2 == ActionView::Respond(ReplyView::Failed(AppErrorView::HookRejected(m)))
            &&& y2.stage == Stage::Finished
        }),
{
}

/// Only an unlock puts a vault in place, and only a lock that the pre-hooks
/// let through clears it: no step of any other request, and no failed
/// step, asks for either.
pub proof fn law_only_unlock_and_lock_change_the_vault(x: ExchangeView, v: Option<KdbxContents>, ev: EventView)
    ensures
        step_model(x, v, ev).1 is Install ==> x.route is Unlock && x.stage == Stage::AwaitFile,
        step_model(x, v, ev).1 is Clear ==> x.route is Lock && x.stage == Stage::AwaitPre
            && (ev matches EventView::PreHooksDone(r) && r is Ok),
{
}

/// A search of an unlocked vault that the hooks let through is answered
/// with what the vault's search gives.
pub proof fn law_search_answer(uid: u32, q: Seq<char>, c: KdbxContents)
    ensures
        ({
            let (y1, b1) = step_model(fresh(uid, RouteView::Search(q)), Some(c), EventView::Start);
            let (y2, b2) = step_model(y1, Some(c), EventView::PreHooksDone(Ok(())));
            let (y3, b3) = step_model(y2, Some(c), EventView::PostHooksDone);
            b3 == ActionView::Respond(ReplyView::Entries(search_model(c, q)))
        }),
{
}

/// The exchange `x` as it would stand for an unlock with password `p`.
pub open spec fn with_password(x: ExchangeView, p: Seq<char>) -> ExchangeView {
    ExchangeView { route: RouteView::Unlock(p), ..x }
}

/// The password of an unlock reaches nothing but the opening of the vault
/// file: two unlocks that differ only in their password ask for the same
/// hook runs with the same contexts and are refused with the same messages;
/// only the step that opens the file can go differently, and even there
/// the answers agree wherever neither password opens it.
pub proof fn law_password_stays_private(
    x: ExchangeView,
    p1: Seq<char>,
    p2: Seq<char>,
    v: Option<KdbxContents>,
    ev: EventView,
)
    requires
        x.route is Unlock,
    ensures
        !(ev is FileRead) ==> step_model(with_password(x, p1), v, ev).1 == step_model(
            with_password(x, p2),
            v,
            ev,
        ).1,
        !(ev is FileRead) ==> step_model(with_password(x, p1), v, ev).0 == with_password(
            step_model(with_password(x, p2), v, ev).0,
            p1,
        ),
        !(step_model(with_password(x, p1), v, ev).1 is Install) && !(step_model(
            with_password(x, p2),
            v,
            ev,
        ).1 is Install) ==> step_model(with_password(x, p1), v, ev).1 == step_model(
            with_password(x, p2),
            v,
            ev,
        ).1,
{
}

} // verus!

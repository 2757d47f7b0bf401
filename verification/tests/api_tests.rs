use keepass::config::KdfConfig;
use keepass::db::fields;
use keepass::{Database, DatabaseKey};
use vault_airlock::api::{
    Action, AppError, Event, Exchange, Reply, Route, SearchRequest, Stage, UdsConnectInfo, UnlockRequest,
};
use vault_airlock::secret::Secret;
use vault_airlock::vault::{Vault, VaultNode};

const PASSWORD: &str = "dQ;2<?dA4\\TfgF\\:";

fn db_bytes() -> Vec<u8> {
    let mut db = Database::new();
    db.config.kdf_config = KdfConfig::Aes { rounds: 10 };
    {
        let mut root = db.root_mut();
        root.name = "Root".to_string();
        root.add_entry().edit(|e| {
            e.set_unprotected(fields::TITLE, "Sample Entry");
            e.tags.push("work".to_string());
        });
    }
    let mut buffer = Vec::new();
    db.save(&mut buffer, DatabaseKey::new().with_password(PASSWORD)).unwrap();
    buffer
}

fn mock_conn() -> UdsConnectInfo {
    UdsConnectInfo { uid: 1000 }
}

/// What a run of an exchange did, besides its answer.
struct Trace {
    pre_hooks_ran: usize,
    post_hooks_ran: usize,
    file_reads: usize,
}

/// Drives an exchange to its answer as the service does: the pre-hooks
/// answer `pre`, the vault file holds `file`.
fn drive(route: Route, vault: &mut Option<Vault>, pre: Result<(), String>, file: Option<Vec<u8>>) -> (Reply, Trace) {
    let mut x = Exchange::new(mock_conn().uid, route);
    let mut event = Event::Start;
    let mut trace = Trace { pre_hooks_ran: 0, post_hooks_ran: 0, file_reads: 0 };
    loop {
        match x.step(vault, event) {
            Action::RunPreHooks(_) => {
                trace.pre_hooks_ran += 1;
                event = Event::PreHooksDone(pre.clone());
            }
            Action::ReadVaultFile => {
                trace.file_reads += 1;
                event = Event::FileRead(file.clone());
            }
            Action::Install(v) => {
                *vault = Some(v);
                event = Event::Installed;
            }
            Action::Clear => {
                *vault = None;
                event = Event::Cleared;
            }
            Action::RunPostHooks(_) => {
                trace.post_hooks_ran += 1;
                event = Event::PostHooksDone;
            }
            Action::Respond(r) => return (r, trace),
        }
    }
}

fn unlock_route(pw: &str) -> Route {
    Route::Unlock(UnlockRequest { password: Secret::from_text(pw.to_string()) })
}

fn status(r: Reply) -> u16 {
    match r {
        Reply::Failed(e) => e.into_response().status,
        _ => 200,
    }
}

#[test]
fn test_health_handler() {
    let mut vault = None;
    let (r, t) = drive(Route::Health, &mut vault, Ok(()), None);
    assert_eq!(status(r), 200);
    assert_eq!(t.pre_hooks_ran + t.post_hooks_ran, 0);
}

#[test]
fn test_unlock_handler_success() {
    let mut vault = None;
    let (r, t) = drive(unlock_route(PASSWORD), &mut vault, Ok(()), Some(db_bytes()));
    assert!(matches!(r, Reply::Done));
    assert!(vault.is_some());
    assert_eq!((t.pre_hooks_ran, t.file_reads, t.post_hooks_ran), (1, 1, 1));
}

#[test]
fn test_unlock_handler_failure() {
    let mut vault = None;
    let (r, t) = drive(unlock_route("wrong"), &mut vault, Ok(()), Some(db_bytes()));
    match r {
        Reply::Failed(AppError::Internal(m)) => assert_eq!(m, "Failed to decrypt KDBX database"),
        _ => panic!("a wrong password fails the unlock"),
    }
    assert!(vault.is_none());
    assert_eq!(t.post_hooks_ran, 0);
}

#[test]
fn test_lock_handler() {
    let bytes = db_bytes();
    let mut vault = Some(match Vault::load(&bytes, &Secret::from_text(PASSWORD.to_string())) {
        Ok(v) => v,
        Err(_) => panic!("opens"),
    });
    let (r, t) = drive(Route::Lock, &mut vault, Ok(()), None);
    assert_eq!(status(r), 200);
    assert!(vault.is_none());
    assert_eq!((t.pre_hooks_ran, t.post_hooks_ran), (1, 1));
}

#[test]
fn unlock_with_keepass1_file_fails() {
    let mut kdb = vec![0x03, 0xd9, 0xa2, 0x9a, 0x65, 0xfb, 0x4b, 0xb5];
    kdb.extend_from_slice(&[0u8; 140]);
    let mut vault = None;
    let (r, t) = drive(unlock_route(PASSWORD), &mut vault, Ok(()), Some(kdb));
    match r {
        Reply::Failed(AppError::Internal(m)) => assert_eq!(m, "Failed to decrypt KDBX database"),
        _ => panic!("a KeePass 1 file is not opened"),
    }
    assert!(vault.is_none());
    assert_eq!((t.file_reads, t.post_hooks_ran), (1, 0));
}

#[test]
fn lock_refused_by_hook_keeps_vault() {
    let bytes = db_bytes();
    let mut vault = Some(match Vault::load(&bytes, &Secret::from_text(PASSWORD.to_string())) {
        Ok(v) => v,
        Err(_) => panic!("opens"),
    });
    let (r, t) = drive(Route::Lock, &mut vault, Err("uid 1000 may not lock".to_string()), None);
    match r {
        Reply::Failed(e) => {
            let reply = e.into_response();
            assert_eq!(reply.status, 403);
            assert_eq!(reply.body, "uid 1000 may not lock");
        }
        _ => panic!("a refused lock is forbidden"),
    }
    assert!(vault.is_some());
    assert_eq!((t.pre_hooks_ran, t.post_hooks_ran), (1, 0));
}

#[test]
fn lock_hooks_see_lock_context() {
    let mut x = Exchange::new(42, Route::Lock);
    let vault: Option<Vault> = None;
    match x.step(&vault, Event::Start) {
        Action::RunPreHooks(ctx) => {
            assert_eq!(ctx.client_uid, Some(42));
            assert_eq!(ctx.method, "POST");
            assert_eq!(ctx.path, "/vault/lock");
            assert!(ctx.entry_title.is_none());
        }
        _ => panic!("a lock asks the pre-hooks first"),
    }
    assert!(matches!(x.step(&vault, Event::PreHooksDone(Ok(()))), Action::Clear));
}

#[test]
fn test_get_tree_locked() {
    let mut vault = None;
    let (r, t) = drive(Route::Tree, &mut vault, Ok(()), None);
    match r {
        Reply::Failed(AppError::Locked) => (),
        _ => panic!("Expected Locked error"),
    }
    assert_eq!(t.pre_hooks_ran, 0);
}

#[test]
fn unlock_refused_by_hook_is_forbidden() {
    let mut vault = None;
    let (r, t) = drive(unlock_route(PASSWORD), &mut vault, Err("not you".to_string()), Some(db_bytes()));
    match r {
        Reply::Failed(e) => {
            let reply = e.into_response();
            assert_eq!(reply.status, 403);
            assert_eq!(reply.body, "not you");
        }
        _ => panic!("refused"),
    }
    assert!(vault.is_none());
    assert_eq!(t.file_reads, 0);
}

#[test]
fn second_unlock_is_refused() {
    let mut vault = None;
    drive(unlock_route(PASSWORD), &mut vault, Ok(()), Some(db_bytes()));
    let (r, t) = drive(unlock_route(PASSWORD), &mut vault, Ok(()), Some(db_bytes()));
    match r {
        Reply::Failed(AppError::HookRejected(m)) => assert_eq!(m, "Vault is already unlocked"),
        _ => panic!("a second unlock is refused"),
    }
    assert_eq!(t.file_reads, 0);
    assert!(vault.is_some());
}

#[test]
fn unreadable_file_fails_unlock() {
    let mut vault = None;
    let (r, _) = drive(unlock_route(PASSWORD), &mut vault, Ok(()), None);
    let reply = match r {
        Reply::Failed(e) => e.into_response(),
        _ => panic!("fails"),
    };
    assert_eq!(reply.status, 500);
    assert_eq!(reply.body, "Error: Failed to decrypt KDBX database");
}

#[test]
fn reads_after_unlock() {
    let mut vault = None;
    drive(unlock_route(PASSWORD), &mut vault, Ok(()), Some(db_bytes()));
    let (r, t) = drive(Route::Tree, &mut vault, Ok(()), None);
    match r {
        Reply::Tree(VaultNode::Group(g)) => {
            assert_eq!(g.name, "Root");
            assert_eq!(g.children.len(), 1);
        }
        _ => panic!("the tree is the answer"),
    }
    assert_eq!((t.pre_hooks_ran, t.post_hooks_ran), (1, 1));

    let (r, _) = drive(Route::Search(SearchRequest { query: "work".to_string() }), &mut vault, Ok(()), None);
    let uuid = match r {
        Reply::Entries(v) => {
            assert_eq!(v.len(), 1);
            assert_eq!(v[0].title, "Sample Entry");
            v[0].uuid.clone()
        }
        _ => panic!("the search results are the answer"),
    };

    let (r, _) = drive(Route::Entry(uuid.clone()), &mut vault, Ok(()), None);
    match r {
        Reply::Entry(e) => assert_eq!(e.uuid, uuid),
        _ => panic!("the entry is the answer"),
    }
}

#[test]
fn entry_lookup_context_and_not_found() {
    let mut vault = None;
    drive(unlock_route(PASSWORD), &mut vault, Ok(()), Some(db_bytes()));
    let (r, t) = drive(Route::Entry("no-such-id".to_string()), &mut vault, Ok(()), None);
    assert!(matches!(r, Reply::Failed(AppError::NotFound)));
    assert_eq!(t.pre_hooks_ran, 0);

    let uuid = match vault.as_ref().unwrap().search("Sample").pop() {
        Some(e) => e.uuid,
        None => panic!("entry exists"),
    };
    let mut x = Exchange::new(42, Route::Entry(uuid.clone()));
    match x.step(&vault, Event::Start) {
        Action::RunPreHooks(ctx) => {
            assert_eq!(ctx.client_uid, Some(42));
            assert_eq!(ctx.method, "GET");
            assert_eq!(ctx.path, format!("/vault/entry/{}", uuid));
            assert_eq!(ctx.entry_title.as_deref(), Some("Sample Entry"));
        }
        _ => panic!("the pre-hooks run first"),
    }
    match x.step(&vault, Event::PreHooksDone(Err("denied".to_string()))) {
        Action::Respond(Reply::Failed(AppError::HookRejected(m))) => assert_eq!(m, "denied"),
        _ => panic!("the refusal is the answer"),
    }
    assert!(x.stage == Stage::Finished);
}

#[test]
fn error_replies() {
    let r = AppError::Locked.into_response();
    assert_eq!((r.status, r.body.as_str()), (423, "Database is locked"));
    let r = AppError::NotFound.into_response();
    assert_eq!((r.status, r.body.as_str()), (404, "Not Found"));
    let r = AppError::Internal("boom".to_string()).into_response();
    assert_eq!((r.status, r.body.as_str()), (500, "Error: boom"));
}

#[test]
fn events_out_of_order_end_the_exchange() {
    let vault = None;
    let mut x = Exchange::new(1, Route::Tree);
    match x.step(&vault, Event::PostHooksDone) {
        Action::Respond(Reply::Failed(AppError::Internal(m))) => assert_eq!(m, "request handled out of order"),
        _ => panic!("out of order"),
    }
    assert!(x.stage == Stage::Finished);
}

#[test]
fn locked_vault_refuses_every_read() {
    for route in [
        Route::Tree,
        Route::Entry("11112222-3333-4444-5555-66667777aaaa".to_string()),
        Route::Search(SearchRequest { query: "x".to_string() }),
    ] {
        let mut vault = None;
        let (r, t) = drive(route, &mut vault, Ok(()), None);
        let reply = match r {
            Reply::Failed(e) => e.into_response(),
            _ => panic!("a locked vault refuses reads"),
        };
        assert_eq!((reply.status, reply.body.as_str()), (423, "Database is locked"));
        assert_eq!(t.pre_hooks_ran + t.post_hooks_ran, 0);
    }
}

#[test]
fn password_does_not_reach_hooks() {
    let mut contexts = Vec::new();
    for pw in [PASSWORD, "another password"] {
        let mut x = Exchange::new(7, unlock_route(pw));
        let vault: Option<Vault> = None;
        match x.step(&vault, Event::Start) {
            Action::RunPreHooks(ctx) => contexts.push((ctx.client_uid, ctx.method, ctx.path, ctx.entry_title)),
            _ => panic!("the pre-hooks run first"),
        }
    }
    assert_eq!(contexts[0], contexts[1]);
    assert_eq!(contexts[0], (Some(7), "POST".to_string(), "/vault/unlock".to_string(), None));
}

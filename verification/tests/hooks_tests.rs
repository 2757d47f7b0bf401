use vault_airlock::hooks::{
    FeishuPostHook, HookContext, HookRegistry, LoggingPreHook, PostHookEntry, PreHookEntry, PreStep,
};

struct MockPreHook {
    should_fail: bool,
}

impl MockPreHook {
    fn run(&self, _ctx: &HookContext) -> Result<(), String> {
        if self.should_fail {
            Err("Rejected by mock".to_string())
        } else {
            Ok(())
        }
    }
}

struct MockPostHook {
    called: std::cell::Cell<bool>,
}

impl MockPostHook {
    fn run(&self, _ctx: &HookContext) {
        self.called.set(true);
    }
}

fn test_ctx(title: Option<&str>) -> HookContext {
    HookContext {
        client_uid: Some(1000),
        method: "GET".to_string(),
        path: "/test".to_string(),
        entry_title: title.map(|t| t.to_string()),
    }
}

/// Runs the registry's pre-hooks in the order it asks for.
fn run_pre(registry: &HookRegistry<MockPreHook, MockPostHook>, ctx: &HookContext) -> (Result<(), String>, usize) {
    let mut results: Vec<Result<(), String>> = Vec::new();
    loop {
        match registry.next_pre(&results) {
            PreStep::Run(i) => {
                let r = match &registry.pre_hooks[i] {
                    PreHookEntry::Logging(h) => h.run(ctx),
                    PreHookEntry::Custom(h) => h.run(ctx),
                };
                results.push(r);
            }
            PreStep::Finish(r) => return (r, results.len()),
        }
    }
}

#[test]
fn test_hook_registry_new() {
    let registry: HookRegistry<MockPreHook, MockPostHook> = HookRegistry::new();
    assert_eq!(registry.pre_hooks.len(), 1); // LoggingPreHook
    assert_eq!(registry.post_hooks.len(), 0);
}

#[test]
fn test_pre_hook_success() {
    let mut registry: HookRegistry<MockPreHook, MockPostHook> = HookRegistry::new();
    registry.pre_hooks.push(PreHookEntry::Custom(MockPreHook { should_fail: false }));

    let ctx = test_ctx(None);

    for hook in &registry.pre_hooks {
        let r = match hook {
            PreHookEntry::Logging(h) => h.run(&ctx),
            PreHookEntry::Custom(h) => h.run(&ctx),
        };
        assert!(r.is_ok());
    }
    assert_eq!(run_pre(&registry, &ctx), (Ok(()), 2));
}

#[test]
fn test_pre_hook_failure() {
    let mut registry: HookRegistry<MockPreHook, MockPostHook> = HookRegistry::new();
    registry.pre_hooks.push(PreHookEntry::Custom(MockPreHook { should_fail: true }));

    let ctx = test_ctx(None);

    let mut results = Vec::new();
    for hook in &registry.pre_hooks {
        results.push(match hook {
            PreHookEntry::Logging(h) => h.run(&ctx),
            PreHookEntry::Custom(h) => h.run(&ctx),
        });
    }
    assert!(results.iter().any(|r| r.is_err()));
    assert_eq!(run_pre(&registry, &ctx), (Err("Rejected by mock".to_string()), 2));
}

#[test]
fn test_post_hook_execution() {
    let mut registry: HookRegistry<MockPreHook, MockPostHook> = HookRegistry::new();
    registry.add_post_hook(PostHookEntry::Custom(MockPostHook { called: std::cell::Cell::new(false) }));

    let ctx = test_ctx(None);

    let mut done = 0;
    while let Some(i) = registry.next_post(done) {
        match &registry.post_hooks[i] {
            PostHookEntry::Custom(h) => h.run(&ctx),
            PostHookEntry::Feishu(_) => {}
        }
        done += 1;
    }
    assert_eq!(done, 1);
    match &registry.post_hooks[0] {
        PostHookEntry::Custom(h) => assert!(h.called.get()),
        PostHookEntry::Feishu(_) => panic!("the mock hook was added"),
    }
}

#[test]
fn first_refusal_stops_the_pre_hooks() {
    let mut registry: HookRegistry<MockPreHook, MockPostHook> = HookRegistry::new();
    registry.pre_hooks.push(PreHookEntry::Custom(MockPreHook { should_fail: true }));
    registry.pre_hooks.push(PreHookEntry::Custom(MockPreHook { should_fail: false }));
    // the third hook never runs: only two results are collected
    assert_eq!(run_pre(&registry, &test_ctx(None)), (Err("Rejected by mock".to_string()), 2));
}

#[test]
fn next_pre_decides_from_results() {
    let registry: HookRegistry<MockPreHook, MockPostHook> = HookRegistry::new();
    assert!(matches!(registry.next_pre(&vec![]), PreStep::Run(0)));
    assert!(matches!(registry.next_pre(&vec![Ok(())]), PreStep::Finish(Ok(()))));
    match registry.next_pre(&vec![Err("first".to_string()), Err("second".to_string())]) {
        PreStep::Finish(Err(m)) => assert_eq!(m, "first"),
        _ => panic!("the first refusal decides"),
    }
}

#[test]
fn logging_hook_lets_everything_through() {
    assert_eq!(LoggingPreHook.run(&test_ctx(Some("x"))), Ok(()));
}

#[test]
fn add_post_hook_keeps_order() {
    let mut registry: HookRegistry<MockPreHook, u32> = HookRegistry::new();
    registry.add_post_hook(PostHookEntry::Custom(7));
    registry.add_post_hook(PostHookEntry::Feishu(FeishuPostHook { webhook_url: "http://hook".to_string() }));
    assert_eq!(registry.post_hooks.len(), 2);
    assert!(matches!(registry.post_hooks[0], PostHookEntry::Custom(7)));
    assert!(matches!(registry.post_hooks[1], PostHookEntry::Feishu(_)));
    assert_eq!(registry.next_post(1), Some(1));
    assert_eq!(registry.next_post(2), None);
}

#[test]
fn feishu_notification_text() {
    let hook = FeishuPostHook { webhook_url: "http://hook".to_string() };
    let mut ctx = test_ctx(Some("Sample Entry"));
    ctx.path = "/vault/entry/abc".to_string();
    assert_eq!(
        hook.notification(&ctx),
        Some("Vault access notification:\nEntry: Sample Entry\nUID: Some(1000)\nPath: /vault/entry/abc".to_string())
    );
    ctx.client_uid = None;
    assert_eq!(
        hook.notification(&ctx),
        Some("Vault access notification:\nEntry: Sample Entry\nUID: None\nPath: /vault/entry/abc".to_string())
    );
    ctx.client_uid = Some(4294967295);
    assert!(hook.notification(&ctx).unwrap().contains("UID: Some(4294967295)\n"));
    ctx.client_uid = Some(0);
    assert!(hook.notification(&ctx).unwrap().contains("UID: Some(0)\n"));
}

#[test]
fn feishu_stays_silent_without_entry() {
    let hook = FeishuPostHook { webhook_url: "http://hook".to_string() };
    assert_eq!(hook.notification(&test_ctx(None)), None);
    assert_eq!(hook.notification_body(&test_ctx(None)), None);
}

#[test]
fn feishu_message_body_is_a_text_message() {
    let hook = FeishuPostHook { webhook_url: "http://hook".to_string() };
    let mut ctx = test_ctx(Some("Say \"hi\""));
    ctx.path = "/vault/entry/abc".to_string();
    let body = hook.notification_body(&ctx).unwrap();
    assert_eq!(
        body,
        "{\"content\":{\"text\":\"Vault access notification:\\nEntry: Say \\\"hi\\\"\\nUID: Some(1000)\\nPath: /vault/entry/abc\"},\"msg_type\":\"text\"}"
    );
    let parsed: serde_json::Value = serde_json::from_str(&body).unwrap();
    assert_eq!(parsed["msg_type"], "text");
    assert_eq!(parsed["content"]["text"].as_str(), hook.notification(&ctx).as_deref());
}

#[test]
fn hook_context_new_keeps_fields() {
    let ctx = HookContext::new(Some(5), "POST", "/vault/search".to_string(), None);
    assert_eq!(ctx.client_uid, Some(5));
    assert_eq!(ctx.method, "POST");
    assert_eq!(ctx.path, "/vault/search");
    assert_eq!(ctx.entry_title, None);
    let copy = ctx.duplicate();
    assert_eq!(copy.path, ctx.path);
}

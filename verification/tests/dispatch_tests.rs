use dispatch_core::context::{DispatchError, MessageEvent};
use dispatch_core::counter::CounterMap;
use dispatch_core::dispatcher::{DispatchOutcome, Dispatcher};
use dispatch_core::hooks::{HandlerResult, RecordedHook, RecordingHooks, ScriptedExecutor};
use dispatch_core::limiter::BucketSet;
use dispatch_core::parser::ParserConfig;
use dispatch_core::registry::{Command, CommandGroup, Registry};

fn bv(s: &str) -> Vec<u8> {
    s.as_bytes().to_vec()
}

fn command(name: &str, aliases: &[&str], bucket: Option<&str>) -> Command {
    Command {
        name: bv(name),
        aliases: aliases.iter().map(|a| bv(a)).collect(),
        bucket: bucket.map(bv),
        required_role: None,
        owner_only: false,
        summary: bv("summary"),
    }
}

fn general_group() -> CommandGroup {
    CommandGroup {
        name: bv("general"),
        prefixes: vec![],
        default_command: None,
        summary: bv("general commands"),
        commands: vec![
            command("roles", &[], None),
            command("some_long_command", &["slc"], None),
            command("assign", &[], None),
        ],
    }
}

fn emoji_group() -> CommandGroup {
    CommandGroup {
        name: bv("emoji"),
        prefixes: vec![bv("emoji"), bv("em")],
        default_command: Some(0),
        summary: bv("emoji commands"),
        commands: vec![command("dog", &[], Some("emoji"))],
    }
}

fn dispatcher() -> Dispatcher {
    let mut registry = Registry::new();
    registry.register(emoji_group(), false).expect("registered");
    registry.register(general_group(), false).expect("registered");
    let mut buckets = BucketSet::new();
    assert!(buckets.add(bv("emoji"), 5));
    Dispatcher {
        cfg: ParserConfig {
            mentions: vec![bv("<@100>")],
            prefixes: vec![bv("~")],
            delimiters: vec![bv(", "), bv(","), bv(" ")],
            case_insensitive: false,
            longest_prefix_first: true,
            trim_whitespace: true,
        },
        registry,
        buckets,
        counters: CounterMap::new(),
    }
}

fn message(text: &str) -> MessageEvent {
    MessageEvent { author: 7, channel: 42, text: bv(text) }
}

#[test]
fn tilde_roles_resolves_executes_and_counts_once() {
    let mut d = dispatcher();
    let mut hooks = RecordingHooks::new(true);
    let mut exec = ScriptedExecutor::new(vec![]);
    let o = d.dispatch(&mut hooks, &mut exec, &message("~roles"), 0);
    assert_eq!(o, DispatchOutcome::Completed);
    assert_eq!(exec.called, vec![bv("roles")]);
    assert_eq!(d.counters.get(&bv("roles")), 1);
    assert_eq!(
        hooks.events,
        vec![RecordedHook::Before, RecordedHook::After(true)]
    );
}

#[test]
fn plain_message_runs_only_normal_message_and_no_handler() {
    let mut d = dispatcher();
    let mut hooks = RecordingHooks::new(true);
    let mut exec = ScriptedExecutor::new(vec![]);
    let o = d.dispatch(&mut hooks, &mut exec, &message("just chatting"), 0);
    assert_eq!(o, DispatchOutcome::NotACommand);
    assert!(exec.called.is_empty());
    assert_eq!(hooks.events, vec![RecordedHook::NormalMessage]);
    assert_eq!(d.counters.get(&bv("roles")), 0);
}

#[test]
fn unknown_token_runs_only_unknown_command_with_the_token() {
    let mut d = dispatcher();
    let mut hooks = RecordingHooks::new(true);
    let mut exec = ScriptedExecutor::new(vec![]);
    let o = d.dispatch(&mut hooks, &mut exec, &message("~frobnicate"), 0);
    assert_eq!(o, DispatchOutcome::Unresolved);
    assert!(exec.called.is_empty());
    assert_eq!(
        hooks.events,
        vec![RecordedHook::UnknownCommand(bv("frobnicate"))]
    );
}

#[test]
fn alias_resolves_to_its_command() {
    let mut d = dispatcher();
    let mut hooks = RecordingHooks::new(true);
    let mut exec = ScriptedExecutor::new(vec![]);
    let o = d.dispatch(&mut hooks, &mut exec, &message("~slc a b"), 0);
    assert_eq!(o, DispatchOutcome::Completed);
    assert_eq!(exec.called, vec![bv("some_long_command")]);
    assert_eq!(d.counters.get(&bv("some_long_command")), 1);
}

#[test]
fn bare_group_prefix_invokes_the_default_command() {
    let mut d = dispatcher();
    let mut hooks = RecordingHooks::new(true);
    let mut exec = ScriptedExecutor::new(vec![]);
    let o = d.dispatch(&mut hooks, &mut exec, &message("~emoji"), 0);
    assert_eq!(o, DispatchOutcome::Completed);
    assert_eq!(exec.called, vec![bv("dog")]);
    assert_eq!(d.counters.get(&bv("dog")), 1);
}

#[test]
fn group_prefix_with_command_name_resolves_inside_the_group() {
    let mut d = dispatcher();
    let mut hooks = RecordingHooks::new(true);
    let mut exec = ScriptedExecutor::new(vec![]);
    let o = d.dispatch(&mut hooks, &mut exec, &message("~em dog"), 0);
    assert_eq!(o, DispatchOutcome::Completed);
    assert_eq!(exec.called, vec![bv("dog")]);
}

#[test]
fn before_hook_veto_aborts_silently() {
    let mut d = dispatcher();
    let mut hooks = RecordingHooks::new(false);
    let mut exec = ScriptedExecutor::new(vec![]);
    let o = d.dispatch(&mut hooks, &mut exec, &message("~roles"), 0);
    assert_eq!(o, DispatchOutcome::Aborted);
    assert!(exec.called.is_empty());
    assert_eq!(hooks.events, vec![RecordedHook::Before]);
    assert_eq!(d.counters.get(&bv("roles")), 0);
}

#[test]
fn bucketed_command_is_rate_limited_and_error_hook_sees_it() {
    let mut d = dispatcher();
    let mut hooks = RecordingHooks::new(true);
    let mut exec = ScriptedExecutor::new(vec![]);
    let o0 = d.dispatch(&mut hooks, &mut exec, &message("~emoji"), 0);
    assert_eq!(o0, DispatchOutcome::Completed);
    let o2 = d.dispatch(&mut hooks, &mut exec, &message("~emoji"), 2);
    assert_eq!(
        o2,
        DispatchOutcome::RateLimited { retry_after: 3, is_first_denial: true }
    );
    let o3 = d.dispatch(&mut hooks, &mut exec, &message("~emoji"), 3);
    assert_eq!(
        o3,
        DispatchOutcome::RateLimited { retry_after: 2, is_first_denial: false }
    );
    // the handler ran exactly once, the counter moved exactly once
    assert_eq!(exec.called, vec![bv("dog")]);
    assert_eq!(d.counters.get(&bv("dog")), 1);
    assert_eq!(
        hooks.events,
        vec![
            RecordedHook::Before,
            RecordedHook::After(true),
            RecordedHook::Before,
            RecordedHook::ErrorReported(DispatchError::RateLimited {
                retry_after: 3,
                is_first_denial: true
            }),
            RecordedHook::Before,
            RecordedHook::ErrorReported(DispatchError::RateLimited {
                retry_after: 2,
                is_first_denial: false
            }),
        ]
    );
}

#[test]
fn rate_limits_are_scoped_per_user() {
    let mut d = dispatcher();
    let mut hooks = RecordingHooks::new(true);
    let mut exec = ScriptedExecutor::new(vec![]);
    let o0 = d.dispatch(&mut hooks, &mut exec, &message("~emoji"), 0);
    assert_eq!(o0, DispatchOutcome::Completed);
    let other = MessageEvent { author: 8, channel: 42, text: bv("~emoji") };
    let o1 = d.dispatch(&mut hooks, &mut exec, &other, 0);
    assert_eq!(o1, DispatchOutcome::Completed);
}

#[test]
fn counter_counts_every_execution_attempt_even_failed_ones() {
    let mut d = dispatcher();
    let mut hooks = RecordingHooks::new(true);
    let mut exec = ScriptedExecutor::new(vec![
        HandlerResult::Done,
        HandlerResult::Failed,
        HandlerResult::Done,
    ]);
    for _ in 0..3 {
        d.dispatch(&mut hooks, &mut exec, &message("~roles"), 0);
    }
    assert_eq!(d.counters.get(&bv("roles")), 3);
    assert_eq!(exec.called.len(), 3);
}

#[test]
fn failed_handler_runs_after_then_error_hook() {
    let mut d = dispatcher();
    let mut hooks = RecordingHooks::new(true);
    let mut exec = ScriptedExecutor::new(vec![HandlerResult::Failed]);
    let o = d.dispatch(&mut hooks, &mut exec, &message("~roles"), 0);
    assert_eq!(o, DispatchOutcome::Failed);
    assert_eq!(
        hooks.events,
        vec![
            RecordedHook::Before,
            RecordedHook::After(false),
            RecordedHook::ErrorReported(DispatchError::HandlerFailed),
        ]
    );
}

#[test]
fn timed_out_handler_is_a_failure_with_its_own_error() {
    let mut d = dispatcher();
    let mut hooks = RecordingHooks::new(true);
    let mut exec = ScriptedExecutor::new(vec![HandlerResult::TimedOut]);
    let o = d.dispatch(&mut hooks, &mut exec, &message("~roles"), 0);
    assert_eq!(o, DispatchOutcome::Failed);
    assert_eq!(
        hooks.events,
        vec![
            RecordedHook::Before,
            RecordedHook::After(false),
            RecordedHook::ErrorReported(DispatchError::HandlerTimedOut),
        ]
    );
}

#[test]
fn ratelimit_notice_is_sent_only_on_first_denial() {
    let first = DispatchError::RateLimited { retry_after: 3, is_first_denial: true };
    let later = DispatchError::RateLimited { retry_after: 2, is_first_denial: false };
    assert_eq!(
        dispatch_core::context::ratelimit_notice(&first),
        Some(bv("Try this again in 3 seconds."))
    );
    assert_eq!(dispatch_core::context::ratelimit_notice(&later), None);
    assert_eq!(
        dispatch_core::context::ratelimit_notice(&DispatchError::HandlerFailed),
        None
    );
}

#[test]
fn duplicate_names_in_the_same_scope_are_refused() {
    let mut registry = Registry::new();
    registry.register(general_group(), false).expect("registered");
    let clash = CommandGroup {
        name: bv("other"),
        prefixes: vec![],
        default_command: None,
        summary: bv(""),
        commands: vec![command("extra", &["roles"], None)],
    };
    assert!(registry.register(clash, false).is_err());
    // the same name under a disjoint prefix scope is fine
    let scoped = CommandGroup {
        name: bv("scoped"),
        prefixes: vec![bv("sc")],
        default_command: None,
        summary: bv(""),
        commands: vec![command("roles", &[], None)],
    };
    assert!(registry.register(scoped, false).is_ok());
}

#[test]
fn bare_prefix_alone_is_unresolved() {
    let mut d = dispatcher();
    let mut hooks = RecordingHooks::new(true);
    let mut exec = ScriptedExecutor::new(vec![]);
    let o = d.dispatch(&mut hooks, &mut exec, &message("~"), 0);
    assert_eq!(o, DispatchOutcome::Unresolved);
    assert_eq!(hooks.events, vec![RecordedHook::UnknownCommand(bv(""))]);
}

#[test]
fn case_insensitive_config_resolves_upper_case_tokens() {
    let mut d = dispatcher();
    d.cfg.case_insensitive = true;
    let mut hooks = RecordingHooks::new(true);
    let mut exec = ScriptedExecutor::new(vec![]);
    let o = d.dispatch(&mut hooks, &mut exec, &message("~ROLES"), 0);
    assert_eq!(o, DispatchOutcome::Completed);
    assert_eq!(exec.called, vec![bv("roles")]);
}

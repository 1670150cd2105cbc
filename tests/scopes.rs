use mcp_scopes::aggregate::{Aggregator, ScopeEntry};
use mcp_scopes::env_parse::parse_env_vars;
use mcp_scopes::ops::{
    exclusive_warning_applies, merge_env, queue_profile_exclusive_warning, AddArgs, FsAction,
    ImportArgs, McpError, RemoveArgs, RemoveOutcome, StatusArgs, UseProfileServersOnlyArgs,
};
use mcp_scopes::opt_out::{is_codewhisperer_content_optout, OptOutInterceptor};
use mcp_scopes::registry::{
    load_cfg, load_config_with_error_handling, ConfigFile, EnvVar, EnvVars, ServerDefinition,
    ServerRegistry, DEFAULT_TIMEOUT_MS,
};
use mcp_scopes::scope::{profile_mcp_path, resolve_scope_profile, scope_display, ConfigRoots, Location, ResolveError, Scope};

fn loc(parts: &[&str]) -> Location {
    Location { parts: parts.iter().map(|p| p.to_string()).collect() }
}

fn roots() -> ConfigRoots {
    ConfigRoots {
        workspace: loc(&["work", ".amazonq", "mcp.json"]),
        global: loc(&["home", ".aws", "amazonq", "mcp.json"]),
        profiles: loc(&["home", ".aws", "amazonq", "profiles"]),
    }
}

fn def(command: &str) -> ServerDefinition {
    ServerDefinition { command: command.into(), args: vec![], env: None, timeout: 1000, disabled: false }
}

fn registry(names: &[&str], exclusive: bool) -> ServerRegistry {
    let mut r = ServerRegistry::empty();
    for n in names {
        r.insert(n.to_string(), def(&format!("run-{n}")));
    }
    r.exclusive = exclusive;
    r
}

fn names(r: &ServerRegistry) -> Vec<String> {
    r.servers.iter().map(|e| e.name.clone()).collect()
}

fn add_args(name: &str, force: bool) -> AddArgs {
    AddArgs {
        name: name.into(),
        command: "echo hi".into(),
        args: vec!["--flag".into()],
        scope: None,
        profile: None,
        env: vec![],
        timeout: None,
        disabled: false,
        force,
    }
}

fn written(actions: &[FsAction]) -> &ServerRegistry {
    match actions.last() {
        Some(FsAction::Write(_, r)) => r,
        _ => panic!("last action is not a write"),
    }
}

#[test]
fn test_scope_and_profile_defaults_to_workspace() {
    let path = resolve_scope_profile(&roots(), None, None).unwrap();
    assert_eq!(path, roots().workspace, "No scope or profile should default to the workspace path");
}

#[test]
fn test_resolve_paths() {
    let p = resolve_scope_profile(&roots(), Some(Scope::Workspace), None).unwrap();
    assert_eq!(p, roots().workspace);
    let p = resolve_scope_profile(&roots(), Some(Scope::Global), None).unwrap();
    assert_eq!(p, roots().global);
}

#[test]
fn resolve_profile_path_and_missing_name() {
    let p = resolve_scope_profile(&roots(), Some(Scope::Profile), Some("dev".into())).unwrap();
    assert_eq!(p, loc(&["home", ".aws", "amazonq", "profiles", "dev", "mcp.json"]));
    assert_eq!(p, profile_mcp_path(&roots(), "dev"));
    assert_eq!(
        resolve_scope_profile(&roots(), Some(Scope::Profile), None),
        Err(ResolveError::MissingProfileName)
    );
}

#[test]
fn resolve_is_repeatable() {
    for scope in [None, Some(Scope::Workspace), Some(Scope::Global), Some(Scope::Profile)] {
        let a = resolve_scope_profile(&roots(), scope, Some("p".into()));
        let b = resolve_scope_profile(&roots(), scope, Some("p".into()));
        assert_eq!(a, b);
    }
}

#[test]
fn location_parent_and_join() {
    let l = loc(&["a", "b", "c"]);
    assert_eq!(l.parent(), Some(loc(&["a", "b"])));
    assert_eq!(loc(&[]).parent(), None);
    assert_eq!(loc(&["a"]).join("b"), loc(&["a", "b"]));
}

#[test]
fn scope_labels() {
    assert_eq!(scope_display(&Scope::Workspace), "📄 workspace");
    assert_eq!(scope_display(&Scope::Global), "🌍 global");
    assert_eq!(scope_display(&Scope::Profile), "👤 profile");
    assert_eq!(Scope::Global.name(), "global");
}

#[test]
fn load_missing_gives_empty_default() {
    let r = load_config_with_error_handling(ConfigFile::Missing).unwrap();
    assert!(r.servers.is_empty());
    assert!(!r.exclusive);
    assert_eq!(load_cfg(ConfigFile::Missing), Ok(ServerRegistry::empty()));
}

#[test]
fn load_malformed_is_contained() {
    assert_eq!(load_config_with_error_handling(ConfigFile::Malformed("bad".into())), None);
    assert_eq!(load_cfg(ConfigFile::Malformed("bad".into())), Err("bad".to_string()));
}

#[test]
fn load_returns_parsed_document_unchanged() {
    let r = registry(&["a", "b"], true);
    assert_eq!(load_config_with_error_handling(ConfigFile::Parsed(registry(&["a", "b"], true))), Some(r));
}

fn run(agg: &mut Aggregator, files: &mut Vec<ConfigFile>) -> Vec<Location> {
    let mut reads = vec![];
    while let Some(l) = agg.next_location() {
        reads.push(l);
        agg.feed(files.remove(0));
    }
    reads
}

#[test]
fn exclusive_profile_short_circuits() {
    let mut agg = Aggregator::new(&roots(), None, Some("dev".into())).unwrap();
    let mut files = vec![
        ConfigFile::Parsed(registry(&["p"], true)),
        ConfigFile::Parsed(registry(&["a"], false)),
        ConfigFile::Parsed(registry(&["b"], false)),
    ];
    let reads = run(&mut agg, &mut files);
    assert_eq!(reads, vec![profile_mcp_path(&roots(), "dev")]);
    let entries = agg.finish();
    assert_eq!(entries.len(), 1);
    assert_eq!(entries[0].scope, Scope::Profile);
    assert!(exclusive_warning_applies(&Some("dev".into()), &entries));
    assert!(!exclusive_warning_applies(&None, &entries));
}

#[test]
fn non_exclusive_aggregation_keeps_scopes_apart() {
    let mut agg = Aggregator::new(&roots(), None, Some("dev".into())).unwrap();
    let mut files = vec![
        ConfigFile::Parsed(registry(&["p1"], false)),
        ConfigFile::Parsed(registry(&["w1"], false)),
        ConfigFile::Parsed(registry(&["g1"], false)),
    ];
    let reads = run(&mut agg, &mut files);
    assert_eq!(reads, vec![profile_mcp_path(&roots(), "dev"), roots().workspace, roots().global]);
    let entries: Vec<ScopeEntry> = agg.finish();
    let scopes: Vec<Scope> = entries.iter().map(|e| e.scope).collect();
    assert_eq!(scopes, vec![Scope::Profile, Scope::Workspace, Scope::Global]);
    assert_eq!(names(entries[0].config.as_ref().unwrap()), vec!["p1"]);
    assert_eq!(names(entries[1].config.as_ref().unwrap()), vec!["w1"]);
    assert_eq!(names(entries[2].config.as_ref().unwrap()), vec!["g1"]);
    assert!(!exclusive_warning_applies(&Some("dev".into()), &entries));
}

#[test]
fn aggregation_without_profile_and_with_malformed_scope() {
    let mut agg = Aggregator::new(&roots(), None, None).unwrap();
    let mut files = vec![ConfigFile::Malformed("oops".into()), ConfigFile::Missing];
    let reads = run(&mut agg, &mut files);
    assert_eq!(reads, vec![roots().workspace, roots().global]);
    let entries = agg.finish();
    assert_eq!(entries.len(), 2);
    assert_eq!(entries[0].config, None);
    assert_eq!(entries[1].config, Some(ServerRegistry::empty()));
}

#[test]
fn explicit_scope_reads_one_file() {
    let mut agg = Aggregator::new(&roots(), Some(Scope::Global), Some("dev".into())).unwrap();
    let mut files = vec![ConfigFile::Missing, ConfigFile::Missing];
    let reads = run(&mut agg, &mut files);
    assert_eq!(reads, vec![roots().global]);
    assert!(Aggregator::new(&roots(), Some(Scope::Profile), None).is_err());
}

#[test]
fn ensure_file_created_and_loaded() {
    let path = roots().workspace;
    let actions = add_args("x", false).execute(&path, ConfigFile::Missing).unwrap();
    assert_eq!(actions.len(), 3);
    assert_eq!(actions[0], FsAction::CreateDirAll(loc(&["work", ".amazonq"])));
    assert_eq!(actions[1], FsAction::Write(path.duplicate(), ServerRegistry::empty()));
}

#[test]
fn add_then_remove_cycle() {
    let path = roots().workspace;
    let mut a = add_args("local", false);
    a.args = vec![
        "awslabs.eks-mcp-server".to_string(),
        "--allow-write".to_string(),
        "--allow-sensitive-data-access".to_string(),
    ];
    let actions = a.execute(&path, ConfigFile::Missing).unwrap();
    let cfg = written(&actions);
    assert!(cfg.servers.len() == 1);
    assert_eq!(cfg.servers[0].config.timeout, DEFAULT_TIMEOUT_MS);
    assert_eq!(cfg.servers[0].config.args.len(), 3);
    let after = RemoveArgs { name: "local".into(), scope: None, profile: None }
        .execute(ConfigFile::Parsed(registry(&["local"], false)))
        .unwrap();
    match after {
        RemoveOutcome::Removed(cfg) => assert!(cfg.servers.is_empty()),
        other => panic!("unexpected {other:?}"),
    }
}

#[test]
fn add_duplicate_without_force_fails() {
    let r = add_args("x", false).execute(&roots().workspace, ConfigFile::Parsed(registry(&["x"], false)));
    assert_eq!(r, Err(McpError::DuplicateServer("x".into())));
}

#[test]
fn add_duplicate_with_force_overwrites() {
    let actions = add_args("x", true)
        .execute(&roots().workspace, ConfigFile::Parsed(registry(&["x", "y"], false)))
        .unwrap();
    assert_eq!(actions.len(), 1);
    let cfg = written(&actions);
    assert_eq!(names(cfg), vec!["x", "y"]);
    assert_eq!(cfg.servers[0].config.command, "echo hi");
}

#[test]
fn add_into_malformed_file_fails() {
    let r = add_args("x", false).execute(&roots().workspace, ConfigFile::Malformed("bad json".into()));
    assert_eq!(r, Err(McpError::MalformedConfig("bad json".into())));
}

#[test]
fn add_merges_env_later_wins() {
    let mut a = add_args("x", false);
    a.env = vec![parse_env_vars("A=1,B=2").unwrap(), parse_env_vars("B=3").unwrap()];
    a.timeout = Some(5);
    let actions = a.execute(&roots().workspace, ConfigFile::Parsed(registry(&[], false))).unwrap();
    let d = &written(&actions).servers[0].config;
    assert_eq!(d.timeout, 5);
    assert_eq!(
        d.env,
        Some(EnvVars {
            vars: vec![
                EnvVar { key: "A".into(), value: "1".into() },
                EnvVar { key: "B".into(), value: "3".into() }
            ]
        })
    );
}

#[test]
fn merge_env_of_nothing_is_empty() {
    assert_eq!(merge_env(&vec![]), EnvVars { vars: vec![] });
}

#[test]
fn import_conflict_aborts_without_writes() {
    let dst = ConfigFile::Parsed(registry(&["b"], false));
    let src = ConfigFile::Parsed(registry(&["a", "b", "c"], false));
    let args = ImportArgs { file: "servers.json".into(), scope: None, profile: None, force: false };
    assert_eq!(args.execute(&roots().workspace, dst, src), Err(McpError::DuplicateServer("b".into())));
}

#[test]
fn import_with_force_merges_all() {
    let dst = ConfigFile::Parsed(registry(&["b", "z"], true));
    let src = ConfigFile::Parsed(registry(&["a", "b"], false));
    let args = ImportArgs { file: "servers.json".into(), scope: None, profile: None, force: true };
    let out = args.execute(&roots().workspace, dst, src).unwrap();
    assert_eq!(out.added, 2);
    let cfg = written(&out.actions);
    assert_eq!(names(cfg), vec!["b", "z", "a"]);
    assert!(cfg.exclusive);
}

#[test]
fn import_source_errors_are_fatal() {
    let args = || ImportArgs { file: "s.json".into(), scope: None, profile: None, force: false };
    assert_eq!(
        args().execute(&roots().workspace, ConfigFile::Missing, ConfigFile::Missing),
        Err(McpError::ImportSourceMissing)
    );
    assert_eq!(
        args().execute(&roots().workspace, ConfigFile::Missing, ConfigFile::Malformed("x".into())),
        Err(McpError::ImportSourceMalformed("x".into()))
    );
}

#[test]
fn import_into_missing_file_creates_it() {
    let args = ImportArgs { file: "s.json".into(), scope: None, profile: None, force: false };
    let out = args
        .execute(&roots().workspace, ConfigFile::Missing, ConfigFile::Parsed(registry(&["a"], false)))
        .unwrap();
    assert_eq!(out.actions.len(), 3);
    assert_eq!(names(written(&out.actions)), vec!["a"]);
}

#[test]
fn remove_missing_name_is_not_found() {
    let r = RemoveArgs { name: "nope".into(), scope: None, profile: None }
        .execute(ConfigFile::Parsed(registry(&["a"], false)));
    assert_eq!(r, Ok(RemoveOutcome::NotFound));
    let r = RemoveArgs { name: "nope".into(), scope: None, profile: None }.execute(ConfigFile::Missing);
    assert_eq!(r, Ok(RemoveOutcome::NoConfigFile));
}

#[test]
fn set_exclusivity_on_missing_profile_fails() {
    let args = UseProfileServersOnlyArgs { profile: "ghost".into(), value: true };
    assert_eq!(
        args.execute(&roots(), false, ConfigFile::Missing),
        Err(McpError::ProfileNotFound("ghost".into()))
    );
}

#[test]
fn set_exclusivity_keeps_servers() {
    let args = UseProfileServersOnlyArgs { profile: "dev".into(), value: true };
    let actions = args.execute(&roots(), true, ConfigFile::Parsed(registry(&["a"], false))).unwrap();
    assert_eq!(actions.len(), 2);
    assert_eq!(actions[0], FsAction::CreateDirAll(loc(&["home", ".aws", "amazonq", "profiles", "dev"])));
    let cfg = written(&actions);
    assert!(cfg.exclusive);
    assert_eq!(names(cfg), vec!["a"]);
    let args = UseProfileServersOnlyArgs { profile: "dev".into(), value: false };
    let actions = args.execute(&roots(), true, ConfigFile::Malformed("x".into())).unwrap();
    assert_eq!(written(&actions), &ServerRegistry::empty());
}

#[test]
fn status_finds_server_in_scopes() {
    let entries = vec![
        ScopeEntry { scope: Scope::Profile, location: loc(&["p"]), config: Some(registry(&["aws"], false)) },
        ScopeEntry { scope: Scope::Workspace, location: loc(&["w"]), config: None },
        ScopeEntry { scope: Scope::Global, location: loc(&["g"]), config: Some(registry(&["x", "aws"], false)) },
    ];
    let s = StatusArgs { name: "aws".into(), profile: None };
    assert_eq!(s.execute(&entries), Ok(vec![0, 2]));
    let s = StatusArgs { name: "none".into(), profile: None };
    assert_eq!(s.execute(&entries), Err(McpError::ServerNotFound("none".into())));
}

#[test]
fn parse_env_vars_trims_and_splits() {
    let env = parse_env_vars(" key1 = value1 ,key2=a=b").unwrap();
    assert_eq!(
        env.vars,
        vec![
            EnvVar { key: "key1".into(), value: "value1".into() },
            EnvVar { key: "key2".into(), value: "a=b".into() }
        ]
    );
}

#[test]
fn parse_env_vars_later_duplicate_wins() {
    let env = parse_env_vars("K=1,K=2").unwrap();
    assert_eq!(env.vars, vec![EnvVar { key: "K".into(), value: "2".into() }]);
}

#[test]
fn parse_env_vars_rejects_piece_without_equals() {
    assert_eq!(parse_env_vars("a=1,bad,c"), Err(McpError::InvalidEnvVar("bad".into())));
    assert_eq!(parse_env_vars(""), Err(McpError::InvalidEnvVar("".into())));
}

#[test]
fn exclusive_warning_lines() {
    let lines = queue_profile_exclusive_warning("dev");
    assert_eq!(lines.len(), 3);
    assert_eq!(lines[0], "⚠️  Profile 'dev' is configured for exclusive server usage.");
    assert_eq!(lines[2], "   Global and workspace servers will be ignored.");
}

#[test]
fn test_opt_out_interceptor() {
    let mut interceptor = OptOutInterceptor::new(None);
    assert!(!interceptor.opt_out());
    interceptor.override_value = Some(false);
    assert_eq!(interceptor.header_value(), "false");
    interceptor.override_value = Some(true);
    assert_eq!(interceptor.header_value(), "true");
    assert!(is_codewhisperer_content_optout(Some(false)));
    assert!(!is_codewhisperer_content_optout(Some(true)));
    assert!(OptOutInterceptor::new(Some(false)).opt_out());
}

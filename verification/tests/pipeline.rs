use archlens::agents::SystemContextResearcher;
use archlens::orchestrator::{AgentPlan, execution_order};
use archlens::cache::{CacheManager, Fingerprint};
use archlens::memory::Memory;
use archlens::orchestrator::{AgentRun, AgentState, LLMCallMode};
use archlens::sources::{AgentDataConfig, DataSource, ResolveOutcome, SourceStore, resolve};

fn full_store() -> SourceStore {
    SourceStore {
        project_structure: Some("src/ two crates".to_string()),
        code_insights: Some("12 classes".to_string()),
        readme_content: Some("A sample".to_string()),
        confluence_pages: None,
    }
}

#[test]
fn memory_store_get_roundtrip() {
    let mut m = Memory::new();
    m.store("research", "summary", "v1".to_string());
    m.store("research", "summary", "v2".to_string());
    assert_eq!(m.get("research", "summary").as_deref(), Some("v2"));
    assert!(m.has("research", "summary"));
    assert!(!m.has("research", "missing"));
}

#[test]
fn memory_writes_are_scope_isolated() {
    let mut m = Memory::new();
    m.store("A", "k", "value".to_string());
    assert_eq!(m.get("B", "k"), None);
    assert!(!m.has("B", "k"));
    assert_eq!(m.get("A", "k").as_deref(), Some("value"));
}

#[test]
fn list_keys_returns_exactly_the_distinct_keys() {
    let mut m = Memory::new();
    m.store("s", "alpha", "1".to_string());
    m.store("s", "beta", "2".to_string());
    m.store("s", "gamma", "3".to_string());
    m.store("s", "beta", "2b".to_string());
    let keys = m.list_keys("s");
    assert_eq!(keys, vec!["alpha", "beta", "gamma"]);
    assert_eq!(m.get("s", "beta").as_deref(), Some("2b"));
    assert_eq!(m.list_keys("other"), Vec::<String>::new());
}

#[test]
fn memory_usage_counts_accesses() {
    let mut m = Memory::new();
    m.store("s", "a", "1".to_string());
    let _ = m.get("s", "a");
    let _ = m.get("s", "a");
    let stats = m.usage_stats();
    assert_eq!(stats.len(), 1);
    assert_eq!(stats[0].0, "s");
    assert_eq!(stats[0].1, 3);
}

#[test]
fn cache_hits_only_on_identical_inputs() {
    let mut cache = CacheManager::new();
    let inputs = vec![("PROJECT_STRUCTURE".to_string(), "src/".to_string())];
    let fp = Fingerprint::of("researcher", inputs.clone(), "1");
    assert_eq!(cache.lookup(&fp), None);
    cache.store(Fingerprint::of("researcher", inputs.clone(), "1"), "report".to_string());
    assert_eq!(cache.lookup(&fp).as_deref(), Some("report"));

    let other_inputs = vec![("PROJECT_STRUCTURE".to_string(), "src/ changed".to_string())];
    let fp_drift = Fingerprint::of("researcher", other_inputs, "1");
    assert_eq!(cache.lookup(&fp_drift), None);
    let fp_new_template = Fingerprint::of("researcher", inputs, "2");
    assert_eq!(cache.lookup(&fp_new_template), None);

    cache.invalidate(&fp);
    assert_eq!(cache.lookup(&fp), None);
}

#[test]
fn second_run_hits_cache_and_skips_invocation() {
    let agent = SystemContextResearcher::new();
    let mut memory = Memory::new();
    let mut cache = CacheManager::new();
    let store = full_store();

    // First run: miss, invoke, commit.
    let mut run = AgentRun::new(
        agent.agent_type(),
        agent.memory_scope_key(),
        agent.prompt_template(),
    );
    run.begin_resolution();
    run.apply_resolution(resolve(&agent.data_config(), &store));
    assert_eq!(run.state, AgentState::PromptReady);
    assert!(!run.try_cache(&cache, &mut memory));
    let (_prompt, mode) = run.begin_invoke();
    assert_eq!(mode, LLMCallMode::Extract);
    run.apply_response(Ok("{\"goal\": \"demo\"}".to_string()));
    assert_eq!(run.state, AgentState::Succeeded);
    run.commit(&mut memory, &mut cache);
    assert_eq!(run.state, AgentState::Committed);

    // Second run with byte-identical resolved inputs: a hit, no invocation.
    let mut rerun = AgentRun::new(
        agent.agent_type(),
        agent.memory_scope_key(),
        agent.prompt_template(),
    );
    rerun.begin_resolution();
    rerun.apply_resolution(resolve(&agent.data_config(), &store));
    assert!(rerun.try_cache(&cache, &mut memory));
    assert_eq!(rerun.state, AgentState::Committed);
    assert_eq!(rerun.output.as_deref(), Some("{\"goal\": \"demo\"}"));
    assert_eq!(
        memory.get("studies_research", "system_context_researcher").as_deref(),
        Some("{\"goal\": \"demo\"}")
    );
}

#[test]
fn missing_required_source_blocks_and_never_invokes() {
    let agent = SystemContextResearcher::new();
    let store = SourceStore {
        project_structure: Some("src/".to_string()),
        code_insights: None,
        readme_content: None,
        confluence_pages: None,
    };
    let mut run = AgentRun::new(
        agent.agent_type(),
        agent.memory_scope_key(),
        agent.prompt_template(),
    );
    run.begin_resolution();
    run.apply_resolution(resolve(&agent.data_config(), &store));
    assert_eq!(run.state, AgentState::Blocked);
    assert_eq!(run.blocked_on, vec![DataSource::CodeInsights]);
}

#[test]
fn optional_sources_are_silently_omitted() {
    let cfg = AgentDataConfig {
        required_sources: vec![DataSource::ProjectStructure],
        optional_sources: vec![DataSource::ReadmeContent, DataSource::ConfluencePages],
    };
    match resolve(&cfg, &full_store()) {
        ResolveOutcome::Resolved(bundle) => {
            let names: Vec<DataSource> = bundle.iter().map(|p| p.0).collect();
            assert_eq!(names, vec![DataSource::ProjectStructure, DataSource::ReadmeContent]);
        }
        ResolveOutcome::Blocked(_) => panic!("required source was available"),
    }
}

#[test]
fn malformed_extract_response_fails_the_agent() {
    let agent = SystemContextResearcher::new();
    let mut run = AgentRun::new(
        agent.agent_type(),
        agent.memory_scope_key(),
        agent.prompt_template(),
    );
    run.begin_resolution();
    run.apply_resolution(resolve(&agent.data_config(), &full_store()));
    let mut memory = Memory::new();
    let cache = CacheManager::new();
    assert!(!run.try_cache(&cache, &mut memory));
    let _ = run.begin_invoke();
    run.apply_response(Ok("not structured output".to_string()));
    assert_eq!(run.state, AgentState::Failed);
    assert_eq!(run.failure.as_deref(), Some("not structured output"));
    assert!(!memory.has("studies_research", "system_context_researcher"));
}

#[test]
fn execution_order_respects_scope_dependencies() {
    let agents = vec![
        AgentPlan {
            writes_scope: "reports".to_string(),
            reads_scopes: vec!["studies_research".to_string()],
        },
        AgentPlan {
            writes_scope: "studies_research".to_string(),
            reads_scopes: vec!["extraction".to_string()],
        },
        AgentPlan {
            writes_scope: "orphans".to_string(),
            reads_scopes: vec!["nobody_writes_this".to_string()],
        },
    ];
    let (order, blocked) = execution_order(&agents, &vec!["extraction".to_string()]);
    assert_eq!(order, vec![1, 0]);
    assert_eq!(blocked, vec![2]);
}

#[test]
fn prompt_holds_template_and_labelled_sections() {
    let agent = SystemContextResearcher::new();
    let mut run = AgentRun::new(
        agent.agent_type(),
        agent.memory_scope_key(),
        agent.prompt_template(),
    );
    run.begin_resolution();
    run.apply_resolution(resolve(&agent.data_config(), &full_store()));
    let prompt = run.prompt.clone().expect("resolved agents have a prompt");
    assert!(prompt.contains("professional software architecture analyst"));
    assert!(prompt.contains("\n\n## PROJECT_STRUCTURE\n\nsrc/ two crates"));
    assert!(prompt.contains("\n\n## CODE_INSIGHTS\n\n12 classes"));
    assert!(prompt.contains("\n\n## README_CONTENT\n\nA sample"));
    assert!(!prompt.contains("CONFLUENCE_PAGES"));
    assert!(prompt.ends_with("system context level"));
}

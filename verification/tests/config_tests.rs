use flowt::config::{
    default_enabled, default_method, is_workflow_file, sort_by_name, NodeConfig, NodeKind, StringMap,
    TriggerConfig, WorkflowConfig,
};

fn log_node(id: &str, message: &str) -> NodeConfig {
    NodeConfig {
        id: id.to_string(),
        kind: NodeKind::Log { message: message.to_string() },
        when: None,
        retry: None,
        timeout: None,
        depends_on: vec![],
    }
}

fn workflow(name: &str) -> WorkflowConfig {
    WorkflowConfig {
        name: name.to_string(),
        description: "".to_string(),
        enabled: true,
        triggers: vec![],
        nodes: vec![],
    }
}

#[test]
fn test_workflow_config_creation() {
    let config = WorkflowConfig {
        name: "test_workflow".to_string(),
        description: "A test workflow".to_string(),
        enabled: true,
        triggers: vec![TriggerConfig::Manual],
        nodes: vec![NodeConfig {
            id: "test_node".to_string(),
            kind: NodeKind::Log {
                message: "Hello, World!".to_string(),
            },
            when: None,
            retry: None,
            timeout: None,
            depends_on: vec![],
        }],
    };

    assert_eq!(config.name, "test_workflow");
    assert_eq!(config.description, "A test workflow");
    assert!(config.enabled);
    assert_eq!(config.nodes.len(), 1);
}

#[test]
fn test_toggle_enabled() {
    let mut config = WorkflowConfig {
        name: "test".to_string(),
        description: "".to_string(),
        enabled: true,
        triggers: vec![],
        nodes: vec![],
    };

    config.toggle_enabled();
    assert!(!config.enabled);

    config.toggle_enabled();
    assert!(config.enabled);
}

#[test]
fn defaults_are_get_and_enabled() {
    assert_eq!(default_method(), "GET");
    assert!(default_enabled());
}

#[test]
fn toggling_keeps_everything_else() {
    let mut config = workflow("keep");
    config.nodes.push(log_node("a", "hello"));
    config.toggle_enabled();
    assert!(!config.enabled);
    assert_eq!(config.name, "keep");
    assert_eq!(config.nodes.len(), 1);
}

#[test]
fn workflows_sorted_by_name_keep_ties_in_order() {
    let mut b1 = workflow("beta");
    b1.description = "first beta".to_string();
    let mut b2 = workflow("beta");
    b2.description = "second beta".to_string();
    let sorted = sort_by_name(vec![workflow("gamma"), b1, workflow("alpha"), b2]);
    let names: Vec<&str> = sorted.iter().map(|w| w.name.as_str()).collect();
    assert_eq!(names, vec!["alpha", "beta", "beta", "gamma"]);
    assert_eq!(sorted[1].description, "first beta");
    assert_eq!(sorted[2].description, "second beta");
}

#[test]
fn only_yaml_files_are_workflow_files() {
    assert!(is_workflow_file("workflow1.yaml"));
    assert!(is_workflow_file("workflow2.yml"));
    assert!(!is_workflow_file("not_yaml.txt"));
    assert!(!is_workflow_file("yaml"));
    assert!(!is_workflow_file("archive.yaml.bak"));
}

#[test]
fn string_map_reads_back_what_was_inserted() {
    let mut m = StringMap::new();
    m.insert("Authorization".to_string(), "Bearer token".to_string());
    m.insert("Content-Type".to_string(), "application/json".to_string());
    m.insert("Authorization".to_string(), "Bearer other".to_string());
    assert_eq!(m.get("Authorization"), Some(&"Bearer other".to_string()));
    assert_eq!(m.get("Content-Type"), Some(&"application/json".to_string()));
    assert_eq!(m.get("Missing"), None);
    assert_eq!(m.len(), 2);
}

#[test]
fn string_map_from_pairs_keeps_the_later_value() {
    let m = StringMap::from_pairs(vec![
        ("VAR1".to_string(), "value1".to_string()),
        ("VAR1".to_string(), "value2".to_string()),
    ]);
    assert_eq!(m.get("VAR1"), Some(&"value2".to_string()));
    assert_eq!(m.len(), 1);
}

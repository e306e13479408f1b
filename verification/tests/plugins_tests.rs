use venus::plugins::{Plugin, PluginCommandDef, PluginManifest, PluginMcpServer, PluginRegistry};

fn server(cmd: &str) -> PluginMcpServer {
    PluginMcpServer { command: cmd.to_string(), args: vec![], env: vec![] }
}

fn plugin(name: &str, servers: Vec<(String, PluginMcpServer)>, commands: Vec<PluginCommandDef>) -> Plugin {
    Plugin {
        manifest: PluginManifest {
            name: name.to_string(),
            version: "1.0.0".to_string(),
            description: None,
            tools: vec![],
            mcp_servers: servers,
            commands,
        },
        base_dir: format!("/plugins/{}", name),
    }
}

fn command(name: &str) -> PluginCommandDef {
    PluginCommandDef {
        name: name.to_string(),
        description: "d".to_string(),
        cmd_type: "prompt".to_string(),
        prompt: Some("p".to_string()),
    }
}

#[test]
fn plugin_registry_test_empty_registry() {
    let registry = PluginRegistry::new();
    assert!(registry.all_plugins().is_empty());
    assert!(registry.mcp_server_configs().is_empty());
    assert!(registry.command_defs().is_empty());
}

#[test]
fn test_mcp_server_configs_merge() {
    let mut registry = PluginRegistry::new();
    registry.add_plugins(vec![
        plugin("p1", vec![("p1-server".to_string(), server("a"))], vec![]),
        plugin("p2", vec![("p2-server".to_string(), server("b"))], vec![]),
    ]);
    let configs = registry.mcp_server_configs();
    assert!(configs.iter().any(|(k, _)| k.as_str() == "p1-server"));
    assert!(configs.iter().any(|(k, _)| k.as_str() == "p2-server"));
}

#[test]
fn test_command_defs() {
    let mut registry = PluginRegistry::new();
    registry.add_plugins(vec![plugin("p1", vec![], vec![command("p1_cmd")])]);
    let cmds = registry.command_defs();
    assert_eq!(cmds.len(), 1);
    assert_eq!(cmds[0].name, "p1_cmd");
}

#[test]
fn later_plugin_server_replaces_earlier_of_same_name() {
    let mut registry = PluginRegistry::new();
    registry.add_plugins(vec![
        plugin("p1", vec![("shared".to_string(), server("first")), ("only1".to_string(), server("x"))], vec![]),
        plugin("p2", vec![("shared".to_string(), server("second"))], vec![command("c2")]),
    ]);
    let configs = registry.mcp_server_configs();
    assert_eq!(configs.len(), 2);
    assert_eq!(configs[0].0.as_str(), "shared");
    assert_eq!(configs[0].1.command, "second");
    assert_eq!(configs[1].0.as_str(), "only1");
    assert_eq!(registry.all_plugins().len(), 2);
    assert_eq!(registry.command_defs()[0].name, "c2");
}

use venus::commands::{custom_command_message, split_command};
use venus::plugins::{Plugin, PluginCommandDef, PluginManifest, PluginRegistry};
use venus::skills::{Skill, SkillRegistry};

fn skill(name: &str, content: &str, invocable: bool) -> Skill {
    Skill {
        name: name.to_string(),
        description: String::new(),
        content: content.to_string(),
        user_invocable: invocable,
        source_path: format!("/skills/{}.md", name),
    }
}

fn plugin_with(cmds: Vec<(&str, Option<&str>)>) -> Plugin {
    Plugin {
        manifest: PluginManifest {
            name: "p".to_string(),
            version: "1".to_string(),
            description: None,
            tools: vec![],
            mcp_servers: vec![],
            commands: cmds
                .into_iter()
                .map(|(n, p)| PluginCommandDef {
                    name: n.to_string(),
                    description: String::new(),
                    cmd_type: "prompt".to_string(),
                    prompt: p.map(|s| s.to_string()),
                })
                .collect(),
        },
        base_dir: "/p".to_string(),
    }
}

#[test]
fn split_command_at_first_space() {
    assert_eq!(split_command("/model opus fast"), ("/model".to_string(), Some("opus fast".to_string())));
    assert_eq!(split_command("/help"), ("/help".to_string(), None));
    assert_eq!(split_command("/x "), ("/x".to_string(), Some(String::new())));
}

#[test]
fn skill_then_plugin_then_nothing() {
    let skills = SkillRegistry {
        skills: vec![skill("Deploy", "Deploy the app.", true), skill("secret", "hidden", false)],
    };
    let mut plugins = PluginRegistry::new();
    plugins.add_plugins(vec![plugin_with(vec![("lint", None), ("lint", Some("Run the linter.")), ("secret", Some("plugin secret"))])]);

    assert_eq!(
        custom_command_message("/deploy", Some(&skills), Some(&plugins)),
        Some("Deploy the app.".to_string())
    );
    assert_eq!(
        custom_command_message("/deploy now please", Some(&skills), None),
        Some("Deploy the app.\n\nArguments: now please".to_string())
    );
    assert_eq!(
        custom_command_message("/lint src", Some(&skills), Some(&plugins)),
        Some("Run the linter.\n\nArguments: src".to_string())
    );
    assert_eq!(
        custom_command_message("/secret", Some(&skills), Some(&plugins)),
        Some("plugin secret".to_string())
    );
    assert_eq!(custom_command_message("/nope", Some(&skills), Some(&plugins)), None);
    assert_eq!(custom_command_message("/deploy", None, None), None);
}

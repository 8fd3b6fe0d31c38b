use shrink::config::{ConfigError, GatewayConfig, ServerSpec};

fn text_of(table: &toml::Table, key: &str) -> String {
    table.get(key).unwrap().as_str().unwrap().to_owned()
}

/// Reads a configuration from TOML.
fn config(text: &str) -> GatewayConfig {
    let table: toml::Table = toml::from_str(text).unwrap();
    let compression = table.get("compression").map(|v| v.as_str().unwrap().to_owned());
    let mut servers: Vec<ServerSpec> = Vec::new();
    if let Some(entries) = table.get("servers") {
        for entry in entries.as_array().unwrap() {
            let entry = entry.as_table().unwrap();
            let mut args: Vec<String> = Vec::new();
            if let Some(given) = entry.get("args") {
                for arg in given.as_array().unwrap() {
                    args.push(arg.as_str().unwrap().to_owned());
                }
            }
            servers.push(ServerSpec { name: text_of(entry, "name"), command: text_of(entry, "command"), args });
        }
    }
    GatewayConfig { compression, servers }
}

fn server(name: &str, command: &str) -> ServerSpec {
    ServerSpec { name: name.to_owned(), command: command.to_owned(), args: Vec::new() }
}

fn refused(servers: Vec<ServerSpec>) -> ConfigError {
    GatewayConfig { compression: None, servers }.validate().unwrap_err()
}

#[test]
fn parses_multi_server() {
    let text = r#"
        compression = "high"
        [[servers]]
        name = "github"
        command = "npx"
        args = ["-y", "@modelcontextprotocol/server-github"]
        [[servers]]
        name = "jira"
        command = "/usr/bin/jira-mcp"
    "#;
    let cfg = config(text);
    cfg.validate().unwrap();
    assert_eq!(cfg.compression.as_deref(), Some("high"));
    assert_eq!(cfg.servers.len(), 2);
    assert_eq!(cfg.servers[0].name, "github");
    assert_eq!(cfg.servers[1].args, Vec::<String>::new());
}

#[test]
fn rejects_invalid_names() {
    let bad = config(
        r#"
            [[servers]]
            name = "has-dash"
            command = "x"
        "#,
    );
    assert!(bad.validate().is_err());
}

#[test]
fn rejects_duplicate_names() {
    let dup = config(
        r#"
            [[servers]]
            name = "a"
            command = "x"
            [[servers]]
            name = "a"
            command = "y"
        "#,
    );
    assert!(dup.validate().is_err());
}

#[test]
fn rejects_empty_server_list() {
    let cfg = config("");
    assert!(cfg.validate().is_err());
}

#[test]
fn every_problem() {
    assert_eq!(refused(vec![]), ConfigError::NoServers);
    assert_eq!(refused(vec![server("", "x")]), ConfigError::EmptyName);
    assert_eq!(refused(vec![server("9a", "x")]), ConfigError::InvalidName("9a".to_owned()));
    assert_eq!(refused(vec![server("é", "x")]), ConfigError::InvalidName("é".to_owned()));
    assert_eq!(refused(vec![server("$a", "x")]), ConfigError::InvalidName("$a".to_owned()));
    assert_eq!(refused(vec![server("a", "x"), server("b", "y"), server("a", "")]), ConfigError::DuplicateName("a".to_owned()));
    assert_eq!(refused(vec![server("a", "")]), ConfigError::EmptyCommand("a".to_owned()));
    // The first server with a problem decides.
    assert_eq!(refused(vec![server("a", ""), server("", "x")]), ConfigError::EmptyCommand("a".to_owned()));
}

#[test]
fn identifiers_are_accepted() {
    let cfg = GatewayConfig {
        compression: None,
        servers: vec![server("_", "x"), server("_9", "x"), server("Az_09", "x")],
    };
    assert!(cfg.validate().is_ok());
}

#[test]
fn problems_in_one_sentence() {
    assert_eq!(ConfigError::NoServers.message(), "config must declare at least one [[servers]] entry");
    assert_eq!(ConfigError::EmptyName.message(), "server `name` must be non-empty");
    assert_eq!(
        ConfigError::InvalidName("a-b".to_owned()).message(),
        "server name 'a-b' must match [A-Za-z_][A-Za-z0-9_]* — it becomes a tool-name prefix"
    );
    assert_eq!(ConfigError::DuplicateName("a".to_owned()).message(), "duplicate server name: a");
    assert_eq!(ConfigError::EmptyCommand("a".to_owned()).message(), "server 'a' has empty command");
}

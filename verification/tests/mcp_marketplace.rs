use agentforge_ui::mcp::{
    config_saved_message, refresh_outcome, secret_entry, server_tools, stale_tools,
    stored_secret_message, tool_server_label, McpToolRef,
};
use agentforge_ui::mcp::{McpMarketplacePanel, McpTransport};

#[test]
fn configuration_imports_multiple_servers() {
    let servers = McpMarketplacePanel::parse_server_config(
        r#"{"mcpServers":{"local":{"command":"node","args":["server.js"]},"remote":{"serverUrl":"https://mcp.example.test/api","headers":{"Authorization":"secret://remote-token"}}}}"#,
    )
    .expect("configuration should parse");
    assert_eq!(servers.len(), 2);
}

#[test]
fn configuration_rejects_credentials_in_args_or_url() {
    let args = McpMarketplacePanel::parse_server_config(
        r#"{"mcpServers":{"bad":{"command":"node","args":["server.js","--token=raw-value"]}}}"#,
    );
    assert!(args.is_err());
    let url = McpMarketplacePanel::parse_server_config(
        r#"{"mcpServers":{"bad":{"serverUrl":"https://mcp.example.test/api?token=raw-value"}}}"#,
    );
    assert!(url.is_err());
}

#[test]
fn imported_servers_keep_their_settings_in_key_order() {
    let servers = McpMarketplacePanel::parse_server_config(
        r#"{"mcpServers":{"remote":{"serverUrl":"https://mcp.example.test/api","headers":{"Authorization":"secret://remote-token","X-Trace":"plain"}},"local":{"command":"node","args":["server.js",3,"--verbose"],"env":{"TOKEN":"secret://t"}}}}"#,
    )
    .unwrap();
    assert_eq!(servers[0].name, "local");
    assert_eq!(servers[0].transport, McpTransport::Stdio);
    assert_eq!(servers[0].command.as_deref(), Some("node"));
    assert_eq!(servers[0].args, vec!["server.js".to_string(), "--verbose".to_string()]);
    assert_eq!(servers[0].env_secret_refs, vec![("TOKEN".to_string(), "secret://t".to_string())]);
    assert_eq!(servers[1].name, "remote");
    assert_eq!(servers[1].transport, McpTransport::Http);
    assert_eq!(servers[1].endpoint.as_deref(), Some("https://mcp.example.test/api"));
    assert_eq!(servers[1].header_secret_refs.len(), 2);
}

#[test]
fn configuration_error_messages() {
    assert_eq!(
        McpMarketplacePanel::parse_server_config(r#"{"servers":{}}"#).unwrap_err(),
        "Configuration must contain a mcpServers object."
    );
    assert_eq!(
        McpMarketplacePanel::parse_server_config(r#"{"mcpServers":{}}"#).unwrap_err(),
        "Configuration must contain at least one MCP server."
    );
    assert!(McpMarketplacePanel::parse_server_config("{not json").unwrap_err().starts_with("Invalid JSON: "));
    assert_eq!(
        McpMarketplacePanel::parse_server_config(r#"{"mcpServers":{"x":{"args":[]}}}"#).unwrap_err(),
        "Server 'x' must define command or serverUrl."
    );
    assert_eq!(
        McpMarketplacePanel::parse_server_config(r#"{"mcpServers":{"x":{"command":"node","args":["--api-key=1"]}}}"#).unwrap_err(),
        "Credential-bearing argument '--api-key=1' is not permitted; pass credentials through env or headers using a secret:// reference."
    );
    assert_eq!(
        McpMarketplacePanel::parse_server_config(r#"{"mcpServers":{"x":{"command":"node","env":{"KEY":"raw"}}}}"#).unwrap_err(),
        "env value KEY must use secret:// reference; raw credentials are not stored."
    );
    assert_eq!(
        McpMarketplacePanel::parse_server_config(r#"{"mcpServers":{"x":{"command":"node","env":{"KEY":1}}}}"#).unwrap_err(),
        "env value KEY must be a secret reference."
    );
    assert_eq!(
        McpMarketplacePanel::parse_server_config(r#"{"mcpServers":{"x":{"url":"https://h.test","headers":{"Cookie":"raw"}}}}"#).unwrap_err(),
        "headers value Cookie must use secret:// reference; raw credentials are not stored."
    );
}

#[test]
fn endpoint_checks() {
    assert!(McpMarketplacePanel::validate_endpoint("https://mcp.example.test/api").is_ok());
    assert_eq!(
        McpMarketplacePanel::validate_endpoint("http://mcp.example.test").unwrap_err(),
        "Remote MCP endpoints must use HTTPS."
    );
    assert_eq!(
        McpMarketplacePanel::validate_endpoint("https://LocalHost/x").unwrap_err(),
        "Remote MCP endpoints cannot target loopback hosts."
    );
    assert_eq!(
        McpMarketplacePanel::validate_endpoint("https://a.localhost").unwrap_err(),
        "Remote MCP endpoints cannot target loopback hosts."
    );
    assert_eq!(
        McpMarketplacePanel::validate_endpoint("https://user:pw@host.test/").unwrap_err(),
        "Endpoint URLs must not embed username/password credentials."
    );
    assert_eq!(
        McpMarketplacePanel::validate_endpoint("https://host.test/a?x=1&Api-Key=2").unwrap_err(),
        "Credential-bearing endpoint parameter 'Api-Key' is not permitted; use a secret:// Authorization header."
    );
    assert!(McpMarketplacePanel::validate_endpoint("not a url").unwrap_err().starts_with("Invalid remote MCP endpoint: "));
}

#[test]
fn sensitive_names() {
    assert!(McpMarketplacePanel::is_sensitive_name("GITHUB_TOKEN"));
    assert!(McpMarketplacePanel::is_sensitive_name("x-ApiKey"));
    assert!(!McpMarketplacePanel::is_sensitive_name("verbose"));
}

#[test]
fn catalog_records() {
    let entries = McpMarketplacePanel::catalog_entries();
    assert_eq!(entries.len(), 3);
    let record = McpMarketplacePanel::catalog_record_at(&entries[0], "ready", "2024-01-01T00:00:00+00:00".to_string()).unwrap();
    assert_eq!(record.id, "mcp-server-github");
    assert!(record.is_enabled);
    assert_eq!(record.health_status, "ready");
    assert_eq!(record.source_kind, "catalog");
    let blocked = McpMarketplacePanel::catalog_record_at(&entries[1], "blocked_until_isolated", String::new()).unwrap();
    assert!(!blocked.is_enabled);
}

#[test]
fn manual_records() {
    let servers = McpMarketplacePanel::parse_server_config(
        r#"{"mcpServers":{"local":{"command":"node"},"remote":{"url":"https://h.test"}}}"#,
    )
    .unwrap();
    let local = servers[0].record_at("blocked_until_isolated", "t".to_string());
    assert_eq!(local.id, "mcp-server-local");
    assert!(!local.is_enabled);
    assert_eq!(local.health_status, "blocked_until_isolated");
    let remote = servers[1].record_at("blocked_until_isolated", "t".to_string());
    assert!(remote.is_enabled);
    assert_eq!(remote.health_status, "configured");
    assert_eq!(remote.source_kind, "manual_config");
}

#[test]
fn refresh_marks_missing_tools_of_the_server() {
    let tool = |id: &str, server: Option<&str>| McpToolRef { id: id.to_string(), server_id: server.map(|s| s.to_string()) };
    let tools = vec![tool("a", Some("s1")), tool("b", Some("s1")), tool("c", Some("s2")), tool("d", None)];
    assert_eq!(stale_tools(&tools, "s1", &vec!["b".to_string()]), vec![0]);
    assert_eq!(server_tools(&tools, "s1"), vec![0, 1]);
}

#[test]
fn refresh_outcomes_and_messages() {
    let ok = refresh_outcome("fs", Ok(3));
    assert_eq!(ok.health_status, "available");
    assert_eq!(ok.last_error, None);
    assert_eq!(ok.message, "Discovered 3 tool(s) from 'fs'.");
    let bad = refresh_outcome("fs", Err("timeout".to_string()));
    assert_eq!(bad.health_status, "error");
    assert_eq!(bad.last_error.as_deref(), Some("timeout"));
    assert_eq!(bad.message, "Unable to refresh 'fs': timeout");
    assert_eq!(config_saved_message(2, &vec![]), "Configured 2 server(s). Refresh each server to discover tools.");
    assert_eq!(
        config_saved_message(2, &vec!["a: x".to_string(), "b: y".to_string()]),
        "Unable to save server configuration: a: x; b: y"
    );
    assert_eq!(tool_server_label(None), "unassigned");
}

#[test]
fn secrets_need_a_reference_and_a_value() {
    assert_eq!(secret_entry("  ", "v").unwrap_err(), "Secret reference and value are required.");
    assert_eq!(secret_entry("gh", "").unwrap_err(), "Secret reference and value are required.");
    assert_eq!(secret_entry(" gh ", " v ").unwrap(), ("gh".to_string(), " v ".to_string()));
    assert_eq!(stored_secret_message("gh"), "Stored secret://gh in OS credential storage.");
}

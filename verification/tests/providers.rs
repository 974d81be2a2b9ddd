use agentforge_ui::providers::{
    apply_provider_update, credential_label, draft_new_provider, draft_provider_update,
    endpoint_label, free_provider_name, new_key_plan, owned_secret_account, provider_protocol,
    provider_status, provider_status_from, provider_type_choices, providers_with_key,
    replacement_key_plan, sanitize_base_url, sanitize_display_name, sanitize_model_id,
    secret_account_from_ref, secret_reference, stale_secret_account, template_choice,
    unique_provider_name,
    KeyPlan, NewProviderForm, Provider, ProviderEditForm, ProviderFormError, ProviderStatus,
    ProviderTemplate,
};

fn provider(id: &str, name: &str, model: &str, adapter: &str) -> Provider {
    Provider {
        id: id.to_string(),
        provider_name: name.to_string(),
        model: model.to_string(),
        adapter_type: adapter.to_string(),
        command: None,
        api_key_ref: None,
        status: "available".to_string(),
    }
}

fn template(label: &str, adapter: &str, protocol: &str) -> ProviderTemplate {
    ProviderTemplate {
        label: label.to_string(),
        adapter: adapter.to_string(),
        protocol: protocol.to_string(),
        default_base_url: String::new(),
        models: vec![],
    }
}

#[test]
fn fields_are_cleaned_of_whitespace_and_backticks() {
    assert_eq!(sanitize_base_url("  `https://api.test/v1`  "), "https://api.test/v1");
    assert_eq!(sanitize_model_id("` gpt-x `"), "gpt-x");
    assert_eq!(sanitize_display_name(" OpenAI / Prod "), "OpenAI - Prod");
    assert_eq!(sanitize_display_name("``"), "");
}

#[test]
fn endpoint_label_shows_the_host() {
    assert_eq!(endpoint_label(None), "Default endpoint");
    assert_eq!(endpoint_label(Some("   ")), "Default endpoint");
    assert_eq!(endpoint_label(Some(" https://api.example.com/v1/chat ")), "api.example.com");
    assert_eq!(endpoint_label(Some("localhost:11434/api")), "localhost:11434");
    assert_eq!(endpoint_label(Some("https:///path")), "https:///path");
}

#[test]
fn credential_label_names_the_kind_of_reference() {
    assert_eq!(credential_label(None), "No key");
    assert_eq!(credential_label(Some("  ")), "No key");
    assert_eq!(credential_label(Some("secret://acct")), "Secret stored");
    assert_eq!(credential_label(Some(" env:OPENAI_KEY ")), "Env: OPENAI_KEY");
    assert_eq!(credential_label(Some("env:env:X")), "Env: X");
    assert_eq!(credential_label(Some("vault:abc")), "Credential ref");
}

#[test]
fn secret_accounts_are_read_from_secret_references() {
    assert_eq!(secret_account_from_ref(Some(" secret:// acct-1 ")), Some("acct-1".to_string()));
    assert_eq!(secret_account_from_ref(Some("secret://  ")), None);
    assert_eq!(secret_account_from_ref(Some("env:X")), None);
    assert_eq!(secret_account_from_ref(None), None);
    assert_eq!(secret_reference("acct-1"), "secret://acct-1");
}

#[test]
fn a_written_secret_reference_names_its_account_again() {
    let account = "custom-provider-1234";
    let reference = secret_reference(account);
    assert_eq!(secret_account_from_ref(Some(&reference)), Some(account.to_string()));
    assert_eq!(credential_label(Some(&reference)), "Secret stored");
}

#[test]
fn only_owned_secrets_are_replaced_or_removed() {
    assert_eq!(owned_secret_account(Some("secret://custom-provider-9")), Some("custom-provider-9".to_string()));
    assert_eq!(owned_secret_account(Some("secret://team-token")), None);
    assert_eq!(stale_secret_account(Some("secret://custom-provider-9"), Some("env:X")), Some("custom-provider-9".to_string()));
    assert_eq!(stale_secret_account(Some("secret://custom-provider-9"), Some("secret://custom-provider-9")), None);
    assert_eq!(stale_secret_account(None, Some("env:X")), None);
}

#[test]
fn protocol_comes_from_the_matching_template() {
    let templates = vec![template("OpenAI", "OpenAIAdapter", "openai"), template("Local", "CustomAdapter", "openai-compatible")];
    assert_eq!(provider_protocol(&provider("1", "OpenAI", "m", "X"), &templates), "openai");
    assert_eq!(provider_protocol(&provider("1", "Mine", "m", "CustomAdapter"), &templates), "openai-compatible");
    assert_eq!(provider_protocol(&provider("1", "Mine", "m", "Other"), &templates), "Other");
}

#[test]
fn status_reflects_status_endpoint_and_key() {
    let mut p = provider("1", "Mine", "m", "CustomAdapter");
    p.status = " Online ".to_string();
    assert_eq!(provider_status(&p), ProviderStatus::NeedsEndpoint);
    p.command = Some("http://localhost".to_string());
    assert_eq!(provider_status(&p), ProviderStatus::NeedsKey);
    p.api_key_ref = Some("env:K".to_string());
    assert_eq!(provider_status(&p), ProviderStatus::Ready);
    p.status = "disabled".to_string();
    assert_eq!(provider_status(&p), ProviderStatus::Offline);
    assert_eq!(provider_status_from("healthy", &p), ProviderStatus::Ready);
    assert_eq!(ProviderStatus::NeedsEndpoint.label(), "Needs endpoint");
}

#[test]
fn unique_names_are_numbered_from_two() {
    let existing = vec![provider("1", "OpenAI", "a", "X"), provider("2", "OpenAI 2", "b", "X")];
    assert_eq!(unique_provider_name(" Mistral ", &existing), "Mistral");
    assert_eq!(unique_provider_name("OpenAI", &existing), "OpenAI 3");
    assert_eq!(free_provider_name("OpenAI", &existing), Some("OpenAI 3".to_string()));
}

#[test]
fn unique_names_fall_back_to_a_random_suffix() {
    let mut existing = vec![provider("0", "P", "m", "X")];
    for ix in 2..1000 {
        existing.push(provider("x", &format!("P {}", ix), "m", "X"));
    }
    assert_eq!(free_provider_name("P", &existing), None);
    let name = unique_provider_name("P", &existing);
    assert!(name.starts_with("P "));
    assert!(name.len() > 2);
}

#[test]
fn new_provider_needs_a_template_and_a_real_model() {
    let templates = vec![template("OpenAI", "OpenAIAdapter", "openai")];
    let mut form = NewProviderForm {
        provider: None,
        selected_model: Some("gpt-4o".to_string()),
        alias: String::new(),
        model_override: String::new(),
        base_url: String::new(),
    };
    assert_eq!(draft_new_provider(&form, &templates, &vec![], None).unwrap_err(), ProviderFormError::NoProviderSelected);
    form.provider = Some("Custom".to_string());
    form.model_override = " custom-model ".to_string();
    assert_eq!(draft_new_provider(&form, &templates, &vec![], None).unwrap_err(), ProviderFormError::MissingModel);
    assert_eq!(ProviderFormError::MissingModel.message(), "Enter the real custom provider model or deployment id.");
}

#[test]
fn new_provider_takes_the_form_values() {
    let templates = vec![template("OpenAI", "OpenAIAdapter", "openai")];
    let existing = vec![provider("1", "OpenAI", "a", "OpenAIAdapter")];
    let form = NewProviderForm {
        provider: Some("OpenAI".to_string()),
        selected_model: Some(" gpt-4o ".to_string()),
        alias: String::new(),
        model_override: String::new(),
        base_url: " `https://api.openai.com/v1` ".to_string(),
    };
    let p = draft_new_provider(&form, &templates, &existing, Some("env:OPENAI".to_string())).unwrap();
    assert_eq!(p.provider_name, "OpenAI 2");
    assert_eq!(p.model, "gpt-4o");
    assert_eq!(p.adapter_type, "OpenAIAdapter");
    assert_eq!(p.command.as_deref(), Some("https://api.openai.com/v1"));
    assert_eq!(p.api_key_ref.as_deref(), Some("env:OPENAI"));
    assert_eq!(p.status, "available");
    assert!(!p.id.is_empty());
}

#[test]
fn key_plans_for_a_new_provider() {
    assert!(matches!(new_key_plan("   ", false), KeyPlan::NoKey));
    assert!(matches!(new_key_plan(" env:K ", true), KeyPlan::Reference(r) if r == "env:K"));
    match new_key_plan(" sk-raw ", false) {
        KeyPlan::Store { account, secret } => {
            assert!(account.starts_with("custom-provider-"));
            assert_eq!(secret, "sk-raw");
        }
        other => panic!("unexpected {:?}", other),
    }
}

#[test]
fn replacement_keys_reuse_the_owned_account() {
    assert_eq!(replacement_key_plan(" ", false, None).unwrap_err(), ProviderFormError::MissingApiKey);
    match replacement_key_plan("sk-new", false, Some("secret://custom-provider-7")).unwrap() {
        KeyPlan::Store { account, secret } => {
            assert_eq!(account, "custom-provider-7");
            assert_eq!(secret, "sk-new");
        }
        other => panic!("unexpected {:?}", other),
    }
    match replacement_key_plan("sk-new", false, Some("secret://shared")).unwrap() {
        KeyPlan::Store { account, .. } => assert!(account.starts_with("custom-provider-") && account != "custom-provider-"),
        other => panic!("unexpected {:?}", other),
    }
}

#[test]
fn edits_are_checked_in_order() {
    let providers = vec![provider("1", "Alpha", "m1", "OpenAIAdapter"), provider("2", "Beta", "m2", "CustomAdapter")];
    let templates = vec![template("Custom", "CustomAdapter", "openai-compatible")];
    let mut form = ProviderEditForm { provider_type: None, display_name: "Beta".to_string(), model: "m2".to_string(), endpoint: String::new() };
    assert_eq!(draft_provider_update(&providers, "9", &form, &templates).unwrap_err(), ProviderFormError::NotFound);
    assert_eq!(draft_provider_update(&providers, "2", &form, &templates).unwrap_err(), ProviderFormError::MissingEndpoint);
    form.display_name = " ".to_string();
    assert_eq!(draft_provider_update(&providers, "2", &form, &templates).unwrap_err(), ProviderFormError::MissingNameOrModel);
    form.display_name = "ALPHA".to_string();
    form.model = "M1".to_string();
    assert!(draft_provider_update(&providers, "1", &form, &templates).is_ok());
    assert_eq!(draft_provider_update(&providers, "2", &ProviderEditForm { provider_type: None, display_name: "ALPHA".to_string(), model: "M1".to_string(), endpoint: "http://h".to_string() }, &templates).unwrap_err(), ProviderFormError::Duplicate);
}

#[test]
fn an_edit_is_applied_on_the_same_id() {
    let providers = vec![provider("1", "Alpha", "m1", "OpenAIAdapter")];
    let templates = vec![template("Custom", "CustomAdapter", "openai-compatible")];
    let form = ProviderEditForm { provider_type: Some("Custom".to_string()), display_name: " Alpha / EU ".to_string(), model: "m9".to_string(), endpoint: " http://h ".to_string() };
    let edit = draft_provider_update(&providers, "1", &form, &templates).unwrap();
    assert_eq!(edit.index, 0);
    assert_eq!(edit.adapter_type, "CustomAdapter");
    let updated = apply_provider_update(&providers[0], &edit, Some("env:K".to_string()));
    assert_eq!(updated.id, "1");
    assert_eq!(updated.provider_name, "Alpha - EU");
    assert_eq!(updated.model, "m9");
    assert_eq!(updated.command.as_deref(), Some("http://h"));
    assert_eq!(updated.api_key_ref.as_deref(), Some("env:K"));
    assert_eq!(updated.status, "available");
}

#[test]
fn type_choices_add_an_unknown_adapter() {
    let templates = vec![template("OpenAI", "OpenAIAdapter", "openai"), template("Local", "CustomAdapter", "x")];
    let (options, chosen) = provider_type_choices(&templates, "CustomAdapter");
    assert_eq!(options, vec!["OpenAI".to_string(), "Local".to_string()]);
    assert_eq!(chosen, 1);
    let (options, chosen) = provider_type_choices(&templates, "GeminiAdapter");
    assert_eq!(options.len(), 3);
    assert_eq!(options[2], "GeminiAdapter");
    assert_eq!(chosen, 2);
}

#[test]
fn providers_with_a_key_are_counted() {
    let mut a = provider("1", "A", "m", "X");
    a.api_key_ref = Some("env:A".to_string());
    let mut b = provider("2", "B", "m", "X");
    b.api_key_ref = Some(String::new());
    let c = provider("3", "C", "m", "X");
    assert_eq!(providers_with_key(&vec![a, b, c]), 1);
}

#[test]
fn choosing_a_template_fills_its_models_and_url() {
    let mut t = template("OpenAI", "OpenAIAdapter", "openai");
    t.models = vec!["gpt-4o".to_string(), "o3".to_string()];
    t.default_base_url = " `https://api.openai.com/v1` ".to_string();
    let (models, url) = template_choice(&vec![t], "OpenAI").unwrap();
    assert_eq!(models, vec!["gpt-4o".to_string(), "o3".to_string()]);
    assert_eq!(url, "https://api.openai.com/v1");
    assert!(template_choice(&vec![], "OpenAI").is_none());
}

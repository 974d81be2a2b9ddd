//! The MCP server marketplace: the built-in catalog and the import of `mcpServers`
//! configurations, with the checks that keep raw credentials out of stored settings.
use crate::clock::now_rfc3339;
use crate::json::{get, json_get, json_text, parse_json, serde_json_from_str, text_of, JsonValue};
use crate::text::{
    chars_eq, chars_of, concat2, concat3, contains, contains_str, ends_with, ends_with_chars,
    find, find_from, lower, lower_chars, occurs_at, slice_chars, split_char, split_chars,
    starts_with, starts_with_str, string_from, string_of, trim, views,
};
use vstd::prelude::*;

verus! {

// ---------------------------------------------------------------------------
// Records
// ---------------------------------------------------------------------------
#[derive(Clone, Copy, PartialEq, Eq, Debug, Structural)]
pub enum McpTransport {
    Stdio,
    Http,
}

impl McpTransport {
    /// The name stored for the transport.
    pub fn as_str(&self) -> (r: &'static str)
        ensures
            r@ == transport_name(*self),
    {
        match self {
            McpTransport::Stdio => "stdio",
            McpTransport::Http => "http",
        }
    }
}

pub open spec fn transport_name(t: McpTransport) -> Seq<char> {
    match t {
        McpTransport::Stdio => "stdio"@,
        McpTransport::Http => "http"@,
    }
}

/// One server of an imported configuration, checked and ready to be stored.
#[derive(Debug)]
pub struct McpServerEntry {
    pub name: String,
    pub transport: McpTransport,
    pub command: Option<String>,
    pub args: Vec<String>,
    pub endpoint: Option<String>,
    /// Environment variables and the `secret://` references that fill them.
    pub env_secret_refs: Vec<(String, String)>,
    /// Request headers and the references that fill them.
    pub header_secret_refs: Vec<(String, String)>,
}

/// An MCP server as the registry stores it.
#[derive(Debug)]
pub struct McpServerRecord {
    pub id: String,
    pub name: String,
    pub transport: McpTransport,
    pub command: Option<String>,
    pub args: Vec<String>,
    pub endpoint: Option<String>,
    /// The environment's references, as the JSON text of an object.
    pub env_secret_refs: String,
    /// The headers' references, as the JSON text of an object.
    pub header_secret_refs: String,
    pub source_kind: String,
    pub is_enabled: bool,
    pub health_status: String,
    pub last_error: Option<String>,
    pub created_at: String,
    pub updated_at: String,
}

/// An entry of the built-in catalog.
#[derive(Debug)]
pub struct McpCatalogEntry {
    pub id: String,
    pub name: String,
    pub description: String,
    pub command: String,
    pub args: Vec<String>,
    pub env_refs: Vec<(String, String)>,
}

pub open spec fn opt_view(o: Option<String>) -> Option<Seq<char>> {
    match o {
        Some(s) => Some(s@),
        None => None,
    }
}

pub open spec fn strs_view(v: Seq<String>) -> Seq<Seq<char>> {
    v.map_values(|s: String| s@)
}

pub open spec fn pairs_view(v: Seq<(String, String)>) -> Seq<(Seq<char>, Seq<char>)> {
    v.map_values(|p: (String, String)| (p.0@, p.1@))
}

// ---------------------------------------------------------------------------
// Credential checks
// ---------------------------------------------------------------------------
/// A name that looks like it carries a credential.
pub open spec fn sensitive(v: Seq<char>) -> bool {
    let l = lower(v);
    ||| contains(l, "token"@)
    ||| contains(l, "secret"@)
    ||| contains(l, "password"@)
    ||| contains(l, "passwd"@)
    ||| contains(l, "api-key"@)
    ||| contains(l, "apikey"@)
    ||| contains(l, "authorization"@)
}

pub open spec fn arg_message(arg: Seq<char>) -> Seq<char> {
    "Credential-bearing argument '"@ + arg
        + "' is not permitted; pass credentials through env or headers using a secret:// reference."@
}

/// The message for the first credential-bearing argument at or after `i`.
pub open spec fn args_error_from(args: Seq<Seq<char>>, i: int) -> Option<Seq<char>>
    decreases args.len() - i,
{
    if i < 0 || i >= args.len() {
        None
    } else if sensitive(args[i]) {
        Some(arg_message(args[i]))
    } else {
        args_error_from(args, i + 1)
    }
}

pub open spec fn args_error(args: Seq<Seq<char>>) -> Option<Seq<char>> {
    args_error_from(args, 0)
}

/// What `url::Url::parse` gives for a text: its scheme and host, or the text of the
/// parse error.
pub uninterp spec fn url_parse(input: Seq<char>) -> Result<(Seq<char>, Option<Seq<char>>), Seq<char>>;

/// `reqwest::Url::parse` (the `url` crate's `Url::parse`): the contract names the
/// scheme and the host text of the parsed URL, or the text of the error, and says
/// nothing more of them.
#[verifier::external_body]
fn parse_url(input: &str) -> (r: Result<(String, Option<String>), String>)
    ensures
        match r {
            Ok((scheme, host)) => url_parse(input@) == Ok::<(Seq<char>, Option<Seq<char>>), Seq<char>>(
                (scheme@, opt_view(host)),
            ),
            Err(e) => url_parse(input@) == Err::<(Seq<char>, Option<Seq<char>>), Seq<char>>(e@),
        },
{
    match reqwest::Url::parse(input) {
        Ok(url) => Ok((url.scheme().to_string(), url.host_str().map(|h| h.to_string()))),
        Err(e) => Err(e.to_string()),
    }
}

pub open spec fn loopback_host(h: Seq<char>) -> bool {
    ||| h == "localhost"@
    ||| h == "127.0.0.1"@
    ||| h == "::1"@
    ||| ends_with(h, ".localhost"@)
}

/// The authority part of an endpoint: after the first `://`, up to the next `/`.
pub open spec fn authority(e: Seq<char>) -> Seq<char> {
    match find(e, "://"@) {
        Some(p) => split_char(e.subrange(p + "://"@.len(), e.len() as int), '/')[0],
        None => Seq::<char>::empty(),
    }
}

pub open spec fn param_message(name: Seq<char>) -> Seq<char> {
    "Credential-bearing endpoint parameter '"@ + name
        + "' is not permitted; use a secret:// Authorization header."@
}

/// The message for the first query parameter, at or after `i`, with a credential-like name.
pub open spec fn params_error_from(params: Seq<Seq<char>>, i: int) -> Option<Seq<char>>
    decreases params.len() - i,
{
    if i < 0 || i >= params.len() {
        None
    } else if sensitive(split_char(params[i], '=')[0]) {
        Some(param_message(split_char(params[i], '=')[0]))
    } else {
        params_error_from(params, i + 1)
    }
}

/// The query of an endpoint (after its first `?`) split at `&`.
pub open spec fn query_error(e: Seq<char>) -> Option<Seq<char>> {
    match find(e, seq!['?']) {
        Some(q) => params_error_from(split_char(e.subrange(q + 1, e.len() as int), '&'), 0),
        None => None,
    }
}

/// Why a remote endpoint is refused, if it is.
pub open spec fn endpoint_error(e: Seq<char>) -> Option<Seq<char>> {
    match url_parse(e) {
        Err(msg) => Some("Invalid remote MCP endpoint: "@ + msg),
        Ok((scheme, host)) => parsed_endpoint_error(e, scheme, host),
    }
}

/// Why the endpoint `e`, parsed into the scheme `scheme` and the host `host`, is
/// refused, if it is.
pub open spec fn parsed_endpoint_error(e: Seq<char>, scheme: Seq<char>, host: Option<Seq<char>>) -> Option<Seq<char>> {
    let h = lower(
        match host {
            Some(h) => h,
            None => Seq::<char>::empty(),
        },
    );
    if scheme != "https"@ {
        Some("Remote MCP endpoints must use HTTPS."@)
    } else if loopback_host(h) {
        Some("Remote MCP endpoints cannot target loopback hosts."@)
    } else if authority(e).contains('@') {
        Some("Endpoint URLs must not embed username/password credentials."@)
    } else {
        query_error(e)
    }
}

// ---------------------------------------------------------------------------
// Server configurations
// ---------------------------------------------------------------------------
pub open spec fn server_command(config: JsonValue) -> Option<Seq<char>> {
    json_text(json_get(config, "command"@))
}

pub open spec fn server_endpoint(config: JsonValue) -> Option<Seq<char>> {
    json_text(
        match json_get(config, "serverUrl"@) {
            Some(v) => Some(v),
            None => json_get(config, "url"@),
        },
    )
}

/// The texts among `items` from position `i` on, in order.
pub open spec fn texts_from(items: Seq<JsonValue>, i: int) -> Seq<Seq<char>>
    decreases items.len() - i,
{
    if i < 0 || i >= items.len() {
        Seq::<Seq<char>>::empty()
    } else {
        match items[i] {
            JsonValue::Text(s) => seq![s@] + texts_from(items, i + 1),
            _ => texts_from(items, i + 1),
        }
    }
}

pub open spec fn server_args(config: JsonValue) -> Seq<Seq<char>> {
    match json_get(config, "args"@) {
        Some(JsonValue::Array(items)) => texts_from(items@, 0),
        _ => Seq::<Seq<char>>::empty(),
    }
}

pub open spec fn refs_key(for_headers: bool) -> Seq<char> {
    if for_headers {
        "headers"@
    } else {
        "env"@
    }
}

/// A header that carries credentials and so must come from a secret reference.
pub open spec fn credential_header(name: Seq<char>) -> bool {
    let l = lower(name);
    ||| l == "authorization"@
    ||| l == "proxy-authorization"@
    ||| l == "x-api-key"@
    ||| l == "api-key"@
    ||| l == "cookie"@
    ||| l == "set-cookie"@
}

/// Why the members of an `env` (or `headers`) object are refused, from member `i` on.
pub open spec fn refs_error_from(
    fields: Seq<(String, JsonValue)>,
    for_headers: bool,
    i: int,
) -> Option<Seq<char>>
    decreases fields.len() - i,
{
    if i < 0 || i >= fields.len() {
        None
    } else {
        match fields[i].1 {
            JsonValue::Text(v) => if (!for_headers || credential_header(fields[i].0@)) && !starts_with(
                v@,
                "secret://"@,
            ) {
                Some(
                    refs_key(for_headers) + " value "@ + fields[i].0@
                        + " must use secret:// reference; raw credentials are not stored."@,
                )
            } else {
                refs_error_from(fields, for_headers, i + 1)
            },
            _ => Some(
                refs_key(for_headers) + " value "@ + fields[i].0@
                    + " must be a secret reference."@,
            ),
        }
    }
}

pub open spec fn refs_error(config: JsonValue, for_headers: bool) -> Option<Seq<char>> {
    match json_get(config, refs_key(for_headers)) {
        Some(JsonValue::Object(fields)) => refs_error_from(fields@, for_headers, 0),
        _ => None,
    }
}

/// The name and text of each member.
pub open spec fn text_pairs(fields: Seq<(String, JsonValue)>) -> Seq<(Seq<char>, Seq<char>)> {
    fields.map_values(
        |f: (String, JsonValue)|
            (
                f.0@,
                match f.1 {
                    JsonValue::Text(s) => s@,
                    _ => Seq::<char>::empty(),
                },
            ),
    )
}

pub open spec fn server_refs(config: JsonValue, for_headers: bool) -> Seq<(Seq<char>, Seq<char>)> {
    match json_get(config, refs_key(for_headers)) {
        Some(JsonValue::Object(fields)) => text_pairs(fields@),
        _ => Seq::<(Seq<char>, Seq<char>)>::empty(),
    }
}

/// Why the server `name` with settings `config` is refused, if it is.
pub open spec fn server_error(name: Seq<char>, config: JsonValue) -> Option<Seq<char>> {
    if server_command(config) is None && server_endpoint(config) is None {
        Some("Server '"@ + name + "' must define command or serverUrl."@)
    } else if args_error(server_args(config)) is Some {
        args_error(server_args(config))
    } else if server_endpoint(config) is Some && endpoint_error(server_endpoint(config)->0) is Some {
        endpoint_error(server_endpoint(config)->0)
    } else if refs_error(config, false) is Some {
        refs_error(config, false)
    } else {
        refs_error(config, true)
    }
}

/// `e` is the entry imported for the server `name` with settings `config`.
pub open spec fn entry_describes(e: McpServerEntry, name: Seq<char>, config: JsonValue) -> bool {
    &&& e.name@ == name
    &&& opt_view(e.command) == server_command(config)
    &&& opt_view(e.endpoint) == server_endpoint(config)
    &&& e.transport == if server_command(config) is Some {
        McpTransport::Stdio
    } else {
        McpTransport::Http
    }
    &&& strs_view(e.args@) == server_args(config)
    &&& pairs_view(e.env_secret_refs@) == server_refs(config, false)
    &&& pairs_view(e.header_secret_refs@) == server_refs(config, true)
}

/// The first refused server at or after position `i`.
pub open spec fn servers_error_from(servers: Seq<(String, JsonValue)>, i: int) -> Option<Seq<char>>
    decreases servers.len() - i,
{
    if i < 0 || i >= servers.len() {
        None
    } else if server_error(servers[i].0@, servers[i].1) is Some {
        server_error(servers[i].0@, servers[i].1)
    } else {
        servers_error_from(servers, i + 1)
    }
}

/// The servers of a parsed configuration: the members of its `mcpServers` object.
pub open spec fn servers_in(v: JsonValue) -> Option<Seq<(String, JsonValue)>> {
    match json_get(v, "mcpServers"@) {
        Some(JsonValue::Object(servers)) => Some(servers@),
        _ => None,
    }
}

/// The servers of a configuration text: the members of its `mcpServers` object.
pub open spec fn servers_of(raw: Seq<char>) -> Option<Seq<(String, JsonValue)>> {
    match serde_json_from_str(raw) {
        Ok(v) => servers_in(v),
        Err(_) => None,
    }
}

/// Why a parsed configuration is refused, if it is.
pub open spec fn value_config_error(v: JsonValue) -> Option<Seq<char>> {
    match json_get(v, "mcpServers"@) {
        Some(JsonValue::Object(servers)) => if servers@.len() == 0 {
            Some("Configuration must contain at least one MCP server."@)
        } else {
            servers_error_from(servers@, 0)
        },
        _ => Some("Configuration must contain a mcpServers object."@),
    }
}

/// Why a configuration text is refused, if it is.
pub open spec fn config_error(raw: Seq<char>) -> Option<Seq<char>> {
    match serde_json_from_str(raw) {
        Err(e) => Some("Invalid JSON: "@ + e),
        Ok(v) => value_config_error(v),
    }
}

/// The registry record made of an imported entry.
pub open spec fn record_of(
    e: McpServerEntry,
    r: McpServerRecord,
    stdio_status: Seq<char>,
    now: Seq<char>,
) -> bool {
    &&& r.id@ == "mcp-server-"@ + e.name@
    &&& r.name@ == e.name@
    &&& r.transport == e.transport
    &&& opt_view(r.command) == opt_view(e.command)
    &&& strs_view(r.args@) == strs_view(e.args@)
    &&& opt_view(r.endpoint) == opt_view(e.endpoint)
    &&& r.env_secret_refs@ == crate::json::json_object_text(pairs_view(e.env_secret_refs@))
    &&& r.header_secret_refs@ == crate::json::json_object_text(pairs_view(e.header_secret_refs@))
    &&& r.source_kind@ == "manual_config"@
    &&& r.is_enabled == (e.transport != McpTransport::Stdio || stdio_status
        != "blocked_until_isolated"@)
    &&& r.health_status@ == if e.transport == McpTransport::Stdio {
        stdio_status
    } else {
        "configured"@
    }
    &&& r.last_error is None
    &&& r.created_at@ == now
    &&& r.updated_at@ == now
}

/// The MCP server marketplace.
pub struct McpMarketplacePanel {
    /// The outcome of the last configuration import, shown under the import form.
    pub config_status: Option<String>,
}

fn copy_strings(v: &Vec<String>) -> (r: Vec<String>)
    ensures
        strs_view(r@) == strs_view(v@),
{
    let mut r: Vec<String> = Vec::new();
    let mut i: usize = 0;
    while i < v.len()
        invariant
            i <= v.len(),
            strs_view(r@) == strs_view(v@).take(i as int),
        decreases v.len() - i,
    {
        let ghost before = r@;
        let x = v[i].clone();
        r.push(x);
        proof {
            assert(r@ =~= before.push(x));
            assert(strs_view(r@) =~= strs_view(before).push(x@));
            assert(strs_view(v@).take(i + 1) =~= strs_view(v@).take(i as int).push(
                strs_view(v@)[i as int],
            ));
        }
        i = i + 1;
    }
    assert(strs_view(v@).take(v.len() as int) =~= strs_view(v@));
    r
}

fn copy_opt(o: &Option<String>) -> (r: Option<String>)
    ensures
        opt_view(r) == opt_view(*o),
{
    match o {
        Some(s) => Some(s.clone()),
        None => None,
    }
}

impl McpMarketplacePanel {
    pub fn new() -> (r: Self)
        ensures
            r.config_status is None,
    {
        Self { config_status: None }
    }

    /// Whether a name looks like it carries a credential.
    pub fn is_sensitive_name(value: &str) -> (r: bool)
        ensures
            r == sensitive(value@),
    {
        let v = chars_of(value);
        let l = lower_chars(&v);
        contains_str(&l, "token") || contains_str(&l, "secret") || contains_str(&l, "password")
            || contains_str(&l, "passwd") || contains_str(&l, "api-key") || contains_str(
            &l,
            "apikey",
        ) || contains_str(&l, "authorization")
    }

    /// Refuses arguments that look like they carry a credential.
    pub fn validate_args(args: &Vec<String>) -> (r: Result<(), String>)
        ensures
            match r {
                Ok(()) => args_error(strs_view(args@)) is None,
                Err(m) => args_error(strs_view(args@)) == Some(m@),
            },
    {
        let ghost a = strs_view(args@);
        let mut i: usize = 0;
        while i < args.len()
            invariant
                i <= args.len(),
                a == strs_view(args@),
                args_error_from(a, 0) == args_error_from(a, i as int),
            decreases args.len() - i,
        {
            if Self::is_sensitive_name(args[i].as_str()) {
                let arg = chars_of(args[i].as_str());
                return Err(
                    concat3(
                        "Credential-bearing argument '",
                        &arg,
                        "' is not permitted; pass credentials through env or headers using a secret:// reference.",
                    ),
                );
            }
            i = i + 1;
        }
        Ok(())
    }

    /// Refuses query parameters whose names look like they carry a credential.
    fn validate_params(params: &Vec<Vec<char>>) -> (r: Result<(), String>)
        ensures
            match r {
                Ok(()) => params_error_from(views(params@), 0) is None,
                Err(m) => params_error_from(views(params@), 0) == Some(m@),
            },
    {
        let ghost p = views(params@);
        let mut i: usize = 0;
        while i < params.len()
            invariant
                i <= params.len(),
                p == views(params@),
                params_error_from(p, 0) == params_error_from(p, i as int),
            decreases params.len() - i,
        {
            let parts = split_chars(&params[i], '=');
            let name = &parts[0];
            let name_text = string_of(name);
            if Self::is_sensitive_name(name_text.as_str()) {
                return Err(
                    concat3(
                        "Credential-bearing endpoint parameter '",
                        name,
                        "' is not permitted; use a secret:// Authorization header.",
                    ),
                );
            }
            i = i + 1;
        }
        Ok(())
    }

    /// Refuses remote endpoints that are not HTTPS, that target the local machine, or
    /// that carry credentials in the URL.
    pub fn validate_endpoint(endpoint: &str) -> (r: Result<(), String>)
        ensures
            match r {
                Ok(()) => endpoint_error(endpoint@) is None,
                Err(m) => endpoint_error(endpoint@) == Some(m@),
            },
    {
        let (scheme, host) = match parse_url(endpoint) {
            Ok(parts) => parts,
            Err(e) => {
                let ev = chars_of(e.as_str());
                return Err(concat2("Invalid remote MCP endpoint: ", &ev));
            },
        };
        let host_ref: Option<&str> = match &host {
            Some(h) => Some(h.as_str()),
            None => None,
        };
        Self::check_parsed_endpoint(endpoint, scheme.as_str(), host_ref)
    }

    /// Refuses the endpoint `endpoint`, parsed into the scheme `scheme` and the host
    /// `host`, where it is not HTTPS, targets the local machine, or carries
    /// credentials in the URL.
    pub fn check_parsed_endpoint(endpoint: &str, scheme: &str, host: Option<&str>) -> (r: Result<(), String>)
        ensures
            match r {
                Ok(()) => parsed_endpoint_error(endpoint@, scheme@, crate::providers::opt_chars(host)) is None,
                Err(m) => parsed_endpoint_error(endpoint@, scheme@, crate::providers::opt_chars(host)) == Some(m@),
            },
    {
        if !crate::text::str_eq(scheme, "https") {
            return Err(string_of(&chars_of("Remote MCP endpoints must use HTTPS.")));
        }
        let host_chars = match host {
            Some(h) => chars_of(h),
            None => Vec::new(),
        };
        let h = lower_chars(&host_chars);
        let localhost = chars_of("localhost");
        let ipv4 = chars_of("127.0.0.1");
        let ipv6 = chars_of("::1");
        let suffix = chars_of(".localhost");
        if chars_eq(&h, &localhost) || chars_eq(&h, &ipv4) || chars_eq(&h, &ipv6)
            || ends_with_chars(&h, &suffix) {
            return Err(string_of(&chars_of("Remote MCP endpoints cannot target loopback hosts.")));
        }
        let e = chars_of(endpoint);
        let sep = chars_of("://");
        let auth: Vec<char> = match find_from(&e, &sep, 0) {
            Some(p) => {
                assert(occurs_at(e@, sep@, p as int));
                assert(p + sep.len() <= e.len());
                let rest = slice_chars(&e, p + sep.len(), e.len());
                let parts = split_chars(&rest, '/');
                parts[0].clone()
            },
            None => Vec::new(),
        };
        assert(auth@ == authority(endpoint@));
        if crate::text::has_char(&auth, '@') {
            return Err(
                string_of(&chars_of("Endpoint URLs must not embed username/password credentials.")),
            );
        }
        let qmark = vec!['?'];
        assert(qmark@ =~= seq!['?']);
        match find_from(&e, &qmark, 0) {
            Some(q) => {
                let query = slice_chars(&e, q + 1, e.len());
                let params = split_chars(&query, '&');
                Self::validate_params(&params)
            },
            None => Ok(()),
        }
    }

    /// Checks the members of the `env` (or `headers`) object of a server.
    fn protected_refs(config: &JsonValue, for_headers: bool) -> (r: Result<
        Vec<(String, String)>,
        String,
    >)
        ensures
            match r {
                Ok(p) => refs_error(*config, for_headers) is None && pairs_view(p@) == server_refs(
                    *config,
                    for_headers,
                ),
                Err(m) => refs_error(*config, for_headers) == Some(m@),
            },
    {
        let key: &str = if for_headers {
            "headers"
        } else {
            "env"
        };
        let fields = match get(config, key) {
            Some(JsonValue::Object(fields)) => fields,
            _ => {
                return Ok(Vec::new());
            },
        };
        let mut out: Vec<(String, String)> = Vec::new();
        let mut i: usize = 0;
        while i < fields.len()
            invariant
                i <= fields.len(),
                key@ == refs_key(for_headers),
                json_get(*config, refs_key(for_headers)) == Some(JsonValue::Object(*fields)),
                refs_error_from(fields@, for_headers, 0) == refs_error_from(
                    fields@,
                    for_headers,
                    i as int,
                ),
                pairs_view(out@) == text_pairs(fields@).take(i as int),
            decreases fields.len() - i,
        {
            let name = chars_of(fields[i].0.as_str());
            match &fields[i].1 {
                JsonValue::Text(v) => {
                    let vc = chars_of(v.as_str());
                    let needs_secret = !for_headers || Self::is_credential_header(&name);
                    if needs_secret && !starts_with_str(&vc, "secret://") {
                        let k = chars_of(key);
                        let mut msg = k.clone();
                        crate::text::append_str(&mut msg, " value ");
                        crate::text::append_chars(&mut msg, &name);
                        crate::text::append_str(
                            &mut msg,
                            " must use secret:// reference; raw credentials are not stored.",
                        );
                        return Err(string_of(&msg));
                    }
                    let ghost before = out@;
                    let pair = (fields[i].0.clone(), v.clone());
                    out.push(pair);
                    proof {
                        assert(out@ =~= before.push(pair));
                        assert(pairs_view(out@) =~= pairs_view(before).push((pair.0@, pair.1@)));
                        assert(text_pairs(fields@).take(i + 1) =~= text_pairs(fields@).take(
                            i as int,
                        ).push(text_pairs(fields@)[i as int]));
                    }
                },
                _ => {
                    let k = chars_of(key);
                    let mut msg = k.clone();
                    crate::text::append_str(&mut msg, " value ");
                    crate::text::append_chars(&mut msg, &name);
                    crate::text::append_str(&mut msg, " must be a secret reference.");
                    return Err(string_of(&msg));
                },
            }
            i = i + 1;
        }
        assert(text_pairs(fields@).take(fields.len() as int) =~= text_pairs(fields@));
        Ok(out)
    }

    /// Whether a header carries credentials.
    fn is_credential_header(name: &Vec<char>) -> (r: bool)
        ensures
            r == credential_header(name@),
    {
        let l = lower_chars(name);
        chars_eq(&l, &chars_of("authorization")) || chars_eq(&l, &chars_of("proxy-authorization"))
            || chars_eq(&l, &chars_of("x-api-key")) || chars_eq(&l, &chars_of("api-key"))
            || chars_eq(&l, &chars_of("cookie")) || chars_eq(&l, &chars_of("set-cookie"))
    }

    /// The texts of a JSON array, in order, skipping its other items.
    fn texts(items: &Vec<JsonValue>) -> (r: Vec<String>)
        ensures
            strs_view(r@) == texts_from(items@, 0),
    {
        let mut out: Vec<String> = Vec::new();
        let mut i: usize = 0;
        while i < items.len()
            invariant
                i <= items.len(),
                strs_view(out@) + texts_from(items@, i as int) == texts_from(items@, 0),
            decreases items.len() - i,
        {
            let ghost before = out@;
            match &items[i] {
                JsonValue::Text(s) => {
                    out.push(s.clone());
                    assert(strs_view(out@) =~= strs_view(before) + seq![s@]);
                    assert(strs_view(before) + (seq![s@] + texts_from(items@, i + 1)) =~= strs_view(
                        out@,
                    ) + texts_from(items@, i + 1));
                },
                _ => {},
            }
            i = i + 1;
        }
        assert(strs_view(out@) + Seq::<Seq<char>>::empty() =~= strs_view(out@));
        out
    }

    /// Checks the settings of one server of a configuration.
    fn server_entry(name: &String, config: &JsonValue) -> (r: Result<McpServerEntry, String>)
        ensures
            match r {
                Ok(e) => server_error(name@, *config) is None && entry_describes(e, name@, *config),
                Err(m) => server_error(name@, *config) == Some(m@),
            },
    {
        let command: Option<String> = match text_of(get(config, "command")) {
            Some(s) => Some(s.clone()),
            None => None,
        };
        let endpoint_value = match get(config, "serverUrl") {
            Some(v) => Some(v),
            None => get(config, "url"),
        };
        let endpoint: Option<String> = match text_of(endpoint_value) {
            Some(s) => Some(s.clone()),
            None => None,
        };
        let transport = if command.is_some() {
            McpTransport::Stdio
        } else if endpoint.is_some() {
            McpTransport::Http
        } else {
            let n = chars_of(name.as_str());
            return Err(concat3("Server '", &n, "' must define command or serverUrl."));
        };
        let args: Vec<String> = match get(config, "args") {
            Some(JsonValue::Array(items)) => Self::texts(items),
            _ => {
                let none: Vec<String> = Vec::new();
                assert(strs_view(none@) =~= Seq::<Seq<char>>::empty());
                none
            },
        };
        match Self::validate_args(&args) {
            Ok(()) => {},
            Err(m) => {
                return Err(m);
            },
        }
        match &endpoint {
            Some(e) => match Self::validate_endpoint(e.as_str()) {
                Ok(()) => {},
                Err(m) => {
                    return Err(m);
                },
            },
            None => {},
        }
        let env_secret_refs = match Self::protected_refs(config, false) {
            Ok(p) => p,
            Err(m) => {
                return Err(m);
            },
        };
        let header_secret_refs = match Self::protected_refs(config, true) {
            Ok(p) => p,
            Err(m) => {
                return Err(m);
            },
        };
        Ok(
            McpServerEntry {
                name: name.clone(),
                transport,
                command,
                args,
                endpoint,
                env_secret_refs,
                header_secret_refs,
            },
        )
    }

    /// Reads an `mcpServers` configuration and checks each of its servers.
    pub fn parse_server_config(raw: &str) -> (r: Result<Vec<McpServerEntry>, String>)
        ensures
            match r {
                Err(m) => config_error(raw@) == Some(m@),
                Ok(es) => {
                    &&& config_error(raw@) is None
                    &&& servers_of(raw@) is Some
                    &&& es@.len() == servers_of(raw@)->0.len()
                    &&& forall|i: int|
                        0 <= i < es@.len() ==> entry_describes(
                            #[trigger] es@[i],
                            servers_of(raw@)->0[i].0@,
                            servers_of(raw@)->0[i].1,
                        )
                },
            },
    {
        let value = match parse_json(raw) {
            Ok(v) => v,
            Err(e) => {
                let ev = chars_of(e.as_str());
                return Err(concat2("Invalid JSON: ", &ev));
            },
        };
        Self::servers_from_value(&value)
    }

    /// Checks each server of the parsed configuration `value`, in order.
    pub fn servers_from_value(value: &JsonValue) -> (r: Result<Vec<McpServerEntry>, String>)
        ensures
            match r {
                Err(m) => value_config_error(*value) == Some(m@),
                Ok(es) => {
                    &&& value_config_error(*value) is None
                    &&& servers_in(*value) is Some
                    &&& es@.len() == servers_in(*value)->0.len()
                    &&& forall|i: int|
                        0 <= i < es@.len() ==> entry_describes(
                            #[trigger] es@[i],
                            servers_in(*value)->0[i].0@,
                            servers_in(*value)->0[i].1,
                        )
                },
            },
    {
        let servers = match get(value, "mcpServers") {
            Some(JsonValue::Object(servers)) => servers,
            _ => {
                return Err(string_of(&chars_of("Configuration must contain a mcpServers object.")));
            },
        };
        if servers.len() == 0 {
            return Err(
                string_of(&chars_of("Configuration must contain at least one MCP server.")),
            );
        }
        let mut entries: Vec<McpServerEntry> = Vec::new();
        let mut i: usize = 0;
        while i < servers.len()
            invariant
                i <= servers.len(),
                servers.len() > 0,
                json_get(*value, "mcpServers"@) == Some(JsonValue::Object(*servers)),
                servers_error_from(servers@, 0) == servers_error_from(servers@, i as int),
                entries@.len() == i,
                forall|j: int|
                    0 <= j < i ==> entry_describes(
                        #[trigger] entries@[j],
                        servers@[j].0@,
                        servers@[j].1,
                    ),
            decreases servers.len() - i,
        {
            let entry = match Self::server_entry(&servers[i].0, &servers[i].1) {
                Ok(e) => e,
                Err(m) => {
                    return Err(m);
                },
            };
            entries.push(entry);
            i = i + 1;
        }
        Ok(entries)
    }
}

impl McpServerEntry {
    /// The registry record of this entry, stamped with the time `now`; `stdio_status` is
    /// the state of the local process runtime, which decides whether a local server may run.
    pub fn record_at(&self, stdio_status: &str, now: String) -> (r: McpServerRecord)
        ensures
            record_of(*self, r, stdio_status@, now@),
    {
        let name = chars_of(self.name.as_str());
        let blocked = crate::text::str_eq(stdio_status, "blocked_until_isolated");
        let is_stdio = match self.transport {
            McpTransport::Stdio => true,
            McpTransport::Http => false,
        };
        McpServerRecord {
            id: concat2("mcp-server-", &name),
            name: self.name.clone(),
            transport: self.transport,
            command: copy_opt(&self.command),
            args: copy_strings(&self.args),
            endpoint: copy_opt(&self.endpoint),
            env_secret_refs: crate::json::object_text(&self.env_secret_refs),
            header_secret_refs: crate::json::object_text(&self.header_secret_refs),
            source_kind: string_of(&chars_of("manual_config")),
            is_enabled: !is_stdio || !blocked,
            health_status: if is_stdio {
                string_of(&chars_of(stdio_status))
            } else {
                string_of(&chars_of("configured"))
            },
            last_error: None,
            created_at: now.clone(),
            updated_at: now,
        }
    }

    /// The registry record of this entry, stamped with the current time.
    pub fn into_record(&self, stdio_status: &str) -> (r: McpServerRecord)
        ensures
            exists|now: Seq<char>| record_of(*self, r, stdio_status@, now),
            crate::clock::is_utc_rfc3339(r.created_at@),
    {
        let now = now_rfc3339();
        let r = self.record_at(stdio_status, now);
        assert(record_of(*self, r, stdio_status@, r.created_at@));
        r
    }
}

/// The catalog record made of a catalog entry.
pub open spec fn catalog_record_of(
    e: McpCatalogEntry,
    r: McpServerRecord,
    stdio_status: Seq<char>,
    now: Seq<char>,
) -> bool {
    &&& r.id@ == "mcp-server-"@ + e.id@
    &&& r.name@ == e.name@
    &&& r.transport == McpTransport::Stdio
    &&& opt_view(r.command) == Some(e.command@)
    &&& strs_view(r.args@) == strs_view(e.args@)
    &&& r.endpoint is None
    &&& r.env_secret_refs@ == crate::json::json_object_text(pairs_view(e.env_refs@))
    &&& r.header_secret_refs@ == "{}"@
    &&& r.source_kind@ == "catalog"@
    &&& r.is_enabled == (stdio_status != "blocked_until_isolated"@)
    &&& r.health_status@ == stdio_status
    &&& r.last_error is None
    &&& r.created_at@ == now
    &&& r.updated_at@ == now
}

fn text_list(items: &[&str]) -> (r: Vec<String>)
    ensures
        r@.len() == items@.len(),
        forall|i: int| 0 <= i < items@.len() ==> #[trigger] r@[i]@ == items@[i]@,
{
    let mut r: Vec<String> = Vec::new();
    let mut i: usize = 0;
    while i < items.len()
        invariant
            i <= items@.len(),
            r@.len() == i,
            forall|j: int| 0 <= j < i ==> #[trigger] r@[j]@ == items@[j]@,
        decreases items@.len() - i,
    {
        r.push(string_from(items[i]));
        i = i + 1;
    }
    r
}

fn catalog_entry(
    id: &str,
    name: &str,
    description: &str,
    command: &str,
    args: &[&str],
    env_refs: Vec<(String, String)>,
) -> (r: McpCatalogEntry)
    ensures
        r.id@ == id@,
        r.name@ == name@,
        r.description@ == description@,
        r.command@ == command@,
        r.args@.len() == args@.len(),
        forall|i: int| 0 <= i < args@.len() ==> #[trigger] r.args@[i]@ == args@[i]@,
        r.env_refs@ == env_refs@,
{
    McpCatalogEntry {
        id: string_from(id),
        name: string_from(name),
        description: string_from(description),
        command: string_from(command),
        args: text_list(args),
        env_refs,
    }
}

impl McpMarketplacePanel {
    /// The servers offered by the built-in catalog.
    pub fn catalog_entries() -> (r: Vec<McpCatalogEntry>)
        ensures
            r@.len() == 3,
            r@[0].id@ == "github"@,
            r@[0].name@ == "GitHub"@,
            r@[0].command@ == "npx"@,
            strs_view(r@[0].args@) == seq!["-y"@, "@modelcontextprotocol/server-github"@],
            pairs_view(r@[0].env_refs@) == seq![
                ("GITHUB_PERSONAL_ACCESS_TOKEN"@, "secret://github-token"@),
            ],
            r@[1].id@ == "sequential-thinking"@,
            r@[1].name@ == "Sequential Thinking"@,
            r@[1].command@ == "npx"@,
            strs_view(r@[1].args@) == seq![
                "-y"@,
                "@modelcontextprotocol/server-sequential-thinking"@,
            ],
            r@[1].env_refs@.len() == 0,
            r@[2].id@ == "memory"@,
            r@[2].name@ == "Memory"@,
            r@[2].command@ == "npx"@,
            strs_view(r@[2].args@) == seq!["-y"@, "@modelcontextprotocol/server-memory"@],
            r@[2].env_refs@.len() == 0,
    {
        let github_env = vec![
            (string_from("GITHUB_PERSONAL_ACCESS_TOKEN"), string_from("secret://github-token")),
        ];
        let github = catalog_entry(
            "github",
            "GitHub",
            "Repository issues, pull requests, files, and project automation.",
            "npx",
            &["-y", "@modelcontextprotocol/server-github"],
            github_env,
        );
        let thinking = catalog_entry(
            "sequential-thinking",
            "Sequential Thinking",
            "Structured planning tool for decomposing multi-step work.",
            "npx",
            &["-y", "@modelcontextprotocol/server-sequential-thinking"],
            Vec::new(),
        );
        let memory = catalog_entry(
            "memory",
            "Memory",
            "MCP memory server for durable facts and relationship lookup.",
            "npx",
            &["-y", "@modelcontextprotocol/server-memory"],
            Vec::new(),
        );
        proof {
            assert(strs_view(github.args@) =~= seq!["-y"@, "@modelcontextprotocol/server-github"@]);
            assert(strs_view(thinking.args@) =~= seq![
                "-y"@,
                "@modelcontextprotocol/server-sequential-thinking"@,
            ]);
            assert(strs_view(memory.args@) =~= seq!["-y"@, "@modelcontextprotocol/server-memory"@]);
            assert(pairs_view(github.env_refs@) =~= seq![
                ("GITHUB_PERSONAL_ACCESS_TOKEN"@, "secret://github-token"@),
            ]);
        }
        vec![github, thinking, memory]
    }

    /// The registry record of a catalog entry, stamped with the time `now`; refused when
    /// one of its arguments looks like it carries a credential.
    pub fn catalog_record_at(entry: &McpCatalogEntry, stdio_status: &str, now: String) -> (r: Result<
        McpServerRecord,
        String,
    >)
        ensures
            match r {
                Ok(rec) => args_error(strs_view(entry.args@)) is None && catalog_record_of(
                    *entry,
                    rec,
                    stdio_status@,
                    now@,
                ),
                Err(m) => args_error(strs_view(entry.args@)) == Some(m@),
            },
    {
        let args = copy_strings(&entry.args);
        match Self::validate_args(&args) {
            Ok(()) => {},
            Err(m) => {
                return Err(m);
            },
        }
        let id = chars_of(entry.id.as_str());
        let blocked = crate::text::str_eq(stdio_status, "blocked_until_isolated");
        let no_headers: Vec<(String, String)> = Vec::new();
        let header_secret_refs = crate::json::object_text(&no_headers);
        Ok(
            McpServerRecord {
                id: concat2("mcp-server-", &id),
                name: entry.name.clone(),
                transport: McpTransport::Stdio,
                command: Some(entry.command.clone()),
                args,
                endpoint: None,
                env_secret_refs: crate::json::object_text(&entry.env_refs),
                header_secret_refs,
                source_kind: string_from("catalog"),
                is_enabled: !blocked,
                health_status: string_from(stdio_status),
                last_error: None,
                created_at: now.clone(),
                updated_at: now,
            },
        )
    }

    /// The registry record of a catalog entry, stamped with the current time.
    pub fn catalog_record(entry: &McpCatalogEntry, stdio_status: &str) -> (r: Result<
        McpServerRecord,
        String,
    >)
        ensures
            match r {
                Ok(rec) => args_error(strs_view(entry.args@)) is None && (exists|now: Seq<char>|
                    catalog_record_of(*entry, rec, stdio_status@, now)) && crate::clock::is_utc_rfc3339(
                    rec.created_at@,
                ),
                Err(m) => args_error(strs_view(entry.args@)) == Some(m@),
            },
    {
        let now = now_rfc3339();
        let r = Self::catalog_record_at(entry, stdio_status, now);
        match &r {
            Ok(rec) => {
                assert(catalog_record_of(*entry, *rec, stdio_status@, rec.created_at@));
            },
            Err(_) => {},
        }
        r
    }
}

} // verus!

verus! {

// ---------------------------------------------------------------------------
// Tools and secrets of the marketplace page
// ---------------------------------------------------------------------------
/// A tool discovered on a server, as far as the page reads it.
#[derive(Debug)]
pub struct McpToolRef {
    pub id: String,
    pub server_id: Option<String>,
}

/// The tool belongs to the server `server_id`.
pub open spec fn tool_of_server(t: McpToolRef, server_id: Seq<char>) -> bool {
    t.server_id matches Some(s) && s@ == server_id
}

/// The positions of the tools of the server `server_id` whose ids are not among
/// `discovered`, in order: those a refresh marks inactive.
pub open spec fn stale_positions(tools: Seq<McpToolRef>, server_id: Seq<char>, discovered: Seq<Seq<char>>) -> Seq<usize>
    decreases tools.len(),
{
    if tools.len() == 0 {
        Seq::<usize>::empty()
    } else {
        let prev = stale_positions(tools.drop_last(), server_id, discovered);
        if tool_of_server(tools.last(), server_id) && !discovered.contains(tools.last().id@) {
            prev.push((tools.len() - 1) as usize)
        } else {
            prev
        }
    }
}

fn text_in(v: &Vec<String>, s: &str) -> (r: bool)
    ensures
        r == crate::orchestration::texts(v@).contains(s@),
{
    let want = chars_of(s);
    let mut i: usize = 0;
    while i < v.len()
        invariant
            i <= v.len(),
            want@ == s@,
            forall|k: int| 0 <= k < i ==> crate::orchestration::texts(v@)[k] != s@,
        decreases v.len() - i,
    {
        if chars_eq(&chars_of(v[i].as_str()), &want) {
            assert(crate::orchestration::texts(v@)[i as int] == s@);
            return true;
        }
        i = i + 1;
    }
    false
}

/// The tools of a refreshed server that its new list no longer has.
pub fn stale_tools(tools: &Vec<McpToolRef>, server_id: &str, discovered: &Vec<String>) -> (r: Vec<usize>)
    ensures
        r@ == stale_positions(tools@, server_id@, crate::orchestration::texts(discovered@)),
{
    let mut r: Vec<usize> = Vec::new();
    let mut i: usize = 0;
    while i < tools.len()
        invariant
            i <= tools.len(),
            r@ == stale_positions(tools@.take(i as int), server_id@, crate::orchestration::texts(discovered@)),
        decreases tools.len() - i,
    {
        assert(tools@.take(i + 1).drop_last() =~= tools@.take(i as int));
        let mine = match &tools[i].server_id {
            Some(s) => crate::text::str_eq(s.as_str(), server_id),
            None => false,
        };
        if mine && !text_in(discovered, tools[i].id.as_str()) {
            r.push(i);
        }
        i = i + 1;
    }
    assert(tools@.take(tools.len() as int) =~= tools@);
    r
}

/// The positions of the tools of the server `server_id`, in order.
pub open spec fn server_tool_positions(tools: Seq<McpToolRef>, server_id: Seq<char>) -> Seq<usize>
    decreases tools.len(),
{
    if tools.len() == 0 {
        Seq::<usize>::empty()
    } else {
        let prev = server_tool_positions(tools.drop_last(), server_id);
        if tool_of_server(tools.last(), server_id) {
            prev.push((tools.len() - 1) as usize)
        } else {
            prev
        }
    }
}

/// The tools listed under a server.
pub fn server_tools(tools: &Vec<McpToolRef>, server_id: &str) -> (r: Vec<usize>)
    ensures
        r@ == server_tool_positions(tools@, server_id@),
{
    let mut r: Vec<usize> = Vec::new();
    let mut i: usize = 0;
    while i < tools.len()
        invariant
            i <= tools.len(),
            r@ == server_tool_positions(tools@.take(i as int), server_id@),
        decreases tools.len() - i,
    {
        assert(tools@.take(i + 1).drop_last() =~= tools@.take(i as int));
        let mine = match &tools[i].server_id {
            Some(s) => crate::text::str_eq(s.as_str(), server_id),
            None => false,
        };
        if mine {
            r.push(i);
        }
        i = i + 1;
    }
    assert(tools@.take(tools.len() as int) =~= tools@);
    r
}

/// The server named in the row of a tool: its id, or `unassigned`.
pub fn tool_server_label(server_id: Option<&str>) -> (r: String)
    ensures
        r@ == match server_id {
            Some(s) => s@,
            None => "unassigned"@,
        },
{
    match server_id {
        Some(s) => string_from(s),
        None => "unassigned".to_string(),
    }
}

/// What a refresh of a server leaves on its record and says.
#[derive(Debug)]
pub struct RefreshOutcome {
    pub health_status: String,
    pub last_error: Option<String>,
    pub message: String,
}

/// What a refresh of the server `name` leaves, where discovery gave `tool_count`
/// tools or failed with an error text.
pub fn refresh_outcome(name: &str, discovery: Result<usize, String>) -> (r: RefreshOutcome)
    ensures
        match discovery {
            Ok(n) => r.health_status@ == "available"@ && r.last_error is None && r.message@
                == "Discovered "@ + crate::text::decimal(n as nat) + " tool(s) from '"@ + name@
                + "'."@,
            Err(e) => r.health_status@ == "error"@ && (r.last_error matches Some(x) && x@ == e@)
                && r.message@ == "Unable to refresh '"@ + name@ + "': "@ + e@,
        },
{
    match discovery {
        Ok(n) => {
            let mut m = chars_of("Discovered ");
            crate::text::append_chars(&mut m, &crate::text::decimal_chars(n as u64));
            crate::text::append_str(&mut m, " tool(s) from '");
            crate::text::append_str(&mut m, name);
            crate::text::append_str(&mut m, "'.");
            RefreshOutcome {
                health_status: "available".to_string(),
                last_error: None,
                message: string_of(&m),
            }
        },
        Err(e) => {
            let mut m = chars_of("Unable to refresh '");
            crate::text::append_str(&mut m, name);
            crate::text::append_str(&mut m, "': ");
            crate::text::append_str(&mut m, e.as_str());
            RefreshOutcome { health_status: "error".to_string(), last_error: Some(e), message: string_of(&m) }
        },
    }
}

/// The message after a configuration was imported: how many servers it set, or the
/// servers that could not be saved with their errors.
pub fn config_saved_message(count: usize, failures: &Vec<String>) -> (r: String)
    ensures
        failures.len() == 0 ==> r@ == "Configured "@ + crate::text::decimal(count as nat)
            + " server(s). Refresh each server to discover tools."@,
        failures.len() > 0 ==> r@ == "Unable to save server configuration: "@ + crate::text::join(
            crate::orchestration::texts(failures@),
            "; "@,
        ),
{
    if failures.len() == 0 {
        let mut m = chars_of("Configured ");
        crate::text::append_chars(&mut m, &crate::text::decimal_chars(count as u64));
        crate::text::append_str(&mut m, " server(s). Refresh each server to discover tools.");
        string_of(&m)
    } else {
        let mut pieces: Vec<Vec<char>> = Vec::new();
        let mut i: usize = 0;
        while i < failures.len()
            invariant
                i <= failures.len(),
                crate::text::views(pieces@) == crate::orchestration::texts(failures@).take(i as int),
            decreases failures.len() - i,
        {
            let ghost before = pieces@;
            let p = chars_of(failures[i].as_str());
            pieces.push(p);
            proof {
                assert(crate::text::views(pieces@) =~= crate::text::views(before).push(p@));
                assert(crate::orchestration::texts(failures@).take(i + 1)
                    =~= crate::orchestration::texts(failures@).take(i as int).push(failures@[i as int]@));
            }
            i = i + 1;
        }
        assert(crate::orchestration::texts(failures@).take(failures.len() as int)
            =~= crate::orchestration::texts(failures@));
        let joined = crate::text::join_chars(&pieces, &chars_of("; "));
        let mut m = chars_of("Unable to save server configuration: ");
        crate::text::append_chars(&mut m, &joined);
        string_of(&m)
    }
}

/// The failures of saving the first `n` servers named `names`, where `errors[i]` is the
/// error that saving server `i` gave, if any: `<name>: <error>` for each that failed.
pub open spec fn save_failures(names: Seq<Seq<char>>, errors: Seq<Option<Seq<char>>>, n: int) -> Seq<Seq<char>>
    decreases n,
{
    if n <= 0 {
        Seq::empty()
    } else {
        let r = save_failures(names, errors, n - 1);
        match errors[n - 1] {
            Some(e) => r.push(names[n - 1] + ": "@ + e),
            None => r,
        }
    }
}

/// The errors of a list of saves, by their views.
pub open spec fn errors_view(errors: Seq<Option<String>>) -> Seq<Option<Seq<char>>> {
    errors.map_values(|o: Option<String>| opt_view(o))
}

/// The message after the servers named `names` were saved, `errors[i]` being the
/// error of saving server `i` if it failed: the configuration counts as set only where
/// every server was saved; otherwise each failure is listed with its server's name.
pub fn save_outcome_message(names: &Vec<String>, errors: &Vec<Option<String>>) -> (r: String)
    requires
        names.len() == errors.len(),
    ensures
        ({
            let f = save_failures(crate::orchestration::texts(names@), errors_view(errors@), names.len() as int);
            &&& f.len() == 0 ==> r@ == "Configured "@ + crate::text::decimal(names.len() as nat)
                + " server(s). Refresh each server to discover tools."@
            &&& f.len() > 0 ==> r@ == "Unable to save server configuration: "@ + crate::text::join(f, "; "@)
        }),
{
    let ghost ns = crate::orchestration::texts(names@);
    let ghost es = errors_view(errors@);
    let mut failures: Vec<String> = Vec::new();
    let mut i: usize = 0;
    while i < names.len()
        invariant
            i <= names.len(),
            names.len() == errors.len(),
            ns == crate::orchestration::texts(names@),
            es == errors_view(errors@),
            crate::orchestration::texts(failures@) == save_failures(ns, es, i as int),
        decreases names.len() - i,
    {
        let ghost before = failures@;
        match &errors[i] {
            Some(e) => {
                let mut m = chars_of(names[i].as_str());
                crate::text::append_str(&mut m, ": ");
                crate::text::append_str(&mut m, e.as_str());
                let line = string_of(&m);
                failures.push(line);
                proof {
                    assert(es[i as int] == Some(e@));
                    assert(ns[i as int] == names@[i as int]@);
                    assert(crate::orchestration::texts(failures@) =~= crate::orchestration::texts(before).push(line@));
                }
            },
            None => {
                proof {
                    assert(es[i as int] is None);
                }
            },
        }
        i = i + 1;
    }
    config_saved_message(names.len(), &failures)
}

/// The keychain entry that the secret form describes: the reference, trimmed, and
/// the value as typed; refused where the reference is blank or the value empty.
pub fn secret_entry(reference: &str, value: &str) -> (r: Result<(String, String), String>)
    ensures
        (trim(reference@).len() == 0 || value@.len() == 0) ==> (r matches Err(e) && e@
            == "Secret reference and value are required."@),
        !(trim(reference@).len() == 0 || value@.len() == 0) ==> (r matches Ok(p) && p.0@ == trim(
            reference@,
        ) && p.1@ == value@),
{
    let account = crate::text::trim_chars(&chars_of(reference));
    if account.len() == 0 || chars_of(value).len() == 0 {
        return Err("Secret reference and value are required.".to_string());
    }
    Ok((string_of(&account), string_from(value)))
}

/// The message after a secret was stored under `account`.
pub fn stored_secret_message(account: &str) -> (r: String)
    ensures
        r@ == "Stored secret://"@ + account@ + " in OS credential storage."@,
{
    let mut m = chars_of("Stored secret://");
    crate::text::append_str(&mut m, account);
    crate::text::append_str(&mut m, " in OS credential storage.");
    string_of(&m)
}

} // verus!

verus! {

// ---------------------------------------------------------------------------
// Laws
// ---------------------------------------------------------------------------
proof fn lemma_no_server_error(servers: Seq<(String, JsonValue)>, k: int, i: int)
    requires
        0 <= k <= i < servers.len(),
        servers_error_from(servers, k) is None,
    ensures
        server_error(servers[i].0@, servers[i].1) is None,
    decreases i - k,
{
    if k < i {
        lemma_no_server_error(servers, k + 1, i);
    }
}

proof fn lemma_no_args_error(args: Seq<Seq<char>>, k: int, j: int)
    requires
        0 <= k <= j < args.len(),
        args_error_from(args, k) is None,
    ensures
        !sensitive(args[j]),
    decreases j - k,
{
    if k < j {
        lemma_no_args_error(args, k + 1, j);
    }
}

proof fn lemma_no_refs_error(fields: Seq<(String, JsonValue)>, for_headers: bool, k: int, j: int)
    requires
        0 <= k <= j < fields.len(),
        refs_error_from(fields, for_headers, k) is None,
    ensures
        fields[j].1 is Text,
        (!for_headers || credential_header(fields[j].0@)) ==> starts_with(
            text_pairs(fields)[j].1,
            "secret://"@,
        ),
    decreases j - k,
{
    if k < j {
        lemma_no_refs_error(fields, for_headers, k + 1, j);
    }
}

/// An accepted server holds no raw credential: none of its arguments looks like
/// one, every environment value is a `secret://` reference, and so is every
/// credential-bearing header.
pub proof fn law_accepted_server_holds_no_raw_credential(name: Seq<char>, config: JsonValue)
    requires
        server_error(name, config) is None,
    ensures
        forall|j: int| 0 <= j < server_args(config).len() ==> !sensitive(#[trigger] server_args(config)[j]),
        forall|j: int|
            0 <= j < server_refs(config, false).len() ==> starts_with(
                (#[trigger] server_refs(config, false)[j]).1,
                "secret://"@,
            ),
        forall|j: int|
            0 <= j < server_refs(config, true).len() && credential_header(
                (#[trigger] server_refs(config, true)[j]).0,
            ) ==> starts_with(server_refs(config, true)[j].1, "secret://"@),
{
    assert forall|j: int| 0 <= j < server_args(config).len() implies !sensitive(
        #[trigger] server_args(config)[j],
    ) by {
        lemma_no_args_error(server_args(config), 0, j);
    }
    assert forall|j: int| 0 <= j < server_refs(config, false).len() implies starts_with(
        (#[trigger] server_refs(config, false)[j]).1,
        "secret://"@,
    ) by {
        match json_get(config, refs_key(false)) {
            Some(JsonValue::Object(fields)) => {
                lemma_no_refs_error(fields@, false, 0, j);
            },
            _ => {},
        }
    }
    assert forall|j: int|
        0 <= j < server_refs(config, true).len() && credential_header(
            (#[trigger] server_refs(config, true)[j]).0,
        ) implies starts_with(server_refs(config, true)[j].1, "secret://"@) by {
        match json_get(config, refs_key(true)) {
            Some(JsonValue::Object(fields)) => {
                lemma_no_refs_error(fields@, true, 0, j);
            },
            _ => {},
        }
    }
}

/// Every server of an accepted configuration is accepted.
pub proof fn law_accepted_configuration_accepts_each_server(raw: Seq<char>, i: int)
    requires
        config_error(raw) is None,
        servers_of(raw) is Some,
        0 <= i < servers_of(raw)->0.len(),
    ensures
        server_error(servers_of(raw)->0[i].0@, servers_of(raw)->0[i].1) is None,
{
    lemma_no_server_error(servers_of(raw)->0, 0, i);
}

} // verus!

verus! {

// ---------------------------------------------------------------------------
// The Save and Refresh handlers
// ---------------------------------------------------------------------------
/// What the Save handler does next, once the configuration parsed into the servers
/// `names` and the first servers were saved with the outcomes `errors`.
#[derive(Debug, PartialEq, Eq)]
pub enum ConfigSaveStep {
    /// Save the server at this position.
    Save(usize),
    /// All servers were tried: show this message.
    Done(String),
}

/// The next step of saving an imported configuration: the servers are saved one by
/// one, in order, each once; when all were tried, the message says the configuration
/// is set only where every save succeeded (see `save_outcome_message`). A text that
/// does not parse saves nothing: its error is shown as `parse_server_config` gives it.
pub fn next_config_save_step(names: &Vec<String>, errors: &Vec<Option<String>>) -> (r: ConfigSaveStep)
    requires
        errors.len() <= names.len(),
    ensures
        errors.len() < names.len() ==> r == ConfigSaveStep::Save(errors.len()),
        errors.len() == names.len() ==> (r matches ConfigSaveStep::Done(m) && ({
            let f = save_failures(crate::orchestration::texts(names@), errors_view(errors@), names.len() as int);
            &&& f.len() == 0 ==> m@ == "Configured "@ + crate::text::decimal(names.len() as nat)
                + " server(s). Refresh each server to discover tools."@
            &&& f.len() > 0 ==> m@ == "Unable to save server configuration: "@ + crate::text::join(f, "; "@)
        })),
{
    if errors.len() < names.len() {
        ConfigSaveStep::Save(errors.len())
    } else {
        ConfigSaveStep::Done(save_outcome_message(names, errors))
    }
}

/// What the Refresh button does first.
#[derive(Debug, PartialEq, Eq)]
pub enum RefreshStart {
    /// Discovery is not permitted: show this message, discover nothing, save nothing.
    Denied(String),
    /// Show this message and discover the server's tools.
    Discover(String),
}

/// The first step of refreshing the server `name`, where `allowed` is the gateway's
/// decision on interactive MCP discovery.
pub fn refresh_start(name: &str, allowed: bool) -> (r: RefreshStart)
    ensures
        !allowed ==> (r matches RefreshStart::Denied(m) && m@ == "Permission denied for MCP discovery."@),
        allowed ==> (r matches RefreshStart::Discover(m) && m@ == "Refreshing '"@ + name@ + "'..."@),
{
    if !allowed {
        RefreshStart::Denied(string_of(&chars_of("Permission denied for MCP discovery.")))
    } else {
        RefreshStart::Discover(concat3("Refreshing '", &chars_of(name), "'..."))
    }
}

} // verus!

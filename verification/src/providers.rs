//! AI providers: the cleaning of what a user types into the provider forms, the labels
//! shown for a provider, its readiness, and the decisions of adding, editing and
//! removing one.
use crate::ids::{is_uuid_text, new_uuid_text};
use crate::text::{
    chars_eq, chars_of, concat2, decimal, find, find_from, lower,
    lower_chars, replace_all, replace_str, slice_chars, starts_with, starts_with_str, string_of,
    to_lowercase, trim, trim_by, trim_chars, trim_chars_by, unicode_lowercase, TrimSet,
};
use vstd::prelude::*;

verus! {

// ---------------------------------------------------------------------------
// Records
// ---------------------------------------------------------------------------
/// A configured AI provider.
#[derive(Clone, Debug)]
pub struct Provider {
    pub id: String,
    pub provider_name: String,
    pub model: String,
    pub adapter_type: String,
    /// The base URL or endpoint, where one is set.
    pub command: Option<String>,
    /// The `secret://` or `env:` reference of the credential, where one is set.
    pub api_key_ref: Option<String>,
    pub status: String,
}

/// A kind of provider that a user can pick from.
#[derive(Clone, Debug)]
pub struct ProviderTemplate {
    pub label: String,
    pub adapter: String,
    pub protocol: String,
    pub default_base_url: String,
    pub models: Vec<String>,
}

/// The view of an optional text.
pub open spec fn opt_chars(o: Option<&str>) -> Option<Seq<char>> {
    match o {
        Some(s) => Some(s@),
        None => None,
    }
}

/// The view of an optional string.
pub open spec fn opt_string(o: Option<String>) -> Option<Seq<char>> {
    match o {
        Some(s) => Some(s@),
        None => None,
    }
}

/// The text of an optional string, empty where there is none.
pub open spec fn or_empty(o: Option<String>) -> Seq<char> {
    match o {
        Some(s) => s@,
        None => Seq::<char>::empty(),
    }
}

// ---------------------------------------------------------------------------
// Cleaning form fields
// ---------------------------------------------------------------------------
/// A field with surrounding whitespace and backticks removed: trimmed, stripped of
/// backticks at both ends, trimmed again.
pub open spec fn clean_field(s: Seq<char>) -> Seq<char> {
    trim(trim_by(trim(s), TrimSet::Backtick))
}

/// A display name: a cleaned field with each ` / ` written ` - `.
pub open spec fn clean_display_name(s: Seq<char>) -> Seq<char> {
    replace_all(clean_field(s), " / "@, " - "@)
}

fn clean_field_chars(s: &str) -> (r: Vec<char>)
    ensures
        r@ == clean_field(s@),
{
    let c = chars_of(s);
    let a = trim_chars(&c);
    let b = trim_chars_by(&a, TrimSet::Backtick);
    trim_chars(&b)
}

/// A base URL as typed, cleaned of surrounding whitespace and backticks.
pub fn sanitize_base_url(s: &str) -> (r: String)
    ensures
        r@ == clean_field(s@),
{
    string_of(&clean_field_chars(s))
}

/// A model id as typed, cleaned of surrounding whitespace and backticks.
pub fn sanitize_model_id(s: &str) -> (r: String)
    ensures
        r@ == clean_field(s@),
{
    string_of(&clean_field_chars(s))
}

/// A display name as typed, cleaned, with ` / ` written ` - `.
pub fn sanitize_display_name(s: &str) -> (r: String)
    ensures
        r@ == clean_display_name(s@),
{
    let c = clean_field_chars(s);
    string_of(&replace_str(&c, " / ", " - "))
}

// ---------------------------------------------------------------------------
// Labels
// ---------------------------------------------------------------------------
/// The host part of an endpoint: what stands after `://` and before the first `/`;
/// the whole endpoint where that part is blank, and a fixed text where there is no
/// endpoint.
pub open spec fn endpoint_label_of(command: Option<Seq<char>>) -> Seq<char> {
    let e = match command {
        Some(c) => trim(c),
        None => Seq::<char>::empty(),
    };
    if e.len() == 0 {
        "Default endpoint"@
    } else {
        let rest = match find(e, "://"@) {
            Some(i) => e.subrange(i + "://"@.len(), e.len() as int),
            None => e,
        };
        let host = match find(rest, seq!['/']) {
            Some(j) => rest.subrange(0, j),
            None => rest,
        };
        if trim(host).len() == 0 {
            e
        } else {
            host
        }
    }
}

/// The label shown for a provider's endpoint.
pub fn endpoint_label(command: Option<&str>) -> (r: String)
    ensures
        r@ == endpoint_label_of(opt_chars(command)),
{
    let e: Vec<char> = match command {
        Some(c) => trim_chars(&chars_of(c)),
        None => Vec::new(),
    };
    if e.len() == 0 {
        return "Default endpoint".to_string();
    }
    let scheme_sep = chars_of("://");
    let rest: Vec<char> = match find_from(&e, &scheme_sep, 0) {
        Some(i) => slice_chars(&e, i + scheme_sep.len(), e.len()),
        None => e.clone(),
    };
    let slash: Vec<char> = vec!['/'];
    assert(slash@ =~= seq!['/']);
    let host: Vec<char> = match find_from(&rest, &slash, 0) {
        Some(j) => slice_chars(&rest, 0, j),
        None => rest.clone(),
    };
    if trim_chars(&host).len() == 0 {
        string_of(&e)
    } else {
        string_of(&host)
    }
}

/// `s` without every leading repetition of `p` (`str::trim_start_matches`).
pub open spec fn strip_all_prefix(s: Seq<char>, p: Seq<char>) -> Seq<char>
    decreases s.len(),
{
    if p.len() > 0 && starts_with(s, p) {
        strip_all_prefix(s.subrange(p.len() as int, s.len() as int), p)
    } else {
        s
    }
}

fn strip_all_prefix_chars(s: &Vec<char>, p: &Vec<char>) -> (r: Vec<char>)
    ensures
        r@ == strip_all_prefix(s@, p@),
{
    if p.len() == 0 {
        return s.clone();
    }
    let mut i: usize = 0;
    assert(s@.subrange(0, s.len() as int) =~= s@);
    while p.len() <= s.len() - i && crate::text::chars_occur_at(s, p, i)
        invariant
            p.len() > 0,
            i <= s.len(),
            strip_all_prefix(s@.subrange(i as int, s.len() as int), p@) == strip_all_prefix(s@, p@),
        decreases s.len() - i,
    {
        let ghost t = s@.subrange(i as int, s.len() as int);
        assert(t.subrange(0, p@.len() as int) =~= s@.subrange(i as int, i + p.len()));
        assert(t.subrange(p@.len() as int, t.len() as int) =~= s@.subrange(i + p.len(), s.len() as int));
        i = i + p.len();
    }
    let r = slice_chars(s, i, s.len());
    proof {
        let t = s@.subrange(i as int, s.len() as int);
        if p@.len() <= t.len() {
            assert(t.subrange(0, p@.len() as int) =~= s@.subrange(i as int, i + p.len()));
        }
    }
    r
}

/// The label shown for a provider's credential reference.
pub open spec fn credential_label_of(api_key_ref: Option<Seq<char>>) -> Seq<char> {
    let v = match api_key_ref {
        Some(c) => trim(c),
        None => Seq::<char>::empty(),
    };
    if v.len() == 0 {
        "No key"@
    } else if starts_with(v, "secret://"@) {
        "Secret stored"@
    } else if starts_with(v, "env:"@) {
        "Env: "@ + strip_all_prefix(v, "env:"@)
    } else {
        "Credential ref"@
    }
}

/// The label shown for a provider's credential: a stored secret, an environment
/// variable, another reference, or none.
pub fn credential_label(api_key_ref: Option<&str>) -> (r: String)
    ensures
        r@ == credential_label_of(opt_chars(api_key_ref)),
{
    let v: Vec<char> = match api_key_ref {
        Some(c) => trim_chars(&chars_of(c)),
        None => Vec::new(),
    };
    if v.len() == 0 {
        "No key".to_string()
    } else if starts_with_str(&v, "secret://") {
        "Secret stored".to_string()
    } else if starts_with_str(&v, "env:") {
        let rest = strip_all_prefix_chars(&v, &chars_of("env:"));
        concat2("Env: ", &rest)
    } else {
        "Credential ref".to_string()
    }
}

/// The keychain account that a `secret://` reference names, trimmed; none where the
/// reference is of another kind or names nothing.
pub open spec fn secret_account_of(api_key_ref: Option<Seq<char>>) -> Option<Seq<char>> {
    match api_key_ref {
        Some(c) => {
            let v = trim(c);
            if starts_with(v, "secret://"@) {
                let a = trim(v.subrange("secret://"@.len() as int, v.len() as int));
                if a.len() > 0 {
                    Some(a)
                } else {
                    None
                }
            } else {
                None
            }
        },
        None => None,
    }
}

/// The keychain account named by a `secret://` reference.
pub fn secret_account_from_ref(api_key_ref: Option<&str>) -> (r: Option<String>)
    ensures
        opt_string(r) == secret_account_of(opt_chars(api_key_ref)),
{
    match api_key_ref {
        Some(c) => {
            let v = trim_chars(&chars_of(c));
            let prefix = chars_of("secret://");
            if crate::text::starts_with_chars(&v, &prefix) {
                let a = trim_chars(&slice_chars(&v, prefix.len(), v.len()));
                if a.len() > 0 {
                    Some(string_of(&a))
                } else {
                    None
                }
            } else {
                None
            }
        },
        None => None,
    }
}

} // verus!

verus! {

// ---------------------------------------------------------------------------
// Templates
// ---------------------------------------------------------------------------
/// The first template at or after `i` whose label is `label`.
pub open spec fn label_index_from(ts: Seq<ProviderTemplate>, label: Seq<char>, i: int) -> Option<
    int,
>
    decreases ts.len() - i,
{
    if i < 0 || i >= ts.len() {
        None
    } else if ts[i].label@ == label {
        Some(i)
    } else {
        label_index_from(ts, label, i + 1)
    }
}

/// The first template whose label is `label`.
pub open spec fn label_index(ts: Seq<ProviderTemplate>, label: Seq<char>) -> Option<int> {
    label_index_from(ts, label, 0)
}

/// The first template at or after `i` whose adapter is `adapter`.
pub open spec fn adapter_index_from(ts: Seq<ProviderTemplate>, adapter: Seq<char>, i: int) -> Option<
    int,
>
    decreases ts.len() - i,
{
    if i < 0 || i >= ts.len() {
        None
    } else if ts[i].adapter@ == adapter {
        Some(i)
    } else {
        adapter_index_from(ts, adapter, i + 1)
    }
}

/// The first template whose adapter is `adapter`.
pub open spec fn adapter_index(ts: Seq<ProviderTemplate>, adapter: Seq<char>) -> Option<int> {
    adapter_index_from(ts, adapter, 0)
}

/// The position of the first template labelled `label`.
pub fn find_template_by_label(ts: &Vec<ProviderTemplate>, label: &str) -> (r: Option<usize>)
    ensures
        r matches Some(i) ==> label_index(ts@, label@) == Some(i as int) && i < ts.len(),
        r is None ==> label_index(ts@, label@) is None,
{
    let want = chars_of(label);
    let mut i: usize = 0;
    while i < ts.len()
        invariant
            i <= ts.len(),
            want@ == label@,
            label_index(ts@, label@) == label_index_from(ts@, label@, i as int),
        decreases ts.len() - i,
    {
        if chars_eq(&chars_of(ts[i].label.as_str()), &want) {
            return Some(i);
        }
        i = i + 1;
    }
    None
}

/// The position of the first template whose adapter is `adapter`.
pub fn find_template_by_adapter(ts: &Vec<ProviderTemplate>, adapter: &str) -> (r: Option<usize>)
    ensures
        r matches Some(i) ==> adapter_index(ts@, adapter@) == Some(i as int) && i < ts.len(),
        r is None ==> adapter_index(ts@, adapter@) is None,
{
    let want = chars_of(adapter);
    let mut i: usize = 0;
    while i < ts.len()
        invariant
            i <= ts.len(),
            want@ == adapter@,
            adapter_index(ts@, adapter@) == adapter_index_from(ts@, adapter@, i as int),
        decreases ts.len() - i,
    {
        if chars_eq(&chars_of(ts[i].adapter.as_str()), &want) {
            return Some(i);
        }
        i = i + 1;
    }
    None
}

/// The protocol of a provider: that of the template labelled with its name, else
/// that of the first template with its adapter, else the adapter itself.
pub open spec fn protocol_of(p: Provider, ts: Seq<ProviderTemplate>) -> Seq<char> {
    match label_index(ts, p.provider_name@) {
        Some(i) => ts[i].protocol@,
        None => match adapter_index(ts, p.adapter_type@) {
            Some(j) => ts[j].protocol@,
            None => p.adapter_type@,
        },
    }
}

/// The protocol shown for a provider.
pub fn provider_protocol(p: &Provider, templates: &Vec<ProviderTemplate>) -> (r: String)
    ensures
        r@ == protocol_of(*p, templates@),
{
    match find_template_by_label(templates, p.provider_name.as_str()) {
        Some(i) => templates[i].protocol.clone(),
        None => match find_template_by_adapter(templates, p.adapter_type.as_str()) {
            Some(j) => templates[j].protocol.clone(),
            None => p.adapter_type.clone(),
        },
    }
}

// ---------------------------------------------------------------------------
// Readiness
// ---------------------------------------------------------------------------
/// How ready a provider is to take requests.
#[derive(Clone, Copy, PartialEq, Eq, Debug, Structural)]
pub enum ProviderStatus {
    Offline,
    NeedsEndpoint,
    NeedsKey,
    Ready,
}

/// The status words that count as online, in lower case.
pub open spec fn is_online_word(s: Seq<char>) -> bool {
    s == "available"@ || s == "online"@ || s == "active"@ || s == "healthy"@ || s == "ready"@
}

/// The readiness of `p`, given its status word trimmed and in lower case: offline
/// unless the word says it is up; a custom adapter needs an endpoint; every provider
/// needs a credential.
pub open spec fn status_of(lowered: Seq<char>, p: Provider) -> ProviderStatus {
    if !is_online_word(lowered) {
        ProviderStatus::Offline
    } else if p.adapter_type@ == "CustomAdapter"@ && trim(or_empty(p.command)).len() == 0 {
        ProviderStatus::NeedsEndpoint
    } else if trim(or_empty(p.api_key_ref)).len() == 0 {
        ProviderStatus::NeedsKey
    } else {
        ProviderStatus::Ready
    }
}

pub open spec fn status_label(s: ProviderStatus) -> Seq<char> {
    match s {
        ProviderStatus::Offline => "Offline"@,
        ProviderStatus::NeedsEndpoint => "Needs endpoint"@,
        ProviderStatus::NeedsKey => "Needs key"@,
        ProviderStatus::Ready => "Ready"@,
    }
}

impl ProviderStatus {
    /// The text shown for the status.
    pub fn label(&self) -> (r: &'static str)
        ensures
            r@ == status_label(*self),
    {
        match self {
            ProviderStatus::Offline => "Offline",
            ProviderStatus::NeedsEndpoint => "Needs endpoint",
            ProviderStatus::NeedsKey => "Needs key",
            ProviderStatus::Ready => "Ready",
        }
    }
}

fn is_blank_opt(o: &Option<String>) -> (r: bool)
    ensures
        r == (trim(or_empty(*o)).len() == 0),
{
    match o {
        Some(s) => trim_chars(&chars_of(s.as_str())).len() == 0,
        None => {
            assert(trim(Seq::<char>::empty()) =~= Seq::<char>::empty());
            true
        },
    }
}

/// The readiness of `p`, given its status word already trimmed and lowered.
pub fn provider_status_from(lowered: &str, p: &Provider) -> (r: ProviderStatus)
    ensures
        r == status_of(lowered@, *p),
{
    let w = chars_of(lowered);
    let online = chars_eq(&w, &chars_of("available")) || chars_eq(&w, &chars_of("online"))
        || chars_eq(&w, &chars_of("active")) || chars_eq(&w, &chars_of("healthy")) || chars_eq(
        &w,
        &chars_of("ready"),
    );
    if !online {
        ProviderStatus::Offline
    } else if chars_eq(&chars_of(p.adapter_type.as_str()), &chars_of("CustomAdapter"))
        && is_blank_opt(&p.command) {
        ProviderStatus::NeedsEndpoint
    } else if is_blank_opt(&p.api_key_ref) {
        ProviderStatus::NeedsKey
    } else {
        ProviderStatus::Ready
    }
}

/// The readiness of `p`: its status word is trimmed and put in lower case, by
/// Unicode's rules, before it is read.
pub fn provider_status(p: &Provider) -> (r: ProviderStatus)
    ensures
        r == status_of(unicode_lowercase(trim(p.status@)), *p),
{
    let t = string_of(&trim_chars(&chars_of(p.status.as_str())));
    let lowered = to_lowercase(t.as_str());
    provider_status_from(lowered.as_str(), p)
}

} // verus!

verus! {

// ---------------------------------------------------------------------------
// Unique names
// ---------------------------------------------------------------------------
/// Some provider of `existing` has the name `name`.
pub open spec fn name_taken(existing: Seq<Provider>, name: Seq<char>) -> bool {
    exists|i: int| 0 <= i < existing.len() && (#[trigger] existing[i]).provider_name@ == name
}

/// `d` followed by a space and the number `ix`.
pub open spec fn numbered_name(d: Seq<char>, ix: nat) -> Seq<char> {
    d + " "@ + decimal(ix)
}

/// The first number from `ix` below 1000 whose numbered name is free.
pub open spec fn first_free_from(d: Seq<char>, existing: Seq<Provider>, ix: nat) -> Option<nat>
    decreases 1000 - ix,
{
    if ix >= 1000 {
        None
    } else if !name_taken(existing, numbered_name(d, ix)) {
        Some(ix)
    } else {
        first_free_from(d, existing, ix + 1)
    }
}

/// The first free name for `desired`, trimmed: itself, else itself numbered from 2
/// to 999; none where all of them are taken.
pub open spec fn free_name_of(desired: Seq<char>, existing: Seq<Provider>) -> Option<Seq<char>> {
    let d = trim(desired);
    if !name_taken(existing, d) {
        Some(d)
    } else {
        match first_free_from(d, existing, 2) {
            Some(ix) => Some(numbered_name(d, ix)),
            None => None,
        }
    }
}

/// `name` is what a unique name for `desired` may be: the first free name, or, where
/// none is free, `desired` trimmed, a space and a random UUID.
pub open spec fn is_unique_name_for(
    desired: Seq<char>,
    existing: Seq<Provider>,
    name: Seq<char>,
) -> bool {
    match free_name_of(desired, existing) {
        Some(n) => name == n,
        None => {
            let head = trim(desired) + " "@;
            &&& name.len() == head.len() + 36
            &&& name.subrange(0, head.len() as int) == head
            &&& is_uuid_text(name.subrange(head.len() as int, name.len() as int))
        },
    }
}

fn name_in_use(existing: &Vec<Provider>, name: &Vec<char>) -> (r: bool)
    ensures
        r == name_taken(existing@, name@),
{
    let mut i: usize = 0;
    while i < existing.len()
        invariant
            i <= existing.len(),
            forall|k: int| 0 <= k < i ==> (#[trigger] existing@[k]).provider_name@ != name@,
        decreases existing.len() - i,
    {
        if chars_eq(&chars_of(existing[i].provider_name.as_str()), name) {
            assert(existing@[i as int].provider_name@ == name@);
            return true;
        }
        i = i + 1;
    }
    false
}

/// The first free name for `desired` among the names of `existing`.
pub fn free_provider_name(desired: &str, existing: &Vec<Provider>) -> (r: Option<String>)
    ensures
        opt_string(r) == free_name_of(desired@, existing@),
{
    let d = trim_chars(&chars_of(desired));
    if !name_in_use(existing, &d) {
        return Some(string_of(&d));
    }
    let mut ix: u64 = 2;
    while ix < 1000
        invariant
            2 <= ix <= 1000,
            d@ == trim(desired@),
            name_taken(existing@, d@),
            first_free_from(d@, existing@, 2) == first_free_from(d@, existing@, ix as nat),
        decreases 1000 - ix,
    {
        let mut candidate = d.clone();
        candidate.push(' ');
        crate::text::push_decimal(&mut candidate, ix);
        proof {
            reveal_strlit(" ");
        }
        assert(candidate@ =~= numbered_name(d@, ix as nat));
        if !name_in_use(existing, &candidate) {
            return Some(string_of(&candidate));
        }
        ix = ix + 1;
    }
    None
}

/// A name for a new provider that no provider of `existing` has: the first free one,
/// else `desired` with a random suffix.
pub fn unique_provider_name(desired: &str, existing: &Vec<Provider>) -> (r: String)
    ensures
        is_unique_name_for(desired@, existing@, r@),
{
    match free_provider_name(desired, existing) {
        Some(n) => n,
        None => {
            let d = trim_chars(&chars_of(desired));
            let mut v = d.clone();
            v.push(' ');
            let ghost head = v@;
            let suffix = new_uuid_text();
            crate::text::append_str(&mut v, suffix.as_str());
            proof {
                reveal_strlit(" ");
                assert(head =~= d@ + " "@);
                assert(v@.subrange(0, head.len() as int) =~= head);
                assert(v@.subrange(head.len() as int, v@.len() as int) =~= suffix@);
            }
            string_of(&v)
        },
    }
}

} // verus!

verus! {

// ---------------------------------------------------------------------------
// Adding a provider
// ---------------------------------------------------------------------------
/// Why a provider form was refused.
#[derive(Clone, Copy, PartialEq, Eq, Debug, Structural)]
pub enum ProviderFormError {
    NoProviderSelected,
    MissingModel,
    NotFound,
    MissingNameOrModel,
    MissingEndpoint,
    Duplicate,
    MissingApiKey,
}

pub open spec fn form_error_message(e: ProviderFormError) -> Seq<char> {
    match e {
        ProviderFormError::NoProviderSelected => "Please select a provider."@,
        ProviderFormError::MissingModel => "Enter the real custom provider model or deployment id."@,
        ProviderFormError::NotFound => "Provider was not found."@,
        ProviderFormError::MissingNameOrModel => "Display name and model/deployment ID are required."@,
        ProviderFormError::MissingEndpoint => "A Base URL / endpoint is required for a custom provider."@,
        ProviderFormError::Duplicate => "Another provider already uses this display name and model."@,
        ProviderFormError::MissingApiKey => "Enter a new API key, secret:// reference, or env:VARIABLE."@,
    }
}

impl ProviderFormError {
    /// The message shown for the refusal.
    pub fn message(&self) -> (r: &'static str)
        ensures
            r@ == form_error_message(*self),
    {
        match self {
            ProviderFormError::NoProviderSelected => "Please select a provider.",
            ProviderFormError::MissingModel => "Enter the real custom provider model or deployment id.",
            ProviderFormError::NotFound => "Provider was not found.",
            ProviderFormError::MissingNameOrModel => "Display name and model/deployment ID are required.",
            ProviderFormError::MissingEndpoint => "A Base URL / endpoint is required for a custom provider.",
            ProviderFormError::Duplicate => "Another provider already uses this display name and model.",
            ProviderFormError::MissingApiKey => "Enter a new API key, secret:// reference, or env:VARIABLE.",
        }
    }
}

/// What the form for a new provider holds.
#[derive(Clone, Debug)]
pub struct NewProviderForm {
    /// The label of the chosen template.
    pub provider: Option<String>,
    /// The model chosen from the template's list.
    pub selected_model: Option<String>,
    /// The display name typed, blank for the template's label.
    pub alias: String,
    /// A model or deployment id typed in place of the chosen one.
    pub model_override: String,
    pub base_url: String,
}

/// The adapter of a new provider: that of the template labelled `label`, else the
/// custom adapter.
pub open spec fn new_adapter_of(label: Seq<char>, ts: Seq<ProviderTemplate>) -> Seq<char> {
    match label_index(ts, label) {
        Some(i) => ts[i].adapter@,
        None => "CustomAdapter"@,
    }
}

/// The model of a new provider: the id typed, else the one chosen, each cleaned.
pub open spec fn new_model_of(form: NewProviderForm) -> Seq<char> {
    let o = clean_field(form.model_override@);
    if o.len() > 0 {
        o
    } else {
        match form.selected_model {
            Some(m) => clean_field(m@),
            None => Seq::<char>::empty(),
        }
    }
}

/// The name wanted for a new provider: the display name typed, else the template's label.
pub open spec fn desired_name_of(form: NewProviderForm) -> Seq<char> {
    let a = clean_display_name(form.alias@);
    if a.len() == 0 {
        or_empty(form.provider)
    } else {
        a
    }
}

/// A model that cannot be stored: none, or the placeholder of the custom adapter.
pub open spec fn model_rejected(adapter: Seq<char>, model: Seq<char>) -> bool {
    model.len() == 0 || (adapter == "CustomAdapter"@ && model == "custom-model"@)
}

/// The endpoint stored for a typed base URL: none where it is blank once cleaned.
pub open spec fn endpoint_of(text: Seq<char>) -> Option<Seq<char>> {
    let c = clean_field(text);
    if c.len() == 0 {
        None
    } else {
        Some(c)
    }
}

/// `p` is the provider that the form describes, with the credential reference `key_ref`.
pub open spec fn describes_new_provider(
    p: Provider,
    form: NewProviderForm,
    ts: Seq<ProviderTemplate>,
    existing: Seq<Provider>,
    key_ref: Option<Seq<char>>,
) -> bool {
    &&& is_unique_name_for(desired_name_of(form), existing, p.provider_name@)
    &&& p.model@ == new_model_of(form)
    &&& p.adapter_type@ == new_adapter_of(or_empty(form.provider), ts)
    &&& opt_string(p.command) == endpoint_of(form.base_url@)
    &&& opt_string(p.api_key_ref) == key_ref
    &&& p.status@ == "available"@
    &&& is_uuid_text(p.id@)
}

fn is_empty_text(s: &str) -> (r: bool)
    ensures
        r == (s@.len() == 0),
{
    chars_of(s).len() == 0
}

fn copy_opt(o: &Option<String>) -> (r: Option<String>)
    ensures
        opt_string(r) == opt_string(*o),
{
    match o {
        Some(s) => Some(s.clone()),
        None => None,
    }
}

fn endpoint_from(text: &str) -> (r: Option<String>)
    ensures
        opt_string(r) == endpoint_of(text@),
{
    let c = clean_field_chars(text);
    if c.len() == 0 {
        None
    } else {
        Some(string_of(&c))
    }
}

/// The provider that the form for a new provider describes, once its credential is
/// settled as `api_key_ref`; its id is fresh and random. Refused where no template is
/// chosen, or where the model is missing or is the custom adapter's placeholder.
pub fn draft_new_provider(
    form: &NewProviderForm,
    templates: &Vec<ProviderTemplate>,
    existing: &Vec<Provider>,
    api_key_ref: Option<String>,
) -> (r: Result<Provider, ProviderFormError>)
    ensures
        form.provider is None ==> r == Err::<Provider, ProviderFormError>(
            ProviderFormError::NoProviderSelected,
        ),
        form.provider is Some && model_rejected(
            new_adapter_of(or_empty(form.provider), templates@),
            new_model_of(*form),
        ) ==> r == Err::<Provider, ProviderFormError>(ProviderFormError::MissingModel),
        form.provider is Some && !model_rejected(
            new_adapter_of(or_empty(form.provider), templates@),
            new_model_of(*form),
        ) ==> (r matches Ok(p) && describes_new_provider(
            p,
            *form,
            templates@,
            existing@,
            opt_string(api_key_ref),
        )),
{
    let label: &String = match &form.provider {
        Some(l) => l,
        None => {
            return Err(ProviderFormError::NoProviderSelected);
        },
    };
    let adapter: String = match find_template_by_label(templates, label.as_str()) {
        Some(i) => templates[i].adapter.clone(),
        None => "CustomAdapter".to_string(),
    };
    let alias = sanitize_display_name(form.alias.as_str());
    let name = if is_empty_text(alias.as_str()) {
        unique_provider_name(label.as_str(), existing)
    } else {
        unique_provider_name(alias.as_str(), existing)
    };
    let model_override = sanitize_model_id(form.model_override.as_str());
    let model: String = if !is_empty_text(model_override.as_str()) {
        model_override
    } else {
        match &form.selected_model {
            Some(m) => sanitize_model_id(m.as_str()),
            None => String::new(),
        }
    };
    if is_empty_text(model.as_str()) || (crate::text::str_eq(adapter.as_str(), "CustomAdapter")
        && crate::text::str_eq(model.as_str(), "custom-model")) {
        return Err(ProviderFormError::MissingModel);
    }
    Ok(
        Provider {
            id: new_uuid_text(),
            provider_name: name,
            model,
            adapter_type: adapter,
            command: endpoint_from(form.base_url.as_str()),
            api_key_ref,
            status: "available".to_string(),
        },
    )
}

// ---------------------------------------------------------------------------
// Credentials
// ---------------------------------------------------------------------------
/// What to do with the credential typed into a provider form.
#[derive(Clone, Debug)]
pub enum KeyPlan {
    /// No credential.
    NoKey,
    /// Store this reference as it stands.
    Reference(String),
    /// Put `secret` into the keychain under `account`, and store a `secret://`
    /// reference to it.
    Store { account: String, secret: String },
}

/// The prefix of the keychain accounts that this library creates.
pub open spec fn owned_prefix() -> Seq<char> {
    "custom-provider-"@
}

/// The keychain account of a `secret://` reference, where this library created it.
pub open spec fn owned_account_of(api_key_ref: Option<Seq<char>>) -> Option<Seq<char>> {
    match secret_account_of(api_key_ref) {
        Some(a) => if starts_with(a, owned_prefix()) {
            Some(a)
        } else {
            None
        },
        None => None,
    }
}

/// The keychain account of a `secret://` reference, where this library created it;
/// only such a secret is ever replaced or removed.
pub fn owned_secret_account(api_key_ref: Option<&str>) -> (r: Option<String>)
    ensures
        opt_string(r) == owned_account_of(opt_chars(api_key_ref)),
{
    match secret_account_from_ref(api_key_ref) {
        Some(a) => {
            let c = chars_of(a.as_str());
            if starts_with_str(&c, "custom-provider-") {
                Some(a)
            } else {
                None
            }
        },
        None => None,
    }
}

/// `a` is a fresh keychain account of this library: its prefix followed by a random
/// UUID.
pub open spec fn is_fresh_account(a: Seq<char>) -> bool {
    &&& a.len() == owned_prefix().len() + 36
    &&& a.subrange(0, owned_prefix().len() as int) == owned_prefix()
    &&& is_uuid_text(a.subrange(owned_prefix().len() as int, a.len() as int))
}

/// A fresh keychain account of this library: its prefix and a random UUID.
pub fn new_secret_account() -> (r: String)
    ensures
        is_fresh_account(r@),
        starts_with(r@, owned_prefix()),
{
    let id = new_uuid_text();
    let mut v = chars_of("custom-provider-");
    crate::text::append_str(&mut v, id.as_str());
    proof {
        reveal_strlit("custom-provider-");
        assert(v@ =~= owned_prefix() + id@);
        assert(v@.subrange(0, owned_prefix().len() as int) =~= owned_prefix());
        assert(v@.subrange(owned_prefix().len() as int, v@.len() as int) =~= id@);
    }
    string_of(&v)
}

/// The `secret://` reference to a keychain account.
pub fn secret_reference(account: &str) -> (r: String)
    ensures
        r@ == "secret://"@ + account@,
{
    concat2("secret://", &chars_of(account))
}

/// The credential reference a provider is saved with under the plan `plan`, where
/// `stored` tells whether the keychain took the secret of a `Store` plan (it is asked
/// only for those): no reference for `NoKey`, the reference itself, or a `secret://`
/// reference to the account once the secret is stored. `None` where the keychain
/// refused the secret: then nothing is saved, so a raw key never reaches the store.
pub fn settled_key_ref(plan: &KeyPlan, stored: bool) -> (r: Option<Option<String>>)
    ensures
        plan is NoKey ==> r matches Some(None),
        plan matches KeyPlan::Reference(k) ==> (r matches Some(Some(x)) && x@ == k@),
        plan matches KeyPlan::Store { account, secret } ==> (if stored {
            r matches Some(Some(x)) && x@ == "secret://"@ + account@
        } else {
            r is None
        }),
{
    match plan {
        KeyPlan::NoKey => Some(None),
        KeyPlan::Reference(k) => Some(Some(k.clone())),
        KeyPlan::Store { account, secret: _ } => if stored {
            Some(Some(secret_reference(account.as_str())))
        } else {
            None
        },
    }
}

/// What to do with the credential typed into the form for a new provider, where
/// `is_reference` tells whether the trimmed text is already a credential reference:
/// nothing where it is blank, keep a reference, and store a raw key under a fresh
/// account.
pub fn new_key_plan(api_key: &str, is_reference: bool) -> (r: KeyPlan)
    ensures
        trim(api_key@).len() == 0 ==> r is NoKey,
        trim(api_key@).len() > 0 && is_reference ==> (r matches KeyPlan::Reference(k) && k@ == trim(
            api_key@,
        )),
        trim(api_key@).len() > 0 && !is_reference ==> (r matches KeyPlan::Store { account, secret }
            && secret@ == trim(api_key@) && is_fresh_account(account@)),
{
    let t = trim_chars(&chars_of(api_key));
    if t.len() == 0 {
        KeyPlan::NoKey
    } else if is_reference {
        KeyPlan::Reference(string_of(&t))
    } else {
        KeyPlan::Store { account: new_secret_account(), secret: string_of(&t) }
    }
}

/// What to do with a new credential typed into the edit form, where `is_reference`
/// tells whether the trimmed text is already a reference: refused where it is blank,
/// keep a reference, and store a raw key under the account of the current secret
/// where this library created it, else under a fresh one.
pub fn replacement_key_plan(api_key: &str, is_reference: bool, existing_ref: Option<&str>) -> (r:
    Result<KeyPlan, ProviderFormError>)
    ensures
        trim(api_key@).len() == 0 ==> r == Err::<KeyPlan, ProviderFormError>(
            ProviderFormError::MissingApiKey,
        ),
        trim(api_key@).len() > 0 && is_reference ==> (r matches Ok(KeyPlan::Reference(k)) && k@
            == trim(api_key@)),
        trim(api_key@).len() > 0 && !is_reference ==> (r matches Ok(
            KeyPlan::Store { account, secret },
        ) && secret@ == trim(api_key@) && match owned_account_of(opt_chars(existing_ref)) {
            Some(a) => account@ == a,
            None => is_fresh_account(account@),
        }),
{
    let t = trim_chars(&chars_of(api_key));
    if t.len() == 0 {
        return Err(ProviderFormError::MissingApiKey);
    }
    if is_reference {
        return Ok(KeyPlan::Reference(string_of(&t)));
    }
    let account = match owned_secret_account(existing_ref) {
        Some(a) => a,
        None => new_secret_account(),
    };
    Ok(KeyPlan::Store { account, secret: string_of(&t) })
}

} // verus!

verus! {

// ---------------------------------------------------------------------------
// Editing and removing a provider
// ---------------------------------------------------------------------------
/// What the edit form of a provider holds.
#[derive(Clone, Debug)]
pub struct ProviderEditForm {
    /// The label of the chosen provider type.
    pub provider_type: Option<String>,
    pub display_name: String,
    pub model: String,
    pub endpoint: String,
}

/// The checked changes of an edit form.
#[derive(Clone, Debug)]
pub struct ProviderEdit {
    /// The position of the provider edited.
    pub index: usize,
    pub provider_name: String,
    pub model: String,
    pub adapter_type: String,
    pub command: Option<String>,
}

/// The first provider at or after `i` with the id `id`.
pub open spec fn id_index_from(ps: Seq<Provider>, id: Seq<char>, i: int) -> Option<int>
    decreases ps.len() - i,
{
    if i < 0 || i >= ps.len() {
        None
    } else if ps[i].id@ == id {
        Some(i)
    } else {
        id_index_from(ps, id, i + 1)
    }
}

/// The first provider with the id `id`.
pub open spec fn id_index(ps: Seq<Provider>, id: Seq<char>) -> Option<int> {
    id_index_from(ps, id, 0)
}

/// Another provider than the one at `k` has the name and the model, compared
/// without regard to ASCII case.
pub open spec fn clashes(ps: Seq<Provider>, k: int, name: Seq<char>, model: Seq<char>) -> bool {
    exists|j: int|
        0 <= j < ps.len() && (#[trigger] ps[j]).id@ != ps[k].id@ && lower(ps[j].provider_name@)
            == lower(name) && lower(ps[j].model@) == lower(model)
}

/// The adapter chosen in an edit form: that of the template labelled with the chosen
/// type, else the one the provider has.
pub open spec fn edit_adapter_of(form: ProviderEditForm, ts: Seq<ProviderTemplate>, current: Seq<char>) -> Seq<char> {
    match label_index(ts, or_empty(form.provider_type)) {
        Some(i) => ts[i].adapter@,
        None => current,
    }
}

/// The outcome of an edit form for the provider with the id `id`.
pub open spec fn edit_outcome(
    ps: Seq<Provider>,
    id: Seq<char>,
    form: ProviderEditForm,
    ts: Seq<ProviderTemplate>,
) -> Result<(int, Seq<char>, Seq<char>, Seq<char>, Option<Seq<char>>), ProviderFormError> {
    match id_index(ps, id) {
        None => Err(ProviderFormError::NotFound),
        Some(k) => {
            let name = clean_display_name(form.display_name@);
            let model = clean_field(form.model@);
            let endpoint = clean_field(form.endpoint@);
            let adapter = edit_adapter_of(form, ts, ps[k].adapter_type@);
            if name.len() == 0 || model.len() == 0 {
                Err(ProviderFormError::MissingNameOrModel)
            } else if adapter == "CustomAdapter"@ && endpoint.len() == 0 {
                Err(ProviderFormError::MissingEndpoint)
            } else if clashes(ps, k, name, model) {
                Err(ProviderFormError::Duplicate)
            } else {
                Ok((k, name, model, adapter, endpoint_of(form.endpoint@)))
            }
        },
    }
}

/// The view of a checked edit.
pub open spec fn edit_view(e: ProviderEdit) -> (int, Seq<char>, Seq<char>, Seq<char>, Option<Seq<char>>) {
    (e.index as int, e.provider_name@, e.model@, e.adapter_type@, opt_string(e.command))
}

fn find_provider_by_id(ps: &Vec<Provider>, id: &str) -> (r: Option<usize>)
    ensures
        r matches Some(i) ==> id_index(ps@, id@) == Some(i as int) && i < ps.len(),
        r is None ==> id_index(ps@, id@) is None,
{
    let want = chars_of(id);
    let mut i: usize = 0;
    while i < ps.len()
        invariant
            i <= ps.len(),
            want@ == id@,
            id_index(ps@, id@) == id_index_from(ps@, id@, i as int),
        decreases ps.len() - i,
    {
        if chars_eq(&chars_of(ps[i].id.as_str()), &want) {
            return Some(i);
        }
        i = i + 1;
    }
    None
}

fn same_ignoring_ascii_case(a: &str, b: &Vec<char>) -> (r: bool)
    ensures
        r == (lower(a@) == lower(b@)),
{
    chars_eq(&lower_chars(&chars_of(a)), &lower_chars(b))
}

fn find_clash(ps: &Vec<Provider>, k: usize, name: &Vec<char>, model: &Vec<char>) -> (r: bool)
    requires
        k < ps.len(),
    ensures
        r == clashes(ps@, k as int, name@, model@),
{
    let own = chars_of(ps[k].id.as_str());
    let mut j: usize = 0;
    while j < ps.len()
        invariant
            j <= ps.len(),
            k < ps.len(),
            own@ == ps@[k as int].id@,
            forall|i: int|
                0 <= i < j ==> !((#[trigger] ps@[i]).id@ != ps@[k as int].id@ && lower(
                    ps@[i].provider_name@,
                ) == lower(name@) && lower(ps@[i].model@) == lower(model@)),
        decreases ps.len() - j,
    {
        if !chars_eq(&chars_of(ps[j].id.as_str()), &own) && same_ignoring_ascii_case(
            ps[j].provider_name.as_str(),
            name,
        ) && same_ignoring_ascii_case(ps[j].model.as_str(), model) {
            assert(ps@[j as int].id@ != ps@[k as int].id@);
            return true;
        }
        j = j + 1;
    }
    false
}

/// The checked changes of the edit form for the provider with the id `id`: refused
/// where no provider has that id, where the name or the model is blank once
/// cleaned, where a custom adapter is left without an endpoint, and where another
/// provider has the same name and model, without regard to ASCII case.
pub fn draft_provider_update(
    providers: &Vec<Provider>,
    id: &str,
    form: &ProviderEditForm,
    templates: &Vec<ProviderTemplate>,
) -> (r: Result<ProviderEdit, ProviderFormError>)
    ensures
        match r {
            Ok(e) => edit_outcome(providers@, id@, *form, templates@) == Ok::<
                (int, Seq<char>, Seq<char>, Seq<char>, Option<Seq<char>>),
                ProviderFormError,
            >(edit_view(e)),
            Err(x) => edit_outcome(providers@, id@, *form, templates@) == Err::<
                (int, Seq<char>, Seq<char>, Seq<char>, Option<Seq<char>>),
                ProviderFormError,
            >(x),
        },
{
    let k = match find_provider_by_id(providers, id) {
        Some(k) => k,
        None => {
            return Err(ProviderFormError::NotFound);
        },
    };
    let name = sanitize_display_name(form.display_name.as_str());
    let model = sanitize_model_id(form.model.as_str());
    let endpoint = sanitize_base_url(form.endpoint.as_str());
    let chosen: &str = match &form.provider_type {
        Some(t) => t.as_str(),
        None => "",
    };
    proof {
        reveal_strlit("");
    }
    let adapter: String = match find_template_by_label(templates, chosen) {
        Some(i) => templates[i].adapter.clone(),
        None => providers[k].adapter_type.clone(),
    };
    assert(chosen@ == or_empty(form.provider_type));
    assert(adapter@ == edit_adapter_of(*form, templates@, providers@[k as int].adapter_type@));
    if is_empty_text(name.as_str()) || is_empty_text(model.as_str()) {
        return Err(ProviderFormError::MissingNameOrModel);
    }
    if crate::text::str_eq(adapter.as_str(), "CustomAdapter") && is_empty_text(endpoint.as_str()) {
        return Err(ProviderFormError::MissingEndpoint);
    }
    let name_chars = chars_of(name.as_str());
    let model_chars = chars_of(model.as_str());
    if find_clash(providers, k, &name_chars, &model_chars) {
        return Err(ProviderFormError::Duplicate);
    }
    let command = endpoint_from(form.endpoint.as_str());
    Ok(ProviderEdit { index: k, provider_name: name, model, adapter_type: adapter, command })
}

/// The provider as edited: the changes of `edit` and the credential `api_key_ref` on
/// the id of `existing`, marked available again.
pub fn apply_provider_update(existing: &Provider, edit: &ProviderEdit, api_key_ref: Option<String>) -> (r: Provider)
    ensures
        r.id@ == existing.id@,
        r.provider_name@ == edit.provider_name@,
        r.model@ == edit.model@,
        r.adapter_type@ == edit.adapter_type@,
        opt_string(r.command) == opt_string(edit.command),
        opt_string(r.api_key_ref) == opt_string(api_key_ref),
        r.status@ == "available"@,
{
    Provider {
        id: existing.id.clone(),
        provider_name: edit.provider_name.clone(),
        model: edit.model.clone(),
        adapter_type: edit.adapter_type.clone(),
        command: copy_opt(&edit.command),
        api_key_ref,
        status: "available".to_string(),
    }
}

/// The keychain account to remove once a provider's credential changed from
/// `old_ref` to `new_ref`: the old one, where it changed and this library created it.
pub fn stale_secret_account(old_ref: Option<&str>, new_ref: Option<&str>) -> (r: Option<String>)
    ensures
        opt_chars(old_ref) == opt_chars(new_ref) ==> r is None,
        opt_chars(old_ref) != opt_chars(new_ref) ==> opt_string(r) == owned_account_of(
            opt_chars(old_ref),
        ),
{
    let same = match (old_ref, new_ref) {
        (Some(a), Some(b)) => crate::text::str_eq(a, b),
        (None, None) => true,
        _ => false,
    };
    if same {
        None
    } else {
        owned_secret_account(old_ref)
    }
}

/// The types offered in a provider's edit form: the labels of the templates, and
/// the provider's adapter after them where no template has it; with the position of
/// the one chosen, the first template with the provider's adapter.
pub fn provider_type_choices(templates: &Vec<ProviderTemplate>, adapter_type: &str) -> (r: (
    Vec<String>,
    usize,
))
    ensures
        adapter_index(templates@, adapter_type@) is Some ==> r.0.len() == templates.len(),
        adapter_index(templates@, adapter_type@) is None ==> r.0.len() == templates.len() + 1
            && r.0@[templates.len() as int]@ == adapter_type@,
        forall|i: int| 0 <= i < templates.len() ==> (#[trigger] r.0@[i])@ == templates@[i].label@,
        match adapter_index(templates@, adapter_type@) {
            Some(k) => r.1 == k,
            None => r.1 == templates.len(),
        },
{
    let mut options: Vec<String> = Vec::new();
    let mut i: usize = 0;
    while i < templates.len()
        invariant
            i <= templates.len(),
            options.len() == i,
            forall|k: int| 0 <= k < i ==> (#[trigger] options@[k])@ == templates@[k].label@,
        decreases templates.len() - i,
    {
        options.push(templates[i].label.clone());
        i = i + 1;
    }
    match find_template_by_adapter(templates, adapter_type) {
        Some(k) => (options, k),
        None => {
            options.push(crate::text::string_from(adapter_type));
            let n = options.len() - 1;
            (options, n)
        },
    }
}

} // verus!

verus! {

// ---------------------------------------------------------------------------
// Laws
// ---------------------------------------------------------------------------
proof fn lemma_first_free_is_free(d: Seq<char>, existing: Seq<Provider>, ix: nat)
    ensures
        first_free_from(d, existing, ix) matches Some(n) ==> ix <= n < 1000 && !name_taken(
            existing,
            numbered_name(d, n),
        ),
    decreases 1000 - ix,
{
    if ix < 1000 && name_taken(existing, numbered_name(d, ix)) {
        lemma_first_free_is_free(d, existing, ix + 1);
    }
}

/// The status words available, online, active, healthy and ready all mean the
/// provider is up: a provider with one of them is never offline, and is ready once it
/// has a credential and, for the custom adapter, an endpoint.
pub proof fn law_online_words_are_not_offline(word: Seq<char>, p: Provider)
    requires
        word == "available"@ || word == "online"@ || word == "active"@ || word == "healthy"@ || word
            == "ready"@,
    ensures
        status_of(word, p) != ProviderStatus::Offline,
        trim(or_empty(p.api_key_ref)).len() > 0 && (p.adapter_type@ != "CustomAdapter"@ || trim(
            or_empty(p.command),
        ).len() > 0) ==> status_of(word, p) == ProviderStatus::Ready,
{
}

/// A provider just drafted from the new-provider form is up: it carries the status
/// `available`, so it is ready as soon as it has a credential and, for the custom
/// adapter, an endpoint.
pub proof fn law_new_provider_is_ready_with_a_key(
    p: Provider,
    form: NewProviderForm,
    ts: Seq<ProviderTemplate>,
    existing: Seq<Provider>,
    key_ref: Option<Seq<char>>,
)
    requires
        describes_new_provider(p, form, ts, existing, key_ref),
        trim(or_empty(p.api_key_ref)).len() > 0,
        p.adapter_type@ != "CustomAdapter"@ || trim(or_empty(p.command)).len() > 0,
    ensures
        status_of(p.status@, p) == ProviderStatus::Ready,
{
    law_online_words_are_not_offline(p.status@, p);
}

/// A free name is free: where a free name is found for a new provider, no provider
/// has it yet.
pub proof fn law_free_name_is_free(desired: Seq<char>, existing: Seq<Provider>)
    ensures
        free_name_of(desired, existing) matches Some(n) ==> !name_taken(existing, n),
{
    lemma_first_free_is_free(trim(desired), existing, 2);
}

/// Only secrets that this library created are ever replaced or removed: the account
/// owned by a reference carries the library's prefix.
pub proof fn law_owned_accounts_carry_prefix(api_key_ref: Option<Seq<char>>)
    ensures
        owned_account_of(api_key_ref) matches Some(a) ==> starts_with(a, owned_prefix()),
{
}

/// A reference that names a keychain account is shown as a stored secret.
pub proof fn law_secret_reference_label(api_key_ref: Option<Seq<char>>)
    ensures
        secret_account_of(api_key_ref) is Some ==> credential_label_of(api_key_ref)
            == "Secret stored"@,
{
    reveal_strlit("secret://");
}

/// A `secret://` reference reads back to its account: a reference written for an
/// account that is its own trim and not empty names that account again, whatever
/// whitespace surrounds it (so `secret_account_from_ref` gives it back).
pub proof fn law_secret_reference_round_trip(lead: Seq<char>, account: Seq<char>, trail: Seq<char>)
    requires
        forall|j: int| 0 <= j < lead.len() ==> crate::text::is_space(#[trigger] lead[j]),
        forall|j: int| 0 <= j < trail.len() ==> crate::text::is_space(#[trigger] trail[j]),
        trim(account) == account,
        account.len() > 0,
    ensures
        secret_account_of(Some(lead + "secret://"@ + account + trail)) == Some(account),
{
    reveal_strlit("secret://");
    crate::text::lemma_trimmed_ends(account);
    let r = "secret://"@ + account;
    assert(r.subrange(0, 9) =~= "secret://"@);
    assert(r.subrange(9, r.len() as int) =~= account);
    assert(!crate::text::is_space(r[0]));
    assert(r.last() == account.last());
    assert(lead + "secret://"@ + account + trail =~= lead + r + trail);
    crate::text::lemma_trim_padded(lead, r, trail);
}

/// The round trip in the form a settings form writes it: two spaces, the reference,
/// and a space.
pub proof fn law_padded_secret_reference_reads_back(account: Seq<char>)
    requires
        trim(account) == account,
        account.len() > 0,
    ensures
        secret_account_of(Some("  secret://"@ + account + " "@)) == Some(account),
{
    reveal_strlit("  secret://");
    reveal_strlit("secret://");
    reveal_strlit("  ");
    reveal_strlit(" ");
    let lead = "  "@;
    let trail = " "@;
    assert("  secret://"@ =~= lead + "secret://"@);
    assert("  secret://"@ + account + " "@ =~= lead + "secret://"@ + account + trail);
    law_secret_reference_round_trip(lead, account, trail);
}

/// No reference names an account where there is none, where its trimmed text does
/// not begin with `secret://`, or where only whitespace follows that prefix.
pub proof fn law_secret_reference_refusals(api_key_ref: Option<Seq<char>>)
    ensures
        api_key_ref is None ==> secret_account_of(api_key_ref) is None,
        api_key_ref matches Some(c) && !starts_with(trim(c), "secret://"@) ==> secret_account_of(
            api_key_ref,
        ) is None,
        api_key_ref matches Some(c) && starts_with(trim(c), "secret://"@) && trim(
            trim(c).subrange(9, trim(c).len() as int),
        ).len() == 0 ==> secret_account_of(api_key_ref) is None,
{
    reveal_strlit("secret://");
}

} // verus!

verus! {

/// How many of `ps` have a credential reference that is not empty.
pub open spec fn with_key_count(ps: Seq<Provider>) -> nat
    decreases ps.len(),
{
    if ps.len() == 0 {
        0
    } else {
        with_key_count(ps.drop_last()) + if or_empty(ps.last().api_key_ref).len() > 0 {
            1nat
        } else {
            0nat
        }
    }
}

/// How many providers have a credential reference, as the profile page counts them.
pub fn providers_with_key(providers: &Vec<Provider>) -> (r: usize)
    ensures
        r == with_key_count(providers@),
{
    let mut n: usize = 0;
    let mut i: usize = 0;
    while i < providers.len()
        invariant
            i <= providers.len(),
            n == with_key_count(providers@.take(i as int)),
            n <= i,
        decreases providers.len() - i,
    {
        assert(providers@.take(i + 1).drop_last() =~= providers@.take(i as int));
        let has = match &providers[i].api_key_ref {
            Some(k) => !is_empty_text(k.as_str()),
            None => false,
        };
        if has {
            n = n + 1;
        }
        i = i + 1;
    }
    assert(providers@.take(providers.len() as int) =~= providers@);
    n
}

} // verus!

verus! {

/// What choosing the template `label` in the form fills in: its models to choose
/// from and its default base URL, cleaned; nothing where no template has the label.
pub fn template_choice(templates: &Vec<ProviderTemplate>, label: &str) -> (r: Option<(Vec<String>, String)>)
    ensures
        match label_index(templates@, label@) {
            Some(i) => r matches Some(c) && c.0@.len() == templates@[i].models@.len() && (forall|k: int|
                0 <= k < c.0@.len() ==> (#[trigger] c.0@[k])@ == templates@[i].models@[k]@)
                && c.1@ == clean_field(templates@[i].default_base_url@),
            None => r is None,
        },
{
    match find_template_by_label(templates, label) {
        Some(i) => {
            let t = &templates[i];
            let mut models: Vec<String> = Vec::new();
            let mut k: usize = 0;
            while k < t.models.len()
                invariant
                    k <= t.models.len(),
                    models@.len() == k,
                    forall|j: int| 0 <= j < k ==> (#[trigger] models@[j])@ == t.models@[j]@,
                decreases t.models.len() - k,
            {
                models.push(t.models[k].clone());
                k = k + 1;
            }
            Some((models, sanitize_base_url(t.default_base_url.as_str())))
        },
        None => None,
    }
}

} // verus!

//! The configuration that Kimi Code gets in the home of an account.
//!
//! Only what the official provider needs is taken over from the user's configuration. Other
//! providers, other endpoints and keys that stand in the file itself are left behind.

use vstd::prelude::*;

use crate::text::{concat2, concat3, lists, starts_with};

verus! {

/// A TOML value.
#[verifier::external_type_specification]
#[verifier::external_body]
pub struct ExTomlValue(toml::Value);

/// A TOML table.
#[verifier::external_type_specification]
#[verifier::external_body]
#[verifier::reject_recursive_types(K)]
#[verifier::reject_recursive_types(V)]
pub struct ExTomlMap<K, V>(toml::map::Map<K, V>);

/// What a TOML table holds.
pub uninterp spec fn toml_entries(t: toml::map::Map<String, toml::Value>) -> Map<
    Seq<char>,
    toml::Value,
>;

/// The table that a TOML value is.
pub uninterp spec fn toml_table(v: toml::Value) -> Option<toml::map::Map<String, toml::Value>>;

/// The text of a TOML string.
pub uninterp spec fn toml_text(v: toml::Value) -> Option<Seq<char>>;

/// What a TOML document stands for.
pub uninterp spec fn toml_parsed(s: Seq<char>) -> Result<toml::Value, Seq<char>>;

/// The text of a TOML document.
pub uninterp spec fn toml_printed(v: toml::Value) -> Result<Seq<char>, Seq<char>>;

/// `toml::from_str`: what a document stands for, or the words of the error.
#[verifier::external_body]
fn parse_toml(raw: &str) -> (r: Result<toml::Value, String>)
    ensures
        match r {
            Ok(v) => toml_parsed(raw@) == Ok::<toml::Value, Seq<char>>(v),
            Err(why) => toml_parsed(raw@) == Err::<toml::Value, Seq<char>>(why@),
        },
{
    toml::from_str::<toml::Value>(raw).map_err(|e| e.to_string())
}

/// `toml::to_string_pretty`: the text of a document, or the words of the error.
#[verifier::external_body]
fn print_toml(v: &toml::Value) -> (r: Result<String, String>)
    ensures
        match r {
            Ok(s) => toml_printed(*v) == Ok::<Seq<char>, Seq<char>>(s@),
            Err(why) => toml_printed(*v) == Err::<Seq<char>, Seq<char>>(why@),
        },
{
    toml::to_string_pretty(v).map_err(|e| e.to_string())
}

/// `toml::Value::as_table`: the table that a value is.
#[verifier::external_body]
fn as_table(v: &toml::Value) -> (r: Option<&toml::map::Map<String, toml::Value>>)
    ensures
        match r {
            Some(t) => toml_table(*v) == Some(*t),
            None => toml_table(*v) is None,
        },
{
    v.as_table()
}

/// `toml::Value::as_str`: the text of a string.
#[verifier::external_body]
fn as_text(v: &toml::Value) -> (r: Option<&str>)
    ensures
        match r {
            Some(s) => toml_text(*v) == Some(s@),
            None => toml_text(*v) is None,
        },
{
    v.as_str()
}

/// `toml::Value::clone`: the same value.
#[verifier::external_body]
fn copy_value(v: &toml::Value) -> (r: toml::Value)
    ensures
        r == *v,
{
    v.clone()
}

/// `toml::Value::Table`: the value that a table is.
#[verifier::external_body]
fn table_value(t: toml::map::Map<String, toml::Value>) -> (r: toml::Value)
    ensures
        toml_table(r) == Some(t),
{
    toml::Value::Table(t)
}

/// `toml::map::Map::new`: a table that holds nothing.
#[verifier::external_body]
fn new_table() -> (r: toml::map::Map<String, toml::Value>)
    ensures
        forall|k: Seq<char>| !(#[trigger] toml_entries(r).contains_key(k)),
{
    toml::map::Map::new()
}

/// `toml::map::Map::get`: the value under a key.
#[verifier::external_body]
fn entry<'a>(t: &'a toml::map::Map<String, toml::Value>, key: &str) -> (r: Option<&'a toml::Value>)
    ensures
        match r {
            Some(v) => toml_entries(*t).contains_key(key@) && toml_entries(*t)[key@] == *v,
            None => !toml_entries(*t).contains_key(key@),
        },
{
    t.get(key)
}

/// `toml::map::Map::insert`: the table with a value under a key.
#[verifier::external_body]
fn put(t: &mut toml::map::Map<String, toml::Value>, key: &str, v: toml::Value)
    ensures
        toml_entries(*final(t)) == toml_entries(*old(t)).insert(key@, v),
{
    t.insert(key.to_string(), v);
}

/// `toml::map::Map::keys`: every key of a table, once.
#[verifier::external_body]
fn keys(t: &toml::map::Map<String, toml::Value>) -> (r: Vec<String>)
    ensures
        forall|k: Seq<char>| #[trigger] toml_entries(*t).contains_key(k) <==> lists(r@, k),
        crate::text::distinct(r@),
{
    t.keys().cloned().collect()
}

/// What is wrong with a section that has to use the official service.
#[derive(Debug, Clone, Copy, PartialEq, Eq, Structural)]
pub enum SectionFault {
    NotATable,
    /// A key stands in the file itself.
    InlineKey,
    NoBaseUrl,
    /// The endpoint is not the official one.
    ForeignUrl,
    NoOauth,
    /// The sign-in is not that of Kimi Code.
    OtherSlot,
}

/// Why there is no configuration for an account.
#[derive(Debug, PartialEq, Eq)]
pub enum RuntimeError {
    /// The file is no TOML; the text says why.
    Parse(String),
    RootNotTable,
    ProviderMissing,
    /// The section with this name is unfit.
    Section(String, SectionFault),
    /// The result could not be written down; the text says why.
    Print(String),
}

/// The message of an error.
pub open spec fn runtime_message(e: RuntimeError) -> Seq<char> {
    match e {
        RuntimeError::Parse(why) => "parse Kimi config: "@ + why@,
        RuntimeError::RootNotTable => "Kimi config root must be a TOML table"@,
        RuntimeError::ProviderMissing =>
            "Kimi managed OAuth provider is missing from config.toml"@,
        RuntimeError::Section(name, fault) => "Kimi "@ + name@ + (match fault {
            SectionFault::NotATable => " config must be a table"@,
            SectionFault::InlineKey => " config uses a non-OAuth inline credential"@,
            SectionFault::NoBaseUrl => " base_url is missing"@,
            SectionFault::ForeignUrl => " config uses a non-official endpoint"@,
            SectionFault::NoOauth => " OAuth reference is missing"@,
            SectionFault::OtherSlot => " config uses an unexpected OAuth credential slot"@,
        }),
        RuntimeError::Print(why) => why@,
    }
}

impl RuntimeError {
    /// The message of the error.
    pub fn message(&self) -> (r: String)
        ensures
            r@ == runtime_message(*self),
    {
        match self {
            RuntimeError::Parse(why) => concat2("parse Kimi config: ", why.as_str()),
            RuntimeError::RootNotTable => "Kimi config root must be a TOML table".to_string(),
            RuntimeError::ProviderMissing =>
                "Kimi managed OAuth provider is missing from config.toml".to_string(),
            RuntimeError::Section(name, fault) => concat3(
                "Kimi ",
                name.as_str(),
                match *fault {
                    SectionFault::NotATable => " config must be a table",
                    SectionFault::InlineKey => " config uses a non-OAuth inline credential",
                    SectionFault::NoBaseUrl => " base_url is missing",
                    SectionFault::ForeignUrl => " config uses a non-official endpoint",
                    SectionFault::NoOauth => " OAuth reference is missing",
                    SectionFault::OtherSlot => " config uses an unexpected OAuth credential slot",
                },
            ),
            RuntimeError::Print(why) => why.clone(),
        }
    }
}

/// Whether a URL is one of the official service: an origin of it, or a path under one.
pub open spec fn official(url: Seq<char>) -> bool {
    ||| url == "https://api.kimi.com"@
    ||| url == "https://auth.kimi.com"@
    ||| "https://api.kimi.com/"@.is_prefix_of(url)
    ||| "https://auth.kimi.com/"@.is_prefix_of(url)
}

/// Whether a URL is one of the official service.
pub fn official_kimi_url(url: &str) -> (r: bool)
    ensures
        r == official(url@),
{
    *url == *"https://api.kimi.com" || *url == *"https://auth.kimi.com" || starts_with(
        url,
        "https://api.kimi.com/",
    ) || starts_with(url, "https://auth.kimi.com/")
}

/// The text under a key, where the value there is a string.
pub open spec fn text_under(t: toml::map::Map<String, toml::Value>, key: Seq<char>) -> Option<
    Seq<char>,
> {
    if toml_entries(t).contains_key(key) {
        toml_text(toml_entries(t)[key])
    } else {
        None
    }
}

/// The table under a key, where the value there is a table.
pub open spec fn table_under(t: toml::map::Map<String, toml::Value>, key: Seq<char>) -> Option<
    toml::map::Map<String, toml::Value>,
> {
    if toml_entries(t).contains_key(key) {
        toml_table(toml_entries(t)[key])
    } else {
        None
    }
}

/// The text under a key, where the value there is a string.
fn text_at<'a>(t: &'a toml::map::Map<String, toml::Value>, key: &str) -> (r: Option<&'a str>)
    ensures
        match r {
            Some(s) => text_under(*t, key@) == Some(s@),
            None => text_under(*t, key@) is None,
        },
{
    match entry(t, key) {
        Some(v) => as_text(v),
        None => None,
    }
}

/// The table under a key, where the value there is a table.
fn table_at<'a>(t: &'a toml::map::Map<String, toml::Value>, key: &str) -> (r: Option<
    &'a toml::map::Map<String, toml::Value>,
>)
    ensures
        match r {
            Some(s) => table_under(*t, key@) == Some(*s),
            None => table_under(*t, key@) is None,
        },
{
    match entry(t, key) {
        Some(v) => as_table(v),
        None => None,
    }
}

/// What is wrong with a section that has to use the official service, if anything.
pub open spec fn section_fault(v: toml::Value) -> Option<SectionFault> {
    match toml_table(v) {
        None => Some(SectionFault::NotATable),
        Some(t) => if text_under(t, "api_key"@) matches Some(key) && key.len() > 0 {
            Some(SectionFault::InlineKey)
        } else {
            match text_under(t, "base_url"@) {
                None => Some(SectionFault::NoBaseUrl),
                Some(url) => if !official(url) {
                    Some(SectionFault::ForeignUrl)
                } else {
                    match table_under(t, "oauth"@) {
                        None => Some(SectionFault::NoOauth),
                        Some(oauth) => if text_under(oauth, "storage"@) == Some("file"@)
                            && text_under(oauth, "key"@) == Some("oauth/kimi-code"@) {
                            None
                        } else {
                            Some(SectionFault::OtherSlot)
                        },
                    }
                },
            }
        },
    }
}

/// Whether the text under a key is the given one.
fn text_is(t: &toml::map::Map<String, toml::Value>, key: &str, text: &str) -> (r: bool)
    ensures
        r == (text_under(*t, key@) == Some(text@)),
{
    match text_at(t, key) {
        Some(s) => *s == *text,
        None => false,
    }
}

/// Checks that a section uses the official service with the sign-in of Kimi Code.
pub fn validate_official_oauth_section(name: &str, value: &toml::Value) -> (r: Result<
    (),
    RuntimeError,
>)
    ensures
        match section_fault(*value) {
            Some(fault) => r matches Err(RuntimeError::Section(section, found)) && section@ == name@
                && found == fault,
            None => r is Ok,
        },
{
    let table: &toml::map::Map<String, toml::Value> = match as_table(value) {
        Some(table) => table,
        None => {
            return Err(RuntimeError::Section(name.to_string(), SectionFault::NotATable));
        },
    };
    match text_at(table, "api_key") {
        Some(key) => {
            if !key.is_empty() {
                return Err(RuntimeError::Section(name.to_string(), SectionFault::InlineKey));
            }
        },
        None => {},
    }
    match text_at(table, "base_url") {
        Some(url) => {
            if !official_kimi_url(url) {
                return Err(RuntimeError::Section(name.to_string(), SectionFault::ForeignUrl));
            }
        },
        None => {
            return Err(RuntimeError::Section(name.to_string(), SectionFault::NoBaseUrl));
        },
    }
    match table_at(table, "oauth") {
        Some(oauth) => if text_is(oauth, "storage", "file") && text_is(
            oauth,
            "key",
            "oauth/kimi-code",
        ) {
            Ok(())
        } else {
            Err(RuntimeError::Section(name.to_string(), SectionFault::OtherSlot))
        },
        None => Err(RuntimeError::Section(name.to_string(), SectionFault::NoOauth)),
    }
}

/// What keeps a configuration from being taken over.
pub enum RuntimeFault {
    RootNotTable,
    ProviderMissing,
    Section(Seq<char>, SectionFault),
}

/// The official provider of a configuration.
pub open spec fn managed_provider(root: toml::map::Map<String, toml::Value>) -> Option<
    toml::Value,
> {
    match table_under(root, "providers"@) {
        Some(providers) => if toml_entries(providers).contains_key("managed:kimi-code"@) {
            Some(toml_entries(providers)["managed:kimi-code"@])
        } else {
            None
        },
        None => None,
    }
}

/// What is wrong with a service of a configuration, where it has the service.
pub open spec fn service_fault(
    services: toml::map::Map<String, toml::Value>,
    name: Seq<char>,
) -> Option<SectionFault> {
    if toml_entries(services).contains_key(name) {
        section_fault(toml_entries(services)[name])
    } else {
        None
    }
}

/// What keeps a configuration from being taken over, if anything: the first of the root, the
/// provider, and the two services.
pub open spec fn runtime_fault(source: toml::Value) -> Option<RuntimeFault> {
    match toml_table(source) {
        None => Some(RuntimeFault::RootNotTable),
        Some(root) => match managed_provider(root) {
            None => Some(RuntimeFault::ProviderMissing),
            Some(provider) => match section_fault(provider) {
                Some(fault) => Some(RuntimeFault::Section("provider"@, fault)),
                None => match table_under(root, "services"@) {
                    None => None,
                    Some(services) => match service_fault(services, "moonshot_search"@) {
                        Some(fault) => Some(RuntimeFault::Section("moonshot_search"@, fault)),
                        None => match service_fault(services, "moonshot_fetch"@) {
                            Some(fault) => Some(RuntimeFault::Section("moonshot_fetch"@, fault)),
                            None => None,
                        },
                    },
                },
            },
        },
    }
}

/// Whether a model of a configuration belongs to the official provider.
pub open spec fn managed_model(models: toml::map::Map<String, toml::Value>, k: Seq<char>) -> bool {
    &&& toml_entries(models).contains_key(k)
    &&& toml_table(toml_entries(models)[k]) matches Some(model)
    &&& text_under(model, "provider"@) == Some("managed:kimi-code"@)
}

/// Whether a service of a configuration is taken over.
pub open spec fn kept_service(services: toml::map::Map<String, toml::Value>, k: Seq<char>) -> bool {
    toml_entries(services).contains_key(k) && (k == "moonshot_search"@ || k == "moonshot_fetch"@)
}

/// A table of a configuration that is taken over in part.
pub enum Section {
    Models,
    Services,
}

/// Whether the entry of a table with the key is taken over.
pub open spec fn kept_key(
    section: Section,
    whole: toml::map::Map<String, toml::Value>,
    k: Seq<char>,
) -> bool {
    match section {
        Section::Models => managed_model(whole, k),
        Section::Services => kept_service(whole, k),
    }
}

/// Whether `part` holds exactly the entries of `whole` that are taken over.
pub open spec fn selects(
    section: Section,
    part: toml::map::Map<String, toml::Value>,
    whole: toml::map::Map<String, toml::Value>,
) -> bool {
    &&& forall|k: Seq<char>| #[trigger]
        toml_entries(part).contains_key(k) <==> kept_key(section, whole, k)
    &&& forall|k: Seq<char>| #[trigger]
        toml_entries(part).contains_key(k) ==> toml_entries(part)[k] == toml_entries(whole)[k]
}

/// Whether an entry of a table is taken over.
pub open spec fn any_kept(section: Section, whole: toml::map::Map<String, toml::Value>) -> bool {
    exists|k: Seq<char>| #[trigger] kept_key(section, whole, k)
}

/// Whether the output has of a table exactly the entries that are taken over, and does not
/// have the table where there is none.
pub open spec fn kept_section(
    section: Section,
    out: toml::map::Map<String, toml::Value>,
    root: toml::map::Map<String, toml::Value>,
) -> bool {
    let name = match section {
        Section::Models => "models"@,
        Section::Services => "services"@,
    };
    match table_under(root, name) {
        Some(whole) => if any_kept(section, whole) {
            table_under(out, name) matches Some(part) && selects(section, part, whole)
        } else {
            !toml_entries(out).contains_key(name)
        },
        None => !toml_entries(out).contains_key(name),
    }
}

/// Whether the output has under a key what the configuration has there.
pub open spec fn kept_value(
    out: toml::map::Map<String, toml::Value>,
    root: toml::map::Map<String, toml::Value>,
    key: Seq<char>,
) -> bool {
    &&& toml_entries(out).contains_key(key) <==> toml_entries(root).contains_key(key)
    &&& toml_entries(out).contains_key(key) ==> toml_entries(out)[key] == toml_entries(root)[key]
}

/// Whether `out` is what is taken over of a configuration: the default model, the thinking
/// mode, the official provider, its models and its two services. There is nothing else in it.
pub open spec fn taken_over(
    out: toml::map::Map<String, toml::Value>,
    root: toml::map::Map<String, toml::Value>,
) -> bool {
    &&& forall|k: Seq<char>| #[trigger]
        toml_entries(out).contains_key(k) ==> k == "default_model"@ || k == "thinking"@ || k
            == "providers"@ || k == "models"@ || k == "services"@
    &&& kept_value(out, root, "default_model"@)
    &&& kept_value(out, root, "thinking"@)
    &&& table_under(out, "providers"@) matches Some(providers)
    &&& forall|k: Seq<char>| #[trigger]
        toml_entries(providers).contains_key(k) <==> k == "managed:kimi-code"@
    &&& managed_provider(root) == Some(toml_entries(providers)["managed:kimi-code"@])
    &&& kept_section(Section::Models, out, root)
    &&& kept_section(Section::Services, out, root)
}

/// Takes a value over where there is one.
fn take_value(
    out: &mut toml::map::Map<String, toml::Value>,
    root: &toml::map::Map<String, toml::Value>,
    key: &str,
)
    requires
        !toml_entries(*old(out)).contains_key(key@),
    ensures
        kept_value(*final(out), *root, key@),
        forall|k: Seq<char>|
            k != key@ ==> (#[trigger] toml_entries(*final(out)).contains_key(k) <==> toml_entries(
                *old(out),
            ).contains_key(k)),
        forall|k: Seq<char>|
            k != key@ && #[trigger] toml_entries(*final(out)).contains_key(k) ==> toml_entries(
                *final(out),
            )[k] == toml_entries(*old(out))[k],
{
    match entry(root, key) {
        Some(v) => {
            put(out, key, copy_value(v));
        },
        None => {},
    }
}

/// The models of the official provider, and whether there are any.
fn managed_models(models: &toml::map::Map<String, toml::Value>) -> (r: (
    toml::map::Map<String, toml::Value>,
    bool,
))
    ensures
        selects(Section::Models, r.0, *models),
        r.1 == any_kept(Section::Models, *models),
{
    let names: Vec<String> = keys(models);
    let mut part: toml::map::Map<String, toml::Value> = new_table();
    let mut any: bool = false;
    let mut i: usize = 0;
    while i < names.len()
        invariant
            i <= names@.len(),
            forall|k: Seq<char>| #[trigger]
                toml_entries(*models).contains_key(k) <==> lists(names@, k),
            forall|k: Seq<char>| #[trigger]
                toml_entries(part).contains_key(k) <==> managed_model(*models, k) && lists(
                    names@.take(i as int),
                    k,
                ),
            forall|k: Seq<char>| #[trigger]
                toml_entries(part).contains_key(k) ==> toml_entries(part)[k] == toml_entries(
                    *models,
                )[k],
            any ==> any_kept(Section::Models, *models),
            !any ==> forall|k: Seq<char>| !(#[trigger] toml_entries(part).contains_key(k)),
        decreases names@.len() - i,
    {
        let name: &str = names[i].as_str();
        proof {
            lemma_lists_step(names@, i as int);
            assert(lists(names@, name@)) by {
                assert(names@[i as int]@ == name@);
            }
        }
        match entry(models, name) {
            Some(v) => {
                let managed: bool = match as_table(v) {
                    Some(model) => text_is(model, "provider", "managed:kimi-code"),
                    None => false,
                };
                assert(managed == managed_model(*models, name@));
                if managed {
                    put(&mut part, name, copy_value(v));
                    assert(kept_key(Section::Models, *models, name@));
                    any = true;
                }
            },
            None => {},
        }
        i = i + 1;
    }
    assert(names@.take(i as int) == names@);
    assert(any == any_kept(Section::Models, *models)) by {
        if !any && any_kept(Section::Models, *models) {
            let k = choose|k: Seq<char>| #[trigger] kept_key(Section::Models, *models, k);
            assert(toml_entries(*models).contains_key(k));
            assert(toml_entries(part).contains_key(k));
        }
    }
    (part, any)
}

/// One more entry of a list.
proof fn lemma_lists_step(v: Seq<String>, i: int)
    requires
        0 <= i < v.len(),
    ensures
        forall|k: Seq<char>| #[trigger]
            lists(v.take(i + 1), k) <==> lists(v.take(i), k) || k == v[i]@,
{
    assert forall|k: Seq<char>| #[trigger] lists(v.take(i + 1), k) <==> lists(v.take(i), k) || k
        == v[i]@ by {
        let a = v.take(i);
        let b = v.take(i + 1);
        if lists(b, k) {
            let j = choose|j: int| 0 <= j < b.len() && (#[trigger] b[j])@ == k;
            if j < i {
                assert(a[j]@ == k);
            }
        }
        if lists(a, k) {
            let j = choose|j: int| 0 <= j < a.len() && (#[trigger] a[j])@ == k;
            assert(b[j]@ == k);
        }
        if k == v[i]@ {
            assert(b[i]@ == k);
        }
    }
}

/// The services that are taken over, and whether there are any.
fn kept_services(services: &toml::map::Map<String, toml::Value>) -> (r: Result<
    (toml::map::Map<String, toml::Value>, bool),
    RuntimeError,
>)
    ensures
        match service_fault(*services, "moonshot_search"@) {
            Some(fault) => r matches Err(RuntimeError::Section(name, found)) && name@
                == "moonshot_search"@ && found == fault,
            None => match service_fault(*services, "moonshot_fetch"@) {
                Some(fault) => r matches Err(RuntimeError::Section(name, found)) && name@
                    == "moonshot_fetch"@ && found == fault,
                None => r matches Ok((part, any)) && selects(Section::Services, part, *services)
                    && any == any_kept(Section::Services, *services),
            },
        },
{
    let mut part: toml::map::Map<String, toml::Value> = new_table();
    let mut any: bool = false;
    match entry(services, "moonshot_search") {
        Some(v) => {
            match validate_official_oauth_section("moonshot_search", v) {
                Ok(_) => {},
                Err(e) => {
                    return Err(e);
                },
            }
            put(&mut part, "moonshot_search", copy_value(v));
            any = true;
            assert(kept_key(Section::Services, *services, "moonshot_search"@));
        },
        None => {},
    }
    match entry(services, "moonshot_fetch") {
        Some(v) => {
            match validate_official_oauth_section("moonshot_fetch", v) {
                Ok(_) => {},
                Err(e) => {
                    return Err(e);
                },
            }
            put(&mut part, "moonshot_fetch", copy_value(v));
            any = true;
            assert(kept_key(Section::Services, *services, "moonshot_fetch"@));
        },
        None => {},
    }
    Ok((part, any))
}

/// The fixed keys of a configuration are different.
proof fn lemma_keys_differ()
    ensures
        "default_model"@ != "thinking"@,
        "default_model"@ != "providers"@,
        "default_model"@ != "models"@,
        "default_model"@ != "services"@,
        "thinking"@ != "providers"@,
        "thinking"@ != "models"@,
        "thinking"@ != "services"@,
        "providers"@ != "models"@,
        "providers"@ != "services"@,
        "models"@ != "services"@,
{
    reveal_strlit("default_model");
    reveal_strlit("thinking");
    reveal_strlit("providers");
    reveal_strlit("models");
    reveal_strlit("services");
    assert("default_model"@.len() == 13);
    assert("providers"@.len() == 9);
    assert("models"@.len() == 6);
    assert("thinking"@[0] == 't');
    assert("services"@[0] == 's');
}

/// What Kimi Code gets of the user's configuration.
pub fn filter_config(source: &toml::Value) -> (r: Result<
    toml::map::Map<String, toml::Value>,
    RuntimeError,
>)
    ensures
        match runtime_fault(*source) {
            Some(RuntimeFault::RootNotTable) => r matches Err(RuntimeError::RootNotTable),
            Some(RuntimeFault::ProviderMissing) => r matches Err(RuntimeError::ProviderMissing),
            Some(RuntimeFault::Section(name, fault)) => r matches Err(
                RuntimeError::Section(section, found),
            ) && section@ == name && found == fault,
            None => r matches Ok(out) && toml_table(*source) matches Some(root) && taken_over(
                out,
                root,
            ),
        },
{
    let root: &toml::map::Map<String, toml::Value> = match as_table(source) {
        Some(root) => root,
        None => {
            return Err(RuntimeError::RootNotTable);
        },
    };
    proof {
        lemma_keys_differ();
    }
    let mut out: toml::map::Map<String, toml::Value> = new_table();
    take_value(&mut out, root, "default_model");
    take_value(&mut out, root, "thinking");
    let provider: &toml::Value = match table_at(root, "providers") {
        Some(providers) => match entry(providers, "managed:kimi-code") {
            Some(provider) => provider,
            None => {
                return Err(RuntimeError::ProviderMissing);
            },
        },
        None => {
            return Err(RuntimeError::ProviderMissing);
        },
    };
    match validate_official_oauth_section("provider", provider) {
        Ok(_) => {},
        Err(e) => {
            return Err(e);
        },
    }
    let mut providers: toml::map::Map<String, toml::Value> = new_table();
    put(&mut providers, "managed:kimi-code", copy_value(provider));
    put(&mut out, "providers", table_value(providers));
    match table_at(root, "models") {
        Some(models) => {
            let (part, any): (toml::map::Map<String, toml::Value>, bool) = managed_models(models);
            if any {
                put(&mut out, "models", table_value(part));
            }
        },
        None => {},
    }
    match table_at(root, "services") {
        Some(services) => match kept_services(services) {
            Ok((part, any)) => {
                if any {
                    put(&mut out, "services", table_value(part));
                }
            },
            Err(e) => {
                return Err(e);
            },
        },
        None => {},
    }
    assert(kept_value(out, *root, "default_model"@));
    assert(kept_value(out, *root, "thinking"@));
    assert(table_under(out, "providers"@) == Some(providers));
    assert(forall|k: Seq<char>| #[trigger]
        toml_entries(providers).contains_key(k) <==> k == "managed:kimi-code"@);
    assert(managed_provider(*root) == Some(toml_entries(providers)["managed:kimi-code"@]));
    assert(kept_section(Section::Models, out, *root));
    assert(kept_section(Section::Services, out, *root));
    Ok(out)
}

/// The configuration that Kimi Code gets in the home of an account, from the text of the
/// user's configuration.
pub fn runtime_config(raw: &str) -> (r: Result<String, RuntimeError>)
    ensures
        match toml_parsed(raw@) {
            Err(why) => r matches Err(RuntimeError::Parse(words)) && words@ == why,
            Ok(source) => match runtime_fault(source) {
                Some(RuntimeFault::RootNotTable) => r matches Err(RuntimeError::RootNotTable),
                Some(RuntimeFault::ProviderMissing) => r matches Err(RuntimeError::ProviderMissing),
                Some(RuntimeFault::Section(name, fault)) => r matches Err(
                    RuntimeError::Section(section, found),
                ) && section@ == name && found == fault,
                None => exists|out: toml::Value|
                    prints_taken_over(#[trigger] toml_printed(out), out, source, r),
            },
        },
{
    let source: toml::Value = match parse_toml(raw) {
        Ok(source) => source,
        Err(why) => {
            return Err(RuntimeError::Parse(why));
        },
    };
    let table: toml::map::Map<String, toml::Value> = match filter_config(&source) {
        Ok(table) => table,
        Err(e) => {
            return Err(e);
        },
    };
    let out: toml::Value = table_value(table);
    let r: Result<String, RuntimeError> = match print_toml(&out) {
        Ok(text) => Ok(text),
        Err(why) => Err(RuntimeError::Print(why)),
    };
    assert(prints_taken_over(toml_printed(out), out, source, r));
    r
}

/// Whether `out` is what is taken over of `source`, and the result is its text, or the words
/// of the error that writing it down came to.
pub open spec fn prints_taken_over(
    printed: Result<Seq<char>, Seq<char>>,
    out: toml::Value,
    source: toml::Value,
    r: Result<String, RuntimeError>,
) -> bool {
    &&& toml_table(out) matches Some(table)
    &&& toml_table(source) matches Some(root)
    &&& taken_over(table, root)
    &&& match printed {
        Ok(text) => r matches Ok(s) && s@ == text,
        Err(why) => r matches Err(RuntimeError::Print(words)) && words@ == why,
    }
}

/// The only provider that is taken over is the official one. It and every service that is
/// taken over use the official service, with the sign-in of Kimi Code and without a key of
/// their own, and every model that is taken over belongs to it.
pub proof fn only_the_official_service_is_taken_over(
    source: toml::Value,
    root: toml::map::Map<String, toml::Value>,
    out: toml::map::Map<String, toml::Value>,
    name: Seq<char>,
)
    requires
        toml_table(source) == Some(root),
        runtime_fault(source) is None,
        taken_over(out, root),
    ensures
        table_under(out, "providers"@) matches Some(providers) && (toml_entries(
            providers,
        ).contains_key(name) ==> name == "managed:kimi-code"@ && section_fault(
            toml_entries(providers)[name],
        ) is None),
        table_under(out, "services"@) matches Some(services) ==> (toml_entries(
            services,
        ).contains_key(name) ==> section_fault(toml_entries(services)[name]) is None),
        table_under(out, "models"@) matches Some(models) ==> (toml_entries(models).contains_key(
            name,
        ) ==> managed_model(models, name)),
{
    if let Some(services) = table_under(out, "services"@) {
        if toml_entries(services).contains_key(name) {
            let whole = table_under(root, "services"@)->0;
            assert(kept_key(Section::Services, whole, name));
            assert(service_fault(whole, "moonshot_search"@) is None);
            assert(service_fault(whole, "moonshot_fetch"@) is None);
        }
    }
    if let Some(models) = table_under(out, "models"@) {
        if toml_entries(models).contains_key(name) {
            let whole = table_under(root, "models"@)->0;
            assert(kept_key(Section::Models, whole, name));
        }
    }
}

/// The text and the table under a key are those of the value that stands there, if any.
pub proof fn values_are_looked_up_by_key(t: toml::map::Map<String, toml::Value>, key: Seq<char>)
    ensures
        toml_entries(t).contains_key(key) ==> text_under(t, key) == toml_text(
            toml_entries(t)[key],
        ) && table_under(t, key) == toml_table(toml_entries(t)[key]),
        !toml_entries(t).contains_key(key) ==> text_under(t, key) is None && table_under(
            t,
            key,
        ) is None,
{
}

/// Of the services the two of Moonshot are taken over as they are, and no other. Each is there
/// exactly where the user has it; without either there is no table of services.
pub proof fn both_services_are_taken_over(
    root: toml::map::Map<String, toml::Value>,
    out: toml::map::Map<String, toml::Value>,
    whole: toml::map::Map<String, toml::Value>,
    name: Seq<char>,
)
    requires
        taken_over(out, root),
        table_under(root, "services"@) == Some(whole),
    ensures
        ({
            let wanted = name == "moonshot_search"@ || name == "moonshot_fetch"@;
            let kept = toml_entries(out).contains_key("services"@) && (toml_table(
                toml_entries(out)["services"@],
            ) matches Some(part) && toml_entries(part).contains_key(name));
            &&& kept <==> wanted && toml_entries(whole).contains_key(name)
            &&& kept ==> (toml_table(toml_entries(out)["services"@]) matches Some(part)
                && toml_entries(part)[name] == toml_entries(whole)[name])
            &&& !toml_entries(whole).contains_key("moonshot_search"@) && !toml_entries(
                whole,
            ).contains_key("moonshot_fetch"@) ==> !toml_entries(out).contains_key("services"@)
        }),
{
    assert(kept_section(Section::Services, out, root));
    if (name == "moonshot_search"@ || name == "moonshot_fetch"@) && toml_entries(
        whole,
    ).contains_key(name) {
        assert(kept_key(Section::Services, whole, name));
    }
    if any_kept(Section::Services, whole) {
        let part = table_under(out, "services"@)->0;
        assert(selects(Section::Services, part, whole));
        assert(toml_entries(part).contains_key(name) <==> kept_key(Section::Services, whole, name));
    }
    if !toml_entries(whole).contains_key("moonshot_search"@) && !toml_entries(whole).contains_key(
        "moonshot_fetch"@,
    ) {
        assert forall|k: Seq<char>| !#[trigger] kept_key(Section::Services, whole, k) by {}
    }
}

/// Of the models those of the official provider are taken over as they are, and no other;
/// without one there is no table of models.
pub proof fn models_of_the_provider_are_taken_over(
    root: toml::map::Map<String, toml::Value>,
    out: toml::map::Map<String, toml::Value>,
    whole: toml::map::Map<String, toml::Value>,
    name: Seq<char>,
)
    requires
        taken_over(out, root),
        table_under(root, "models"@) == Some(whole),
    ensures
        ({
            let official = toml_entries(whole).contains_key(name) && (toml_table(
                toml_entries(whole)[name],
            ) matches Some(model) && toml_entries(model).contains_key("provider"@) && toml_text(
                toml_entries(model)["provider"@],
            ) == Some("managed:kimi-code"@));
            let kept = toml_entries(out).contains_key("models"@) && (toml_table(
                toml_entries(out)["models"@],
            ) matches Some(part) && toml_entries(part).contains_key(name));
            &&& kept <==> official
            &&& kept ==> (toml_table(toml_entries(out)["models"@]) matches Some(part)
                && toml_entries(part)[name] == toml_entries(whole)[name])
        }),
{
    assert(kept_section(Section::Models, out, root));
    let official = toml_entries(whole).contains_key(name) && (toml_table(toml_entries(whole)[name])
        matches Some(model) && toml_entries(model).contains_key("provider"@) && toml_text(
        toml_entries(model)["provider"@],
    ) == Some("managed:kimi-code"@));
    assert(official == managed_model(whole, name));
    if official {
        assert(kept_key(Section::Models, whole, name));
    }
    if any_kept(Section::Models, whole) {
        let part = table_under(out, "models"@)->0;
        assert(selects(Section::Models, part, whole));
        assert(toml_entries(part).contains_key(name) <==> kept_key(Section::Models, whole, name));
    }
}

/// What is taken over has the default model and the thinking mode where the user has them, with
/// the same values, and one provider, which is the user's official one. Tables of services or
/// models are there only where the user has such tables, and nothing else is there.
pub proof fn rest_of_what_is_taken_over(
    root: toml::map::Map<String, toml::Value>,
    out: toml::map::Map<String, toml::Value>,
    key: Seq<char>,
)
    requires
        taken_over(out, root),
    ensures
        key == "default_model"@ || key == "thinking"@ ==> (toml_entries(out).contains_key(key)
            <==> toml_entries(root).contains_key(key)),
        (key == "default_model"@ || key == "thinking"@) && toml_entries(root).contains_key(key)
            ==> toml_entries(out)[key] == toml_entries(root)[key],
        toml_entries(out).contains_key(key) ==> key == "default_model"@ || key == "thinking"@ || key
            == "providers"@ || key == "models"@ || key == "services"@,
        key == "models"@ || key == "services"@ ==> (toml_entries(out).contains_key(key) ==> table_under(
            root,
            key,
        ) is Some),
        toml_entries(out).contains_key("providers"@) && (toml_table(toml_entries(out)["providers"@])
            matches Some(providers) && (toml_entries(providers).contains_key(key) <==> key
            == "managed:kimi-code"@) && managed_provider(root) == Some(
            toml_entries(providers)["managed:kimi-code"@],
        )),
{
    assert(kept_section(Section::Models, out, root));
    assert(kept_section(Section::Services, out, root));
    assert(kept_value(out, root, "default_model"@));
    assert(kept_value(out, root, "thinking"@));
}

/// The official provider is the one that stands under its name among the providers.
pub proof fn provider_is_found_by_its_name(root: toml::map::Map<String, toml::Value>)
    ensures
        managed_provider(root) matches Some(v) ==> (table_under(root, "providers"@) matches Some(p)
            && toml_entries(p).contains_key("managed:kimi-code"@) && toml_entries(
            p,
        )["managed:kimi-code"@] == v),
        managed_provider(root) is None ==> (table_under(root, "providers"@) matches Some(p)
            ==> !toml_entries(p).contains_key("managed:kimi-code"@)),
{
}

/// A URL is official where it begins with one of the two origins and goes on, if at all, with a
/// path: no other host can be made to look like one of them.
pub proof fn official_urls_begin_with_the_origin(url: Seq<char>)
    ensures
        official(url) <==> ("https://api.kimi.com"@.is_prefix_of(url) && (url.len() == 20 || url[20]
            == '/')) || ("https://auth.kimi.com"@.is_prefix_of(url) && (url.len() == 21 || url[21]
            == '/')),
{
    reveal_strlit("https://api.kimi.com");
    reveal_strlit("https://auth.kimi.com");
    reveal_strlit("https://api.kimi.com/");
    reveal_strlit("https://auth.kimi.com/");
    let (a, b) = ("https://api.kimi.com"@, "https://auth.kimi.com"@);
    assert("https://api.kimi.com/"@ =~= a.push('/'));
    assert("https://auth.kimi.com/"@ =~= b.push('/'));
    lemma_origin(a, url);
    lemma_origin(b, url);
}

proof fn lemma_origin(origin: Seq<char>, url: Seq<char>)
    ensures
        origin.push('/').is_prefix_of(url) <==> origin.is_prefix_of(url) && url.len()
            > origin.len() && url[origin.len() as int] == '/',
        url == origin <==> origin.is_prefix_of(url) && url.len() == origin.len(),
{
    let n = origin.len() as int;
    if origin.push('/').is_prefix_of(url) {
        let t = url.subrange(0, n + 1);
        assert(origin.push('/') == t);
        assert(t[n] == '/');
        assert(origin =~= url.subrange(0, n)) by {
            assert forall|i: int| 0 <= i < n implies origin[i] == url[i] by {
                assert(origin.push('/')[i] == t[i]);
            }
        }
    }
    if origin.is_prefix_of(url) {
        assert(origin == url.subrange(0, n));
        if url.len() > n && url[n] == '/' {
            assert forall|i: int| 0 <= i < n implies origin[i] == url[i] by {
                assert(origin[i] == url.subrange(0, n)[i]);
            }
            assert(origin.push('/') =~= url.subrange(0, n + 1));
        }
        if url.len() == n {
            assert(url.subrange(0, n) =~= url);
        }
    }
    if url == origin {
        assert(origin =~= url.subrange(0, n));
    }
}

/// A section is fit exactly where it is a table without a key in the file, with an official URL,
/// and with the sign-in of Kimi Code, kept in its file.
pub proof fn fit_sections_use_the_official_service(v: toml::Value)
    ensures
        section_fault(v) is None <==> (toml_table(v) matches Some(t) && {
            &&& text_under(t, "api_key"@) matches Some(key) ==> key.len() == 0
            &&& text_under(t, "base_url"@) matches Some(url)
            &&& official(url)
            &&& table_under(t, "oauth"@) matches Some(oauth)
            &&& text_under(oauth, "storage"@) == Some("file"@)
            &&& text_under(oauth, "key"@) == Some("oauth/kimi-code"@)
        }),
        section_fault(v) == Some(SectionFault::NotATable) <==> toml_table(v) is None,
        section_fault(v) == Some(SectionFault::InlineKey) <==> (toml_table(v) matches Some(t)
            && text_under(t, "api_key"@) matches Some(key) && key.len() > 0),
        section_fault(v) == Some(SectionFault::ForeignUrl) ==> (toml_table(v) matches Some(t)
            && text_under(t, "base_url"@) matches Some(url) && !official(url)),
        section_fault(v) == Some(SectionFault::NoBaseUrl) ==> (toml_table(v) matches Some(t)
            && text_under(t, "base_url"@) is None),
        section_fault(v) == Some(SectionFault::NoOauth) ==> (toml_table(v) matches Some(t)
            && table_under(t, "oauth"@) is None),
{
}

/// A configuration is taken over exactly where it is a table with a fit official provider, and
/// each of the two services that it has is fit.
pub proof fn fit_configurations_are_taken_over(source: toml::Value)
    ensures
        runtime_fault(source) is None <==> (toml_table(source) matches Some(root) && {
            &&& managed_provider(root) matches Some(provider)
            &&& section_fault(provider) is None
            &&& table_under(root, "services"@) matches Some(services) ==> {
                &&& toml_entries(services).contains_key("moonshot_search"@) ==> section_fault(
                    toml_entries(services)["moonshot_search"@],
                ) is None
                &&& toml_entries(services).contains_key("moonshot_fetch"@) ==> section_fault(
                    toml_entries(services)["moonshot_fetch"@],
                ) is None
            }
        }),
        runtime_fault(source) matches Some(RuntimeFault::RootNotTable) <==> toml_table(
            source,
        ) is None,
        runtime_fault(source) matches Some(RuntimeFault::ProviderMissing) ==> (toml_table(source)
            matches Some(root) && managed_provider(root) is None),
{
}

/// A message names the section and the fault that was found in it.
pub proof fn messages_name_the_section(name: String, fault: SectionFault, why: String)
    ensures
        ("Kimi "@ + name@).is_prefix_of(runtime_message(RuntimeError::Section(name, fault))),
        ({
            let said = runtime_message(RuntimeError::Section(name, fault)).skip(
                ("Kimi "@ + name@).len() as int,
            );
            &&& fault is NotATable ==> said == " config must be a table"@
            &&& fault is InlineKey ==> said == " config uses a non-OAuth inline credential"@
            &&& fault is NoBaseUrl ==> said == " base_url is missing"@
            &&& fault is ForeignUrl ==> said == " config uses a non-official endpoint"@
            &&& fault is NoOauth ==> said == " OAuth reference is missing"@
            &&& fault is OtherSlot ==> said == " config uses an unexpected OAuth credential slot"@
        }),
        runtime_message(RuntimeError::Parse(why)) == "parse Kimi config: "@ + why@,
        runtime_message(RuntimeError::Print(why)) == why@,
        runtime_message(RuntimeError::RootNotTable) == "Kimi config root must be a TOML table"@,
        runtime_message(RuntimeError::ProviderMissing)
            == "Kimi managed OAuth provider is missing from config.toml"@,
{
    let head = "Kimi "@ + name@;
    let tail = match fault {
        SectionFault::NotATable => " config must be a table"@,
        SectionFault::InlineKey => " config uses a non-OAuth inline credential"@,
        SectionFault::NoBaseUrl => " base_url is missing"@,
        SectionFault::ForeignUrl => " config uses a non-official endpoint"@,
        SectionFault::NoOauth => " OAuth reference is missing"@,
        SectionFault::OtherSlot => " config uses an unexpected OAuth credential slot"@,
    };
    let s = head + tail;
    assert(head =~= s.subrange(0, head.len() as int));
    assert(s.skip(head.len() as int) =~= tail);
}

/// A run-time configuration is the printed text of what is taken over, and its error that of the
/// printing.
pub proof fn printed_configuration_is_taken_over(
    printed: Result<Seq<char>, Seq<char>>,
    out: toml::Value,
    source: toml::Value,
    r: Result<String, RuntimeError>,
)
    requires
        prints_taken_over(printed, out, source, r),
    ensures
        r is Ok <==> printed is Ok,
        r matches Ok(s) ==> printed == Ok::<Seq<char>, Seq<char>>(s@),
        r is Err ==> r->Err_0 is Print && printed == Err::<Seq<char>, Seq<char>>(
            (r->Err_0->Print_0)@,
        ),
        toml_table(out) is Some && toml_table(source) is Some && taken_over(
            toml_table(out)->0,
            toml_table(source)->0,
        ),
{
}

} // verus!

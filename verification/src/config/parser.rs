//! The YAML configuration of the exporter: the document's structure as far
//! as it is read, and the command-line option that names the file.
use vstd::prelude::*;
use crate::string_map::{StringMap, pairs_map};
use crate::text::{
    decimal, lemma_decimal_digits, lemma_parse_decimal, is_digit,
    views, str_eq, chars_of, string_from_range, parse_u64, parse_u64_spec, split_once, split_once_spec,
};

verus! {

/// A YAML value, as far as the configuration reads it.
pub enum YamlValue {
    /// A string scalar.
    Str(String),
    /// A mapping, with its entries in document order.
    Mapping(Vec<(YamlValue, YamlValue)>),
    /// A value with a tag such as `!secret`.
    Tagged(Box<YamlValue>),
    /// Any other value: null, a boolean, a number or a sequence.
    Other,
}

#[verifier::external_type_specification]
#[verifier::external_body]
pub struct ExYamlDocument(serde_yaml::Value);

/// What `serde_yaml::from_str` reads from the text `text` as a
/// `serde_yaml::Value`, taken as far as the configuration reads it, or the
/// text of the error it reports.
pub uninterp spec fn yaml_read(text: Seq<char>) -> Result<YamlValue, Seq<char>>;

/// The structure of a parsed YAML value, variant by variant.
#[verifier::external_body]
fn yaml_value_of(v: &serde_yaml::Value) -> YamlValue {
    match v {
        serde_yaml::Value::String(s) => YamlValue::Str(s.clone()),
        serde_yaml::Value::Mapping(m) => YamlValue::Mapping(
            m.iter().map(|(k, x)| (yaml_value_of(k), yaml_value_of(x))).collect(),
        ),
        serde_yaml::Value::Tagged(t) => YamlValue::Tagged(Box::new(yaml_value_of(&t.value))),
        _ => YamlValue::Other,
    }
}

/// Reads YAML text with `serde_yaml::from_str` into a `serde_yaml::Value`
/// and gives its structure, or the error's text.
///
/// The contract claims that the outcome is a function of the text.
#[verifier::external_body]
fn read_yaml(text: &str) -> (r: Result<YamlValue, String>)
    ensures
        match r {
            Ok(y) => yaml_read(text@) == Ok::<YamlValue, Seq<char>>(y),
            Err(e) => yaml_read(text@) == Err::<YamlValue, Seq<char>>(e@),
        },
{
    match serde_yaml::from_str::<serde_yaml::Value>(text) {
        Ok(v) => Ok(yaml_value_of(&v)),
        Err(e) => Err(e.to_string()),
    }
}

/// `v` without its tags.
pub open spec fn untag(v: YamlValue) -> YamlValue
    decreases v,
{
    match v {
        YamlValue::Tagged(inner) => untag(*inner),
        _ => v,
    }
}

/// The text of `v` if it is a string, tags aside.
pub open spec fn yaml_as_str(v: YamlValue) -> Option<Seq<char>> {
    match untag(v) {
        YamlValue::Str(s) => Some(s@),
        _ => None,
    }
}

/// The value of the first entry of `entries` whose key is the string `key`.
pub open spec fn lookup(entries: Seq<(YamlValue, YamlValue)>, key: Seq<char>) -> Option<YamlValue>
    decreases entries.len(),
{
    if entries.len() == 0 {
        None
    } else {
        match entries[0].0 {
            YamlValue::Str(k) if k@ == key => Some(entries[0].1),
            _ => lookup(entries.drop_first(), key),
        }
    }
}

/// The value under the string key `key` if `v` is a mapping, tags aside.
pub open spec fn yaml_get(v: YamlValue, key: Seq<char>) -> Option<YamlValue> {
    match untag(v) {
        YamlValue::Mapping(m) => lookup(m@, key),
        _ => None,
    }
}

/// The entries of `v` if it is a mapping, tags aside.
pub open spec fn yaml_entries(v: YamlValue) -> Option<Seq<(YamlValue, YamlValue)>> {
    match untag(v) {
        YamlValue::Mapping(m) => Some(m@),
        _ => None,
    }
}

fn untag_ref(v: &YamlValue) -> (r: &YamlValue)
    ensures
        *r == untag(*v),
    decreases v,
{
    match v {
        YamlValue::Tagged(inner) => untag_ref(&**inner),
        _ => v,
    }
}

/// The value under the string key `key` of the mapping `v`, tags aside.
pub fn get<'a>(v: &'a YamlValue, key: &str) -> (r: Option<&'a YamlValue>)
    ensures
        match r {
            Some(x) => yaml_get(*v, key@) == Some(*x),
            None => yaml_get(*v, key@) is None,
        },
{
    let u = untag_ref(v);
    match u {
        YamlValue::Mapping(m) => {
            let mut i: usize = 0;
            assert(m@.skip(0) =~= m@);
            assert(yaml_get(*v, key@) == lookup(m@, key@));
            while i < m.len()
                invariant
                    i <= m@.len(),
                    yaml_get(*v, key@) == lookup(m@, key@),
                    lookup(m@, key@) == lookup(m@.skip(i as int), key@),
                decreases m@.len() - i,
            {
                assert(m@.skip(i as int).drop_first() =~= m@.skip(i + 1));
                assert(m@.skip(i as int)[0] == m@[i as int]);
                match &m[i].0 {
                    YamlValue::Str(k) => {
                        if str_eq(k.as_str(), key) {
                            return Some(&m[i].1);
                        }
                    },
                    _ => {},
                }
                i = i + 1;
            }
            None
        },
        _ => None,
    }
}

/// The text of `v` if it is a string, tags aside.
pub fn as_str(v: &YamlValue) -> (r: Option<&String>)
    ensures
        match r {
            Some(s) => yaml_as_str(*v) == Some(s@),
            None => yaml_as_str(*v) is None,
        },
{
    match untag_ref(v) {
        YamlValue::Str(s) => Some(s),
        _ => None,
    }
}

/// `s` without the trailing occurrences of `c`.
pub open spec fn trim_end_char(s: Seq<char>, c: char) -> Seq<char>
    decreases s.len(),
{
    if s.len() > 0 && s.last() == c {
        trim_end_char(s.drop_last(), c)
    } else {
        s
    }
}

/// A duration in seconds written as a number followed by `s`: the number
/// is what remains after every trailing `s` is taken off.
pub open spec fn parse_seconds_spec(s: Seq<char>) -> Option<u64> {
    if s.len() > 0 && s.last() == 's' {
        parse_u64_spec(trim_end_char(s, 's'))
    } else {
        None
    }
}

/// A duration written as a number of seconds followed by `s` reads back as
/// that number.
pub proof fn lemma_parse_seconds_decimal(n: u64)
    ensures
        parse_seconds_spec(decimal(n as nat) + "s"@) == Some(n),
{
    reveal_strlit("s");
    lemma_decimal_digits(n as nat);
    lemma_parse_decimal(n);
    let d = decimal(n as nat);
    let t = d + "s"@;
    assert(t.last() == 's');
    assert(t.drop_last() =~= d);
    assert(is_digit(d.last()));
    assert(trim_end_char(d, 's') == d);
}

/// The scrape timeout of the configuration document, or why there is none.
pub open spec fn scrape_timeout_spec(yaml: YamlValue) -> Result<u64, Seq<char>> {
    match yaml_get(yaml, "scrape_configs"@) {
        None => Err("scrape_configs section is required"@),
        Some(section) => match yaml_get(section, "scrape_timeout"@) {
            None => Err("scrape_timeout is required in scrape_configs"@),
            Some(t) => match yaml_as_str(t) {
                None => Err("scrape_timeout must be a string"@),
                Some(text) => match parse_seconds_spec(text) {
                    None => Err("Invalid scrape_timeout value: "@ + text),
                    Some(n) => Ok(n),
                },
            },
        },
    }
}

/// The user entries of the configuration document, if it has a
/// `basic_auth_users` mapping.
pub open spec fn user_entries(yaml: YamlValue) -> Seq<(YamlValue, YamlValue)> {
    match yaml_get(yaml, "basic_auth_users"@) {
        Some(users) => match yaml_entries(users) {
            Some(es) => es,
            None => seq![],
        },
        None => seq![],
    }
}

/// Whether every user entry has a string key and a string value.
pub open spec fn users_are_strings(yaml: YamlValue) -> bool {
    forall|i: int|
        0 <= i < user_entries(yaml).len() ==> (#[trigger] yaml_as_str(user_entries(yaml)[i].0)) is Some
            && yaml_as_str(user_entries(yaml)[i].1) is Some
}

/// The users of the configuration document: user name to password hash.
pub open spec fn users_spec(yaml: YamlValue) -> Map<Seq<char>, Seq<char>> {
    pairs_map(
        user_entries(yaml).map_values(
            |e: (YamlValue, YamlValue)| (yaml_as_str(e.0).unwrap(), yaml_as_str(e.1).unwrap()),
        ),
    )
}

/// What the configuration document gives: the scrape timeout and the
/// users, or the reason it gives nothing.
pub open spec fn parse_outcome(yaml: YamlValue) -> Result<(u64, Map<Seq<char>, Seq<char>>), Seq<char>> {
    match scrape_timeout_spec(yaml) {
        Ok(t) => Ok((t, users_spec(yaml))),
        Err(e) => Err(e),
    }
}

/// The scrape timeout and users of a loaded configuration, or the reason
/// it failed to load.
pub open spec fn config_outcome(r: Result<PduExporterConfig, String>) -> Result<
    (u64, Map<Seq<char>, Seq<char>>),
    Seq<char>,
> {
    match r {
        Ok(c) => Ok((c.scrape_configs.scrape_timeout, c.basic_auth_users.credentials@)),
        Err(e) => Err(e@),
    }
}

/// Whether the YAML text `text` can be read without a user or hash that is
/// not a string being asked for: it is no YAML, its scrape settings are not
/// readable, or all its users are strings.
pub open spec fn yaml_text_readable(text: Seq<char>) -> bool {
    match yaml_read(text) {
        Ok(y) => scrape_timeout_spec(y) is Ok ==> users_are_strings(y),
        Err(_) => true,
    }
}

/// What the YAML text `text` gives: the scrape timeout and the users, or
/// the reason it gives nothing.
pub open spec fn text_outcome(text: Seq<char>) -> Result<(u64, Map<Seq<char>, Seq<char>>), Seq<char>> {
    match yaml_read(text) {
        Ok(y) => parse_outcome(y),
        Err(e) => Err(e),
    }
}

/// How units are scraped.
pub struct ScrapeConfigs {
    pub scrape_timeout: u64,
}

impl ScrapeConfigs {
    /// Settings with no timeout.
    pub fn new() -> (c: ScrapeConfigs)
        ensures
            c.scrape_timeout == 0,
    {
        ScrapeConfigs { scrape_timeout: 0 }
    }
}

/// The users allowed in with basic authentication.
pub struct BasicAuthUsers {
    /// Bcrypt password hashes by user name.
    pub credentials: StringMap,
}

impl BasicAuthUsers {
    /// No users.
    pub fn new() -> (u: BasicAuthUsers)
        ensures
            u.credentials@ == Map::<Seq<char>, Seq<char>>::empty(),
    {
        BasicAuthUsers { credentials: StringMap::new() }
    }
}

/// The exporter's configuration as the YAML file gives it.
pub struct PduExporterConfig {
    pub scrape_configs: ScrapeConfigs,
    pub basic_auth_users: BasicAuthUsers,
}

impl PduExporterConfig {
    /// A duration in seconds written as a number followed by `s`.
    pub fn parse_seconds(s: &str) -> (r: Option<u64>)
        ensures
            r == parse_seconds_spec(s@),
    {
        let cs = chars_of(s);
        let n = cs.len();
        if n == 0 || cs[n - 1] != 's' {
            return None;
        }
        let mut end: usize = n;
        assert(cs@.subrange(0, n as int) =~= cs@);
        while end > 0 && cs[end - 1] == 's'
            invariant
                end <= n,
                n == cs@.len(),
                trim_end_char(cs@, 's') == trim_end_char(cs@.subrange(0, end as int), 's'),
            decreases end,
        {
            assert(cs@.subrange(0, end as int).drop_last() =~= cs@.subrange(0, end - 1));
            end = end - 1;
        }
        let number = string_from_range(&cs, 0, end);
        parse_u64(number.as_str())
    }

    /// The scrape timeout of a YAML document, or why it has none.
    pub fn scrape_timeout(yaml: &YamlValue) -> (r: Result<u64, String>)
        ensures
            match r {
                Ok(n) => scrape_timeout_spec(*yaml) == Ok::<u64, Seq<char>>(n),
                Err(e) => scrape_timeout_spec(*yaml) == Err::<u64, Seq<char>>(e@),
            },
    {
        match get(yaml, "scrape_configs") {
            None => Err(String::from_str("scrape_configs section is required")),
            Some(section) => match get(section, "scrape_timeout") {
                None => Err(String::from_str("scrape_timeout is required in scrape_configs")),
                Some(t) => match as_str(t) {
                    None => Err(String::from_str("scrape_timeout must be a string")),
                    Some(text) => match Self::parse_seconds(text.as_str()) {
                        None => {
                            let mut e = String::from_str("Invalid scrape_timeout value: ");
                            e.append(text.as_str());
                            Err(e)
                        },
                        Some(n) => Ok(n),
                    },
                },
            },
        }
    }

    /// Whether every user entry of a YAML document has a string key and a
    /// string value.
    pub fn users_are_text(yaml: &YamlValue) -> (r: bool)
        ensures
            r == users_are_strings(*yaml),
    {
        match get(yaml, "basic_auth_users") {
            Some(users) => match untag_ref(users) {
                YamlValue::Mapping(entries) => {
                    let ghost es = entries@;
                    assert(user_entries(*yaml) == es);
                    let mut i: usize = 0;
                    while i < entries.len()
                        invariant
                            i <= es.len(),
                            es == entries@,
                            es == user_entries(*yaml),
                            forall|k: int|
                                0 <= k < i ==> (#[trigger] yaml_as_str(es[k].0)) is Some && yaml_as_str(
                                    es[k].1,
                                ) is Some,
                        decreases es.len() - i,
                    {
                        let key = as_str(&entries[i].0);
                        let value = as_str(&entries[i].1);
                        if key.is_none() || value.is_none() {
                            return false;
                        }
                        i = i + 1;
                    }
                    true
                },
                _ => {
                    assert(user_entries(*yaml) =~= Seq::<(YamlValue, YamlValue)>::empty());
                    true
                },
            },
            None => {
                assert(user_entries(*yaml) =~= Seq::<(YamlValue, YamlValue)>::empty());
                true
            },
        }
    }

    /// The configuration that a YAML document gives, or why it gives none.
    pub fn parse_document(yaml: &YamlValue) -> (r: Result<PduExporterConfig, String>)
        requires
            scrape_timeout_spec(*yaml) is Ok ==> users_are_strings(*yaml),
        ensures
            config_outcome(r) == parse_outcome(*yaml),
    {
        let mut config = PduExporterConfig {
            scrape_configs: ScrapeConfigs::new(),
            basic_auth_users: BasicAuthUsers::new(),
        };
        match Self::scrape_timeout(yaml) {
            Err(e) => {
                return Err(e);
            },
            Ok(n) => {
                config.scrape_configs.scrape_timeout = n;
            },
        }
        let mut credentials = StringMap::new();
        match get(yaml, "basic_auth_users") {
            Some(users) => match untag_ref(users) {
                YamlValue::Mapping(entries) => {
                    let ghost es = entries@;
                    let ghost pairs = es.map_values(
                        |e: (YamlValue, YamlValue)| (yaml_as_str(e.0).unwrap(), yaml_as_str(e.1).unwrap()),
                    );
                    assert(user_entries(*yaml) == es);
                    let mut i: usize = 0;
                    while i < entries.len()
                        invariant
                            i <= es.len(),
                            es == entries@,
                            es == user_entries(*yaml),
                            users_are_strings(*yaml),
                            pairs == es.map_values(
                                |e: (YamlValue, YamlValue)|
                                    (yaml_as_str(e.0).unwrap(), yaml_as_str(e.1).unwrap()),
                            ),
                            credentials@ == pairs_map(pairs.take(i as int)),
                        decreases es.len() - i,
                    {
                        assert(yaml_as_str(es[i as int].0) is Some);
                        let key = as_str(&entries[i].0);
                        let value = as_str(&entries[i].1);
                        match (key, value) {
                            (Some(k), Some(v)) => {
                                credentials.insert(k.clone(), v.clone());
                            },
                            _ => {},
                        }
                        assert(pairs.take(i + 1).drop_last() =~= pairs.take(i as int));
                        i = i + 1;
                    }
                    assert(pairs.take(i as int) =~= pairs);
                },
                _ => {},
            },
            None => {},
        }
        if !credentials.is_empty() {
            config.basic_auth_users = BasicAuthUsers { credentials };
        }
        Ok(config)
    }
}


/// The `key=value` options among the arguments after the program name, in
/// order.
pub open spec fn option_pairs(args: Seq<Seq<char>>) -> Seq<(Seq<char>, Seq<char>)>
    decreases args.len(),
{
    if args.len() <= 1 {
        seq![]
    } else {
        let prev = option_pairs(args.drop_last());
        match split_once_spec(args.last(), '=') {
            Some(p) => prev.push(p),
            None => prev,
        }
    }
}

/// The options of a command line: each `key=value` argument after the
/// program name, a later one replacing an earlier one with the same key.
pub fn parse_args(args: &Vec<String>) -> (options: StringMap)
    ensures
        options@ == pairs_map(option_pairs(views(args@))),
{
    let ghost a = views(args@);
    let mut options = StringMap::new();
    if args.len() == 0 {
        return options;
    }
    let mut i: usize = 1;
    assert(a.take(1) =~= seq![a[0]]);
    while i < args.len()
        invariant
            1 <= i <= args@.len(),
            a == views(args@),
            options@ == pairs_map(option_pairs(a.take(i as int))),
        decreases args@.len() - i,
    {
        assert(a.take(i + 1).drop_last() =~= a.take(i as int));
        assert(a[i as int] == args@[i as int]@);
        match split_once(args[i].as_str(), '=') {
            Some(p) => {
                let ghost pv = (p.0@, p.1@);
                assert(option_pairs(a.take(i + 1)) == option_pairs(a.take(i as int)).push(pv));
                assert(option_pairs(a.take(i + 1)).drop_last() =~= option_pairs(a.take(i as int)));
                options.insert(p.0, p.1);
            },
            None => {},
        }
        i = i + 1;
    }
    assert(a.take(i as int) =~= a);
    options
}

/// The configuration file named on a command line, if it names one.
pub open spec fn config_file_spec(args: Seq<Seq<char>>) -> Option<Seq<char>> {
    let options = pairs_map(option_pairs(args));
    if options.dom().contains("--config.file"@) {
        Some(options["--config.file"@])
    } else {
        None
    }
}

impl PduExporterConfig {
    /// The configuration that YAML text gives, or why it gives none: the
    /// reader's error, or the document's.
    pub fn parse_yaml(yaml_content: &str) -> (r: Result<PduExporterConfig, String>)
        requires
            yaml_text_readable(yaml_content@),
        ensures
            config_outcome(r) == text_outcome(yaml_content@),
    {
        match read_yaml(yaml_content) {
            Ok(yaml) => Self::parse_document(&yaml),
            Err(e) => Err(e),
        }
    }

    /// The configuration that YAML text gives, or why it gives none; `None`
    /// for a document whose scrape settings are readable but which lists a
    /// user or hash that is not a string.
    pub fn parse_yaml_checked(yaml_content: &str) -> (r: Option<Result<PduExporterConfig, String>>)
        ensures
            r is None <==> !yaml_text_readable(yaml_content@),
            match r {
                Some(x) => config_outcome(x) == text_outcome(yaml_content@),
                None => true,
            },
    {
        let readable = match read_yaml(yaml_content) {
            Ok(yaml) => Self::scrape_timeout(&yaml).is_err() || Self::users_are_text(&yaml),
            Err(_) => true,
        };
        if readable {
            Some(Self::parse_yaml(yaml_content))
        } else {
            None
        }
    }
}

/// Loads the configuration named by the `--config.file=` option of a
/// command line; `read_file` reads the text of the file at a path.
pub fn load_config<F: Fn(&str) -> Result<String, String>>(args: &Vec<String>, read_file: F) -> (r: Result<
    PduExporterConfig,
    String,
>)
    requires
        forall|p: &str| #[trigger] read_file.requires((p,)),
        forall|p: &str, t: String|
            #[trigger] read_file.ensures((p,), Ok::<String, String>(t)) ==> yaml_text_readable(t@),
    ensures
        config_file_spec(views(args@)) is None ==> config_outcome(r) == Err::<
            (u64, Map<Seq<char>, Seq<char>>),
            Seq<char>,
        >("Missing required argument: --config.file"@),
        config_file_spec(views(args@)) is Some ==> exists|p: &str, d: Result<String, String>|
            p@ == config_file_spec(views(args@))->Some_0 && #[trigger] read_file.ensures((p,), d) && match d {
                Ok(t) => config_outcome(r) == text_outcome(t@),
                Err(e) => config_outcome(r) == Err::<(u64, Map<Seq<char>, Seq<char>>), Seq<char>>(e@),
            },
{
    let options = parse_args(args);
    match options.get("--config.file") {
        None => Err(String::from_str("Missing required argument: --config.file")),
        Some(path) => {
            let p = path.as_str();
            let d = read_file(p);
            match d {
                Ok(t) => PduExporterConfig::parse_yaml(t.as_str()),
                Err(e) => Err(e),
            }
        },
    }
}

} // verus!

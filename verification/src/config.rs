use vstd::prelude::*;

use crate::text::{
    ascii_lower, char_to_ascii_lower, chars_of, distinct, push_char, sort_distinct, str_lt,
    strictly_sorted, texts,
};

verus! {

/// The NNG port used when the configuration names none.
pub const DEFAULT_NNG_PORT: u16 = 14242u16;

/// NNG PUB/SUB broker settings (TCP transport).
#[derive(Debug, Clone, Copy, PartialEq, Eq, Structural)]
pub struct NngConfig {
    pub port: u16,
}

/// The port that an `[nng]` section without `port` gets.
pub fn default_nng_port() -> (port: u16)
    ensures
        port == DEFAULT_NNG_PORT,
{
    DEFAULT_NNG_PORT
}

/// Configuration parsing/validation error.
#[derive(Debug, Clone, PartialEq, Eq)]
pub enum ConfigError {
    InvalidToml(String),
    InvalidDataKind(String),
    InvalidSource(String),
}

/// The text of a configuration error, as it is shown to the operator.
pub open spec fn config_error_text(e: ConfigError) -> Seq<char> {
    match e {
        ConfigError::InvalidToml(msg) => "invalid config toml: "@ + msg@,
        ConfigError::InvalidDataKind(kind) => "invalid data_kind: "@ + kind@
            + " (use lob, trade, both, or lob|trade)"@,
        ConfigError::InvalidSource(msg) => "invalid source config: "@ + msg@,
    }
}

impl ConfigError {
    /// The text of the error, as it is shown to the operator.
    pub fn message(&self) -> (text: String)
        ensures
            text@ == config_error_text(*self),
    {
        match self {
            ConfigError::InvalidToml(msg) => {
                let mut text = String::from_str("invalid config toml: ");
                text.append(msg.as_str());
                text
            },
            ConfigError::InvalidDataKind(kind) => {
                let mut text = String::from_str("invalid data_kind: ");
                text.append(kind.as_str());
                text.append(" (use lob, trade, both, or lob|trade)");
                text
            },
            ConfigError::InvalidSource(msg) => {
                let mut text = String::from_str("invalid source config: ");
                text.append(msg.as_str());
                text
            },
        }
    }
}

/// Which data an exchange source subscribes to: order books, trades, or both.
#[derive(Debug, Clone, Copy, PartialEq, Eq, Structural)]
pub struct DataKind {
    pub lob: bool,
    pub trade: bool,
}

impl DataKind {
    /// Limit order book snapshots and updates only.
    pub fn lob() -> (k: DataKind)
        ensures
            k == (DataKind { lob: true, trade: false }),
    {
        DataKind { lob: true, trade: false }
    }

    /// Trade executions only.
    pub fn trade() -> (k: DataKind)
        ensures
            k == (DataKind { lob: false, trade: true }),
    {
        DataKind { lob: false, trade: true }
    }

    /// Both order books and trades.
    pub fn both() -> (k: DataKind)
        ensures
            k == (DataKind { lob: true, trade: true }),
    {
        DataKind { lob: true, trade: true }
    }
}

/// White space as `char::is_whitespace` defines it (the Unicode `White_Space` property).
pub open spec fn is_white_space(c: char) -> bool {
    ||| ('\u{9}' <= c && c <= '\u{d}')
    ||| c == ' '
    ||| c == '\u{85}'
    ||| c == '\u{a0}'
    ||| c == '\u{1680}'
    ||| ('\u{2000}' <= c && c <= '\u{200a}')
    ||| c == '\u{2028}'
    ||| c == '\u{2029}'
    ||| c == '\u{202f}'
    ||| c == '\u{205f}'
    ||| c == '\u{3000}'
}

/// Executable `char::is_whitespace`.
pub fn char_is_white_space(c: char) -> (b: bool)
    ensures
        b == is_white_space(c),
{
    ('\u{9}' <= c && c <= '\u{d}') || c == ' ' || c == '\u{85}' || c == '\u{a0}' || c == '\u{1680}'
        || ('\u{2000}' <= c && c <= '\u{200a}') || c == '\u{2028}' || c == '\u{2029}' || c
        == '\u{202f}' || c == '\u{205f}' || c == '\u{3000}'
}

/// `s` without its leading white space.
pub open spec fn trim_start(s: Seq<char>) -> Seq<char>
    decreases s.len(),
{
    if s.len() > 0 && is_white_space(s[0]) {
        trim_start(s.drop_first())
    } else {
        s
    }
}

/// `s` without its trailing white space.
pub open spec fn trim_end(s: Seq<char>) -> Seq<char>
    decreases s.len(),
{
    if s.len() > 0 && is_white_space(s.last()) {
        trim_end(s.drop_last())
    } else {
        s
    }
}

/// `str::trim`: `s` without leading and trailing white space.
pub open spec fn trimmed(s: Seq<char>) -> Seq<char> {
    trim_end(trim_start(s))
}

/// `str::to_ascii_lowercase`: every ASCII upper-case letter in lower case.
pub open spec fn ascii_lowered(s: Seq<char>) -> Seq<char> {
    s.map_values(|c: char| ascii_lower(c))
}

/// The key a configured data kind is looked up by: trimmed, ASCII lower case.
pub open spec fn data_kind_key(kind: Seq<char>) -> Seq<char> {
    ascii_lowered(trimmed(kind))
}

proof fn lemma_trim_start_skip(s: Seq<char>, i: int)
    requires
        0 <= i <= s.len(),
        forall|j: int| 0 <= j < i ==> is_white_space(#[trigger] s[j]),
    ensures
        trim_start(s) == trim_start(s.skip(i)),
    decreases i,
{
    if i > 0 {
        assert(is_white_space(s[0]));
        assert(s.drop_first().skip(i - 1) == s.skip(i));
        lemma_trim_start_skip(s.drop_first(), i - 1);
    } else {
        assert(s.skip(0) == s);
    }
}

proof fn lemma_trim_end_take(s: Seq<char>, j: int)
    requires
        0 <= j <= s.len(),
        forall|k: int| j <= k < s.len() ==> is_white_space(#[trigger] s[k]),
    ensures
        trim_end(s) == trim_end(s.take(j)),
    decreases s.len() - j,
{
    if j < s.len() {
        assert(is_white_space(s.last()));
        assert(s.drop_last().take(j) == s.take(j));
        lemma_trim_end_take(s.drop_last(), j);
    } else {
        assert(s.take(j) == s);
    }
}

/// The key of a configured data kind: `kind` trimmed and in ASCII lower case.
fn data_kind_key_of(kind: &str) -> (key: String)
    ensures
        key@ == data_kind_key(kind@),
{
    let chars = chars_of(kind);
    let n = chars.len();
    let mut start: usize = 0;
    while start < n && char_is_white_space(chars[start])
        invariant
            chars@ == kind@,
            n == chars@.len(),
            start <= n,
            forall|j: int| 0 <= j < start ==> is_white_space(#[trigger] chars@[j]),
        decreases n - start,
    {
        start = start + 1;
    }
    proof {
        lemma_trim_start_skip(chars@, start as int);
    }
    let ghost rest = chars@.skip(start as int);
    assert(rest.len() == 0 || !is_white_space(rest[0]));
    assert(trim_start(chars@) == rest);
    let mut end: usize = n;
    while end > start && char_is_white_space(chars[end - 1])
        invariant
            chars@ == kind@,
            n == chars@.len(),
            start <= end <= n,
            rest == chars@.skip(start as int),
            forall|k: int| end <= k < n ==> is_white_space(#[trigger] chars@[k]),
        decreases end,
    {
        end = end - 1;
    }
    proof {
        let m = (end - start) as int;
        assert forall|k: int| m <= k < rest.len() implies is_white_space(#[trigger] rest[k]) by {
            assert(rest[k] == chars@[start + k]);
        }
        lemma_trim_end_take(rest, m);
        let core = rest.take(m);
        assert(core.len() == 0 || !is_white_space(core.last())) by {
            if core.len() > 0 {
                assert(core.last() == chars@[end - 1]);
            }
        }
        assert(trim_end(core) == core);
    }
    let ghost core = rest.take((end - start) as int);
    let mut key = String::new();
    let mut i: usize = start;
    while i < end
        invariant
            chars@ == kind@,
            n == chars@.len(),
            start <= i <= end <= n,
            core == chars@.subrange(start as int, end as int),
            key@ == ascii_lowered(chars@.subrange(start as int, i as int)),
        decreases end - i,
    {
        push_char(&mut key, char_to_ascii_lower(chars[i]));
        proof {
            assert(chars@.subrange(start as int, i + 1) == chars@.subrange(start as int, i as int).push(
                chars@[i as int],
            ));
        }
        i = i + 1;
    }
    key
}

/// The data kind that a configured `data_kind` text selects, if any.
pub open spec fn data_kind_of(kind: Seq<char>) -> Option<DataKind> {
    let key = data_kind_key(kind);
    if key == "lob"@ {
        Some(DataKind { lob: true, trade: false })
    } else if key == "trade"@ {
        Some(DataKind { lob: false, trade: true })
    } else if key == "both"@ || key == "lob|trade"@ || key == "lob,trade"@ {
        Some(DataKind { lob: true, trade: true })
    } else {
        None
    }
}

/// Parse the string representation of a data kind: `lob`, `trade`, or
/// `both` (also written `lob|trade` or `lob,trade`), ignoring surrounding
/// white space and ASCII case. Anything else is an `InvalidDataKind` error
/// that holds the trimmed, lower-cased text.
pub fn parse_data_kind(kind: &str) -> (res: Result<DataKind, ConfigError>)
    ensures
        match res {
            Ok(k) => data_kind_of(kind@) == Some(k),
            Err(e) => {
                &&& data_kind_of(kind@) is None
                &&& e matches ConfigError::InvalidDataKind(t)
                &&& t@ == data_kind_key(kind@)
            },
        },
{
    let key = data_kind_key_of(kind);
    if key == String::from_str("lob") {
        Ok(DataKind::lob())
    } else if key == String::from_str("trade") {
        Ok(DataKind::trade())
    } else if key == String::from_str("both") || key == String::from_str("lob|trade") || key
        == String::from_str("lob,trade") {
        Ok(DataKind::both())
    } else {
        Err(ConfigError::InvalidDataKind(key))
    }
}

/// The environment variable that may hold the Bitvavo API key.
pub const BITVAVO_API_KEY_VAR: &'static str = "BITVAVO_API_KEY";

/// The environment variable that may hold the Bitvavo API secret.
pub const BITVAVO_API_SECRET_VAR: &'static str = "BITVAVO_API_SECRET";

/// The text of an optional string.
pub open spec fn opt_text(o: Option<String>) -> Option<Seq<char>> {
    match o {
        Some(s) => Some(s@),
        None => None,
    }
}

/// The credential that the environment supplies for `exchange`: only
/// `bitvavo` reads it, and an empty value counts as absent.
pub open spec fn env_credential_of(exchange: Seq<char>, env_value: Option<Seq<char>>) -> Option<
    Seq<char>,
> {
    if exchange == "bitvavo"@ {
        match env_value {
            Some(v) => if v.len() > 0 {
                Some(v)
            } else {
                None
            },
            None => None,
        }
    } else {
        None
    }
}

/// The credential used for `exchange`: the configured value when there is
/// one, else what the environment supplies.
pub open spec fn resolved_credential(
    configured: Option<Seq<char>>,
    exchange: Seq<char>,
    env_value: Option<Seq<char>>,
) -> Option<Seq<char>> {
    match configured {
        Some(v) => Some(v),
        None => env_credential_of(exchange, env_value),
    }
}

/// A copy of an optional string.
fn clone_opt(o: &Option<String>) -> (c: Option<String>)
    ensures
        opt_text(c) == opt_text(*o),
{
    match o {
        Some(s) => Some(s.clone()),
        None => None,
    }
}

/// Whether two texts are equal.
fn same_text(a: &str, b: &str) -> (eq: bool)
    ensures
        eq == (a@ == b@),
{
    String::from_str(a) == String::from_str(b)
}

/// Read a credential from the environment value given for it, but only for
/// exchanges that are known to require it (currently `bitvavo`). Empty strings
/// are treated as absent.
fn env_credential(exchange: &str, env_value: Option<String>) -> (c: Option<String>)
    ensures
        opt_text(c) == env_credential_of(exchange@, opt_text(env_value)),
{
    if same_text(exchange, "bitvavo") {
        match env_value {
            Some(v) => if v.as_str().is_empty() {
                None
            } else {
                Some(v)
            },
            None => None,
        }
    } else {
        None
    }
}

/// Per-instrument configuration within an exchange source, keyed by its alias
/// in the source's `instruments`.
#[derive(Debug, Clone)]
pub struct InstrumentConfig {
    /// Instrument symbol in exchange-native format.
    pub instrument: String,
    /// Optional suffix to override the normalized instrument name in NNG
    /// topic names (used verbatim).
    pub suffix_topic: Option<String>,
    /// Maximum number of price levels per side (None = no limit).
    pub max_level: Option<usize>,
}

impl Default for InstrumentConfig {
    fn default() -> (c: Self)
        ensures
            c.instrument@ == Seq::<char>::empty(),
            c.suffix_topic is None,
            c.max_level is None,
    {
        InstrumentConfig { instrument: String::new(), suffix_topic: None, max_level: None }
    }
}

/// Exchange WebSocket subscription settings: the exchange-level fields shared
/// by all instruments configured under the exchange.
#[derive(Debug, Clone)]
pub struct SourceConfig {
    pub region: String,
    /// One of "lob", "trade", "both", "lob|trade".
    pub data_kind: String,
    /// Warn on Kraken checksum mismatch.
    pub checksum_log: bool,
    /// Warn on Kraken crossing-guard rejection.
    pub crossguard_log: bool,
    /// Reconnect after this many seconds without a message.
    pub silence_timeout_secs: Option<u64>,
    /// API key for exchanges that require WebSocket authentication (Bitvavo).
    pub api_key: Option<String>,
    /// API secret for exchanges that require WebSocket authentication (Bitvavo).
    pub api_secret: Option<String>,
    /// Per-instrument configs, keyed by alias (each alias once).
    pub instruments: Vec<(String, InstrumentConfig)>,
}

impl Default for SourceConfig {
    fn default() -> (c: Self)
        ensures
            c.region@ == Seq::<char>::empty(),
            c.data_kind@ == Seq::<char>::empty(),
            !c.checksum_log,
            !c.crossguard_log,
            c.silence_timeout_secs is None,
            c.api_key is None,
            c.api_secret is None,
            c.instruments@.len() == 0,
    {
        SourceConfig {
            region: String::new(),
            data_kind: String::new(),
            checksum_log: false,
            crossguard_log: false,
            silence_timeout_secs: None,
            api_key: None,
            api_secret: None,
            instruments: Vec::new(),
        }
    }
}

/// What the ingestion library is asked to stream for one configured
/// instrument, before its region, resilience and fallback rules are checked.
#[derive(Debug, Clone)]
pub struct DataSourcePlan {
    pub exchange: String,
    pub region: String,
    pub instrument: String,
    pub data_kind: DataKind,
    /// `None` for the empty alias, which selects the exchange-only fallback rule.
    pub alias: Option<String>,
    pub max_level: Option<usize>,
    pub checksum_log: bool,
    pub crossguard_log: bool,
    pub silence_timeout_secs: Option<u64>,
    pub api_key: Option<String>,
    pub api_secret: Option<String>,
}

/// The alias handed to the ingestion library: none for the empty alias.
pub open spec fn alias_option(alias: Seq<char>) -> Option<Seq<char>> {
    if alias.len() == 0 {
        None
    } else {
        Some(alias)
    }
}

/// `plan` is what `source` configures for instrument `inst` under `alias` of
/// `exchange`, with the given environment credentials.
pub open spec fn is_plan_of(
    plan: DataSourcePlan,
    source: SourceConfig,
    exchange: Seq<char>,
    alias: Seq<char>,
    inst: InstrumentConfig,
    env_key: Option<Seq<char>>,
    env_secret: Option<Seq<char>>,
) -> bool {
    &&& plan.exchange@ == exchange
    &&& plan.region@ == source.region@
    &&& plan.instrument@ == inst.instrument@
    &&& data_kind_of(source.data_kind@) == Some(plan.data_kind)
    &&& opt_text(plan.alias) == alias_option(alias)
    &&& plan.max_level == inst.max_level
    &&& plan.checksum_log == source.checksum_log
    &&& plan.crossguard_log == source.crossguard_log
    &&& plan.silence_timeout_secs == source.silence_timeout_secs
    &&& opt_text(plan.api_key) == resolved_credential(opt_text(source.api_key), exchange, env_key)
    &&& opt_text(plan.api_secret) == resolved_credential(
        opt_text(source.api_secret),
        exchange,
        env_secret,
    )
}

/// What `to_data_source` gives: the plan, or the data-kind error.
pub open spec fn plan_result_ok(
    res: Result<DataSourcePlan, ConfigError>,
    source: SourceConfig,
    exchange: Seq<char>,
    alias: Seq<char>,
    inst: InstrumentConfig,
    env_key: Option<Seq<char>>,
    env_secret: Option<Seq<char>>,
) -> bool {
    match res {
        Ok(plan) => is_plan_of(plan, source, exchange, alias, inst, env_key, env_secret),
        Err(e) => {
            &&& data_kind_of(source.data_kind@) is None
            &&& e matches ConfigError::InvalidDataKind(t)
            &&& t@ == data_kind_key(source.data_kind@)
        },
    }
}

impl SourceConfig {
    /// Resolve the configured data kind flags.
    pub fn data_kind(&self) -> (res: Result<DataKind, ConfigError>)
        ensures
            match res {
                Ok(k) => data_kind_of(self.data_kind@) == Some(k),
                Err(e) => {
                    &&& data_kind_of(self.data_kind@) is None
                    &&& e matches ConfigError::InvalidDataKind(t)
                    &&& t@ == data_kind_key(self.data_kind@)
                },
            },
    {
        parse_data_kind(self.data_kind.as_str())
    }

    /// Resolve API credentials for an exchange, given what the environment
    /// holds for `BITVAVO_API_KEY` and `BITVAVO_API_SECRET`.
    ///
    /// Config values take precedence over environment variables. For
    /// `bitvavo`, when the config value is absent the environment value is
    /// used (an empty one counts as absent). For other exchanges the
    /// environment is not consulted.
    pub fn resolve_credentials(
        &self,
        exchange: &str,
        env_key: Option<String>,
        env_secret: Option<String>,
    ) -> (creds: (Option<String>, Option<String>))
        ensures
            opt_text(creds.0) == resolved_credential(
                opt_text(self.api_key),
                exchange@,
                opt_text(env_key),
            ),
            opt_text(creds.1) == resolved_credential(
                opt_text(self.api_secret),
                exchange@,
                opt_text(env_secret),
            ),
    {
        let key = match &self.api_key {
            Some(k) => Some(k.clone()),
            None => env_credential(exchange, env_key),
        };
        let secret = match &self.api_secret {
            Some(s) => Some(s.clone()),
            None => env_credential(exchange, env_secret),
        };
        (key, secret)
    }

    /// The plan for the instrument `inst`, configured under `alias` of this
    /// `exchange`. An empty alias becomes `None` (the exchange-only fallback
    /// rule). Fails only when the data kind is invalid.
    pub fn to_data_source(
        &self,
        exchange: &str,
        alias: &str,
        inst: &InstrumentConfig,
        env_key: Option<String>,
        env_secret: Option<String>,
    ) -> (res: Result<DataSourcePlan, ConfigError>)
        ensures
            plan_result_ok(
                res,
                *self,
                exchange@,
                alias@,
                *inst,
                opt_text(env_key),
                opt_text(env_secret),
            ),
            res matches Ok(plan) ==> {
                &&& plan.checksum_log == self.checksum_log
                &&& plan.crossguard_log == self.crossguard_log
                &&& plan.silence_timeout_secs == self.silence_timeout_secs
                &&& plan.max_level == inst.max_level
            },
    {
        let (api_key, api_secret) = self.resolve_credentials(exchange, env_key, env_secret);
        let data_kind = match self.data_kind() {
            Ok(k) => k,
            Err(e) => return Err(e),
        };
        let alias_opt = if alias.is_empty() {
            None
        } else {
            Some(String::from_str(alias))
        };
        Ok(
            DataSourcePlan {
                exchange: String::from_str(exchange),
                region: self.region.clone(),
                instrument: inst.instrument.clone(),
                data_kind,
                alias: alias_opt,
                max_level: inst.max_level,
                checksum_log: self.checksum_log,
                crossguard_log: self.crossguard_log,
                silence_timeout_secs: self.silence_timeout_secs,
                api_key,
                api_secret,
            },
        )
    }
}

/// The keys of keyed entries, in order.
pub open spec fn keys_of<T>(entries: Seq<(String, T)>) -> Seq<Seq<char>> {
    entries.map_values(|e: (String, T)| e.0@)
}

/// One configured instrument, ready to be handed to the ingestion library.
#[derive(Debug)]
pub struct PlannedSource {
    /// The exchange id (the `[source.<exchange>]` key).
    pub exchange: String,
    /// The instrument alias (the `[source.<exchange>.instrument.<alias>]` key).
    pub alias: String,
    /// The instrument symbol in exchange-native format.
    pub instrument: String,
    /// The topic suffix override, if any.
    pub suffix_topic: Option<String>,
    /// The plan, or why the instrument cannot be planned.
    pub plan: Result<DataSourcePlan, ConfigError>,
}

/// `(e1, a1)` comes before `(e2, a2)`: by exchange id, then by alias.
pub open spec fn key_lt(e1: Seq<char>, a1: Seq<char>, e2: Seq<char>, a2: Seq<char>) -> bool {
    str_lt(e1, e2) || (e1 == e2 && str_lt(a1, a2))
}

/// Top-level application configuration: the exchange sources, keyed by
/// exchange id, and the broker settings.
#[derive(Debug, Clone)]
pub struct AppConfig {
    pub source: Vec<(String, SourceConfig)>,
    pub nng: NngConfig,
}

/// The text used when no exchange is configured.
pub open spec fn no_source_text() -> Seq<char> {
    "no [source.<exchange>] section found in config"@
}

impl AppConfig {
    /// Each exchange id occurs once, and each alias once within its exchange
    /// (as they do for the keys of the TOML tables they come from).
    pub open spec fn keys_unique(&self) -> bool {
        &&& distinct(keys_of(self.source@))
        &&& forall|i: int|
            0 <= i < self.source@.len() ==> distinct(keys_of(#[trigger] self.source@[i].1.instruments@))
    }

    /// `exchange` names the source `source` of this configuration.
    pub open spec fn has_source(&self, exchange: Seq<char>, source: SourceConfig) -> bool {
        exists|i: int|
            0 <= i < self.source@.len() && #[trigger] self.source@[i].0@ == exchange
                && self.source@[i].1 == source
    }

    /// Return every configured exchange source, sorted by exchange id for
    /// deterministic ordering. Returns an error only when no exchange is
    /// configured at all.
    pub fn exchange_sources(&self) -> (res: Result<Vec<(&String, &SourceConfig)>, ConfigError>)
        requires
            self.keys_unique(),
        ensures
            match res {
                Ok(entries) => {
                    &&& self.source@.len() > 0
                    &&& strictly_sorted(entries@.map_values(|e: (&String, &SourceConfig)| e.0@))
                    &&& entries@.map_values(|e: (&String, &SourceConfig)| e.0@).to_set()
                        == keys_of(self.source@).to_set()
                    &&& forall|k: int|
                        0 <= k < entries@.len() ==> self.has_source(
                            (#[trigger] entries@[k]).0@,
                            *entries@[k].1,
                        )
                },
                Err(e) => {
                    &&& self.source@.len() == 0
                    &&& e matches ConfigError::InvalidSource(t)
                    &&& t@ == no_source_text()
                },
            },
    {
        if self.source.len() == 0 {
            return Err(ConfigError::InvalidSource(String::from_str("no [source.<exchange>] section found in config")));
        }
        let names = sort_distinct(source_names(&self.source));
        let mut entries: Vec<(&String, &SourceConfig)> = Vec::new();
        let mut k: usize = 0;
        while k < names.len()
            invariant
                self.keys_unique(),
                k <= names@.len(),
                texts(names@).to_set() == keys_of(self.source@).to_set(),
                entries@.map_values(|e: (&String, &SourceConfig)| e.0@) == texts(names@).take(k as int),
                forall|q: int|
                    0 <= q < entries@.len() ==> self.has_source(
                        (#[trigger] entries@[q]).0@,
                        *entries@[q].1,
                    ),
            decreases names@.len() - k,
        {
            proof {
                assert(texts(names@).to_set().contains(names@[k as int]@)) by {
                    assert(texts(names@)[k as int] == names@[k as int]@);
                }
            }
            let i = find_key(&self.source, &names[k]);
            let ghost before = entries@;
            entries.push((&self.source[i].0, &self.source[i].1));
            proof {
                assert(self.has_source(self.source@[i as int].0@, self.source@[i as int].1));
                assert(entries@.map_values(|e: (&String, &SourceConfig)| e.0@) == before.map_values(
                    |e: (&String, &SourceConfig)| e.0@,
                ).push(names@[k as int]@));
                assert(texts(names@).take(k + 1) == texts(names@).take(k as int).push(
                    names@[k as int]@,
                ));
            }
            k = k + 1;
        }
        proof {
            assert(texts(names@).take(k as int) == texts(names@));
        }
        Ok(entries)
    }
}

/// The keys of keyed entries.
fn source_names<T>(entries: &Vec<(String, T)>) -> (names: Vec<String>)
    ensures
        texts(names@) == keys_of(entries@),
{
    let mut names: Vec<String> = Vec::new();
    let mut i: usize = 0;
    while i < entries.len()
        invariant
            i <= entries@.len(),
            texts(names@) == keys_of(entries@).take(i as int),
        decreases entries@.len() - i,
    {
        names.push(entries[i].0.clone());
        proof {
            assert(keys_of(entries@).take(i + 1) == keys_of(entries@).take(i as int).push(
                entries@[i as int].0@,
            ));
        }
        i = i + 1;
    }
    proof {
        assert(keys_of(entries@).take(i as int) == keys_of(entries@));
    }
    names
}

/// The position of the entry keyed by `key`.
fn find_key<T>(entries: &Vec<(String, T)>, key: &String) -> (i: usize)
    requires
        keys_of(entries@).to_set().contains(key@),
    ensures
        i < entries@.len(),
        entries@[i as int].0@ == key@,
{
    let mut i: usize = 0;
    while i < entries.len()
        invariant
            i <= entries@.len(),
            keys_of(entries@).to_set().contains(key@),
            forall|j: int| 0 <= j < i ==> entries@[j].0@ != key@,
        decreases entries@.len() - i,
    {
        if entries[i].0 == *key {
            return i;
        }
        i = i + 1;
    }
    proof {
        let j = choose|j: int| 0 <= j < keys_of(entries@).len() && keys_of(entries@)[j] == key@;
        assert(entries@[j].0@ == key@);
    }
    0
}

/// `p` plans one instrument of `source`, configured under `exchange`.
pub open spec fn planned_from(
    p: PlannedSource,
    exchange: Seq<char>,
    source: SourceConfig,
    env_key: Option<Seq<char>>,
    env_secret: Option<Seq<char>>,
) -> bool {
    exists|j: int|
        0 <= j < source.instruments@.len() && #[trigger] source.instruments@[j].0@ == p.alias@ && {
            let inst = source.instruments@[j].1;
            &&& p.exchange@ == exchange
            &&& p.instrument@ == inst.instrument@
            &&& opt_text(p.suffix_topic) == opt_text(inst.suffix_topic)
            &&& plan_result_ok(p.plan, source, exchange, p.alias@, inst, env_key, env_secret)
        }
}

/// Some entry of `planned` is for `alias`.
pub open spec fn has_alias(planned: Seq<PlannedSource>, alias: Seq<char>) -> bool {
    exists|q: int| 0 <= q < planned.len() && (#[trigger] planned[q]).alias@ == alias
}

/// Plan every instrument of one exchange source, in alias order.
fn plan_instruments(
    exchange: &String,
    source: &SourceConfig,
    env_key: &Option<String>,
    env_secret: &Option<String>,
) -> (planned: Vec<PlannedSource>)
    requires
        distinct(keys_of(source.instruments@)),
    ensures
        forall|q: int| 0 <= q < planned@.len() ==> (#[trigger] planned@[q]).exchange@ == exchange@,
        forall|q1: int, q2: int|
            0 <= q1 < q2 < planned@.len() ==> str_lt(
                (#[trigger] planned@[q1]).alias@,
                (#[trigger] planned@[q2]).alias@,
            ),
        forall|q: int|
            0 <= q < planned@.len() ==> planned_from(
                #[trigger] planned@[q],
                exchange@,
                *source,
                opt_text(*env_key),
                opt_text(*env_secret),
            ),
        forall|j: int|
            0 <= j < source.instruments@.len() ==> has_alias(
                planned@,
                (#[trigger] source.instruments@[j]).0@,
            ),
{
    let aliases = sort_distinct(source_names(&source.instruments));
    let mut planned: Vec<PlannedSource> = Vec::new();
    let mut m: usize = 0;
    while m < aliases.len()
        invariant
            distinct(keys_of(source.instruments@)),
            m <= aliases@.len(),
            strictly_sorted(texts(aliases@)),
            texts(aliases@).to_set() == keys_of(source.instruments@).to_set(),
            planned@.len() == m,
            forall|q: int|
                0 <= q < planned@.len() ==> (#[trigger] planned@[q]).alias@ == aliases@[q]@,
            forall|q: int| 0 <= q < planned@.len() ==> (#[trigger] planned@[q]).exchange@ == exchange@,
            forall|q: int|
                0 <= q < planned@.len() ==> planned_from(
                    #[trigger] planned@[q],
                    exchange@,
                    *source,
                    opt_text(*env_key),
                    opt_text(*env_secret),
                ),
        decreases aliases@.len() - m,
    {
        proof {
            assert(texts(aliases@).to_set().contains(aliases@[m as int]@)) by {
                assert(texts(aliases@)[m as int] == aliases@[m as int]@);
            }
        }
        let j = find_key(&source.instruments, &aliases[m]);
        let inst = &source.instruments[j].1;
        let plan = source.to_data_source(
            exchange.as_str(),
            aliases[m].as_str(),
            inst,
            clone_opt(env_key),
            clone_opt(env_secret),
        );
        let p = PlannedSource {
            exchange: exchange.clone(),
            alias: aliases[m].clone(),
            instrument: inst.instrument.clone(),
            suffix_topic: clone_opt(&inst.suffix_topic),
            plan,
        };
        proof {
            assert(source.instruments@[j as int].0@ == p.alias@);
            assert(planned_from(p, exchange@, *source, opt_text(*env_key), opt_text(*env_secret)));
        }
        planned.push(p);
        m = m + 1;
    }
    proof {
        assert forall|q1: int, q2: int| 0 <= q1 < q2 < planned@.len() implies str_lt(
            (#[trigger] planned@[q1]).alias@,
            (#[trigger] planned@[q2]).alias@,
        ) by {
            assert(texts(aliases@)[q1] == aliases@[q1]@);
            assert(texts(aliases@)[q2] == aliases@[q2]@);
        }
        assert forall|j: int| 0 <= j < source.instruments@.len() implies has_alias(
            planned@,
            (#[trigger] source.instruments@[j]).0@,
        ) by {
            assert(keys_of(source.instruments@)[j] == source.instruments@[j].0@);
            assert(keys_of(source.instruments@).to_set().contains(source.instruments@[j].0@));
            assert(texts(aliases@).to_set().contains(source.instruments@[j].0@));
            let q = choose|q: int| 0 <= q < texts(aliases@).len() && texts(aliases@)[q] == source.instruments@[j].0@;
            assert(planned@[q].alias@ == aliases@[q]@);
        }
    }
    planned
}

/// Some entry of `planned` is for instrument `alias` of `exchange`.
pub open spec fn has_key(planned: Seq<PlannedSource>, exchange: Seq<char>, alias: Seq<char>) -> bool {
    exists|q: int|
        0 <= q < planned.len() && (#[trigger] planned[q]).exchange@ == exchange && planned[q].alias@
            == alias
}

/// The exchange ids of sorted source entries.
pub open spec fn entry_names(entries: Seq<(&String, &SourceConfig)>) -> Seq<Seq<char>> {
    entries.map_values(|e: (&String, &SourceConfig)| e.0@)
}

impl AppConfig {
    /// `p` plans an instrument of some configured source.
    pub open spec fn plans_configured(
        &self,
        p: PlannedSource,
        env_key: Option<Seq<char>>,
        env_secret: Option<Seq<char>>,
    ) -> bool {
        exists|i: int|
            0 <= i < self.source@.len() && #[trigger] self.source@[i].0@ == p.exchange@ && planned_from(
                p,
                p.exchange@,
                self.source@[i].1,
                env_key,
                env_secret,
            )
    }

    /// Plan every configured instrument across all exchanges, sorted by
    /// `(exchange, alias)`, given what the environment holds for the Bitvavo
    /// credentials. Each entry carries its own result, so that the caller
    /// reports the first failing instrument in this order. Fails only when no
    /// exchange is configured at all.
    pub fn planned_sources(&self, env_key: Option<String>, env_secret: Option<String>) -> (res:
        Result<Vec<PlannedSource>, ConfigError>)
        requires
            self.keys_unique(),
        ensures
            match res {
                Ok(planned) => {
                    &&& self.source@.len() > 0
                    &&& forall|q1: int, q2: int|
                        0 <= q1 < q2 < planned@.len() ==> key_lt(
                            (#[trigger] planned@[q1]).exchange@,
                            planned@[q1].alias@,
                            (#[trigger] planned@[q2]).exchange@,
                            planned@[q2].alias@,
                        )
                    &&& forall|q: int|
                        0 <= q < planned@.len() ==> self.plans_configured(
                            #[trigger] planned@[q],
                            opt_text(env_key),
                            opt_text(env_secret),
                        )
                    &&& forall|i: int, j: int|
                        0 <= i < self.source@.len() && 0 <= j
                            < self.source@[i].1.instruments@.len() ==> has_key(
                            planned@,
                            (#[trigger] self.source@[i]).0@,
                            (#[trigger] self.source@[i].1.instruments@[j]).0@,
                        )
                },
                Err(e) => {
                    &&& self.source@.len() == 0
                    &&& e matches ConfigError::InvalidSource(t)
                    &&& t@ == no_source_text()
                },
            },
    {
        let entries = match self.exchange_sources() {
            Ok(entries) => entries,
            Err(e) => return Err(e),
        };
        let ghost names = entry_names(entries@);
        let mut out: Vec<PlannedSource> = Vec::new();
        let mut k: usize = 0;
        while k < entries.len()
            invariant
                self.keys_unique(),
                names == entry_names(entries@),
                strictly_sorted(names),
                names.to_set() == keys_of(self.source@).to_set(),
                forall|q: int|
                    0 <= q < entries@.len() ==> self.has_source(
                        (#[trigger] entries@[q]).0@,
                        *entries@[q].1,
                    ),
                k <= entries@.len(),
                forall|q1: int, q2: int|
                    0 <= q1 < q2 < out@.len() ==> key_lt(
                        (#[trigger] out@[q1]).exchange@,
                        out@[q1].alias@,
                        (#[trigger] out@[q2]).exchange@,
                        out@[q2].alias@,
                    ),
                forall|q: int|
                    0 <= q < out@.len() ==> exists|r: int|
                        0 <= r < k && (#[trigger] out@[q]).exchange@ == #[trigger] names[r],
                forall|q: int|
                    0 <= q < out@.len() ==> self.plans_configured(
                        #[trigger] out@[q],
                        opt_text(env_key),
                        opt_text(env_secret),
                    ),
                forall|i: int, j: int|
                    0 <= i < self.source@.len() && 0 <= j < self.source@[i].1.instruments@.len()
                        && names.take(k as int).contains(self.source@[i].0@) ==> has_key(
                        out@,
                        (#[trigger] self.source@[i]).0@,
                        (#[trigger] self.source@[i].1.instruments@[j]).0@,
                    ),
            decreases entries@.len() - k,
        {
            let (name, source) = entries[k];
            proof {
                assert(self.has_source(entries@[k as int].0@, *entries@[k as int].1));
            }
            let ghost i0 = choose|i: int|
                0 <= i < self.source@.len() && #[trigger] self.source@[i].0@ == name@
                    && self.source@[i].1 == *source;
            proof {
                assert(distinct(keys_of(self.source@[i0].1.instruments@)));
            }
            let mut planned = plan_instruments(name, source, &env_key, &env_secret);
            let ghost before = out@;
            let ghost fresh = planned@;
            out.append(&mut planned);
            proof {
                assert(out@ == before + fresh);
                assert(names[k as int] == name@);
                assert forall|q1: int, q2: int| 0 <= q1 < q2 < out@.len() implies key_lt(
                    (#[trigger] out@[q1]).exchange@,
                    out@[q1].alias@,
                    (#[trigger] out@[q2]).exchange@,
                    out@[q2].alias@,
                ) by {
                    if q2 < before.len() {
                        assert(out@[q1] == before[q1] && out@[q2] == before[q2]);
                    } else if q1 < before.len() {
                        assert(out@[q1] == before[q1]);
                        assert(out@[q2] == fresh[q2 - before.len()]);
                        let r = choose|r: int| 0 <= r < k && before[q1].exchange@ == #[trigger] names[r];
                        assert(str_lt(names[r], names[k as int]));
                    } else {
                        assert(out@[q1] == fresh[q1 - before.len()]);
                        assert(out@[q2] == fresh[q2 - before.len()]);
                    }
                }
                assert forall|q: int| 0 <= q < out@.len() implies exists|r: int|
                    0 <= r < k + 1 && (#[trigger] out@[q]).exchange@ == #[trigger] names[r] by {
                    if q < before.len() {
                        assert(out@[q] == before[q]);
                        let r = choose|r: int| 0 <= r < k && before[q].exchange@ == #[trigger] names[r];
                        assert(out@[q].exchange@ == names[r]);
                    } else {
                        assert(out@[q] == fresh[q - before.len()]);
                        assert(out@[q].exchange@ == names[k as int]);
                    }
                }
                assert forall|q: int| 0 <= q < out@.len() implies self.plans_configured(
                    #[trigger] out@[q],
                    opt_text(env_key),
                    opt_text(env_secret),
                ) by {
                    if q < before.len() {
                        assert(out@[q] == before[q]);
                    } else {
                        let p = fresh[q - before.len()];
                        assert(out@[q] == p);
                        assert(planned_from(p, name@, *source, opt_text(env_key), opt_text(env_secret)));
                        assert(self.source@[i0].0@ == p.exchange@);
                    }
                }
                assert forall|i: int, j: int|
                    0 <= i < self.source@.len() && 0 <= j < self.source@[i].1.instruments@.len()
                        && names.take(k + 1).contains(self.source@[i].0@) implies has_key(
                    out@,
                    (#[trigger] self.source@[i]).0@,
                    (#[trigger] self.source@[i].1.instruments@[j]).0@,
                ) by {
                    let key_i = self.source@[i].0@;
                    let r = choose|r: int| 0 <= r < k + 1 && #[trigger] names.take(k + 1)[r] == key_i;
                    if r < k {
                        assert(names.take(k as int).contains(key_i)) by {
                            assert(names.take(k as int)[r] == key_i);
                        }
                        let q = choose|q: int|
                            0 <= q < before.len() && (#[trigger] before[q]).exchange@ == key_i
                                && before[q].alias@ == self.source@[i].1.instruments@[j].0@;
                        assert(out@[q] == before[q]);
                    } else {
                        assert(key_i == name@);
                        assert(i == i0) by {
                            if i != i0 {
                                assert(keys_of(self.source@)[i] == keys_of(self.source@)[i0]);
                            }
                        }
                        assert(has_alias(fresh, source.instruments@[j].0@));
                        let q = choose|q: int|
                            0 <= q < fresh.len() && (#[trigger] fresh[q]).alias@
                                == source.instruments@[j].0@;
                        assert(out@[before.len() + q] == fresh[q]);
                    }
                }
            }
            k = k + 1;
        }
        proof {
            assert forall|i: int, j: int|
                0 <= i < self.source@.len() && 0 <= j < self.source@[i].1.instruments@.len() implies has_key(
                out@,
                (#[trigger] self.source@[i]).0@,
                (#[trigger] self.source@[i].1.instruments@[j]).0@,
            ) by {
                assert(names.take(k as int) == names);
                assert(keys_of(self.source@)[i] == self.source@[i].0@);
                assert(keys_of(self.source@).to_set().contains(self.source@[i].0@));
                assert(names.to_set().contains(self.source@[i].0@));
            }
        }
        Ok(out)
    }
}

/// `source` with its silence timeout replaced by `secs` when that is set.
pub open spec fn with_silence_timeout(source: SourceConfig, secs: Option<u64>) -> SourceConfig {
    match secs {
        Some(n) => SourceConfig { silence_timeout_secs: Some(n), ..source },
        None => source,
    }
}

impl AppConfig {
    /// Override `silence_timeout_secs` on every configured source.
    ///
    /// When `secs` is `Some(n)`, every source's silence timeout becomes
    /// `Some(n)` so that all exchange WebSocket streams share the same
    /// silence-detection window. When `None`, individual source settings are
    /// left untouched.
    pub fn override_silence_timeout_secs(&mut self, secs: Option<u64>)
        ensures
            final(self).nng == old(self).nng,
            final(self).source@.len() == old(self).source@.len(),
            forall|i: int|
                0 <= i < old(self).source@.len() ==> (#[trigger] final(self).source@[i]).0
                    == old(self).source@[i].0 && final(self).source@[i].1 == with_silence_timeout(
                    old(self).source@[i].1,
                    secs,
                ),
            secs matches Some(n) ==> forall|i: int|
                0 <= i < final(self).source@.len() ==> (#[trigger] final(self).source@[i]).1.silence_timeout_secs
                    == Some(n),
            secs is None ==> final(self).source@ == old(self).source@,
    {
        if let Some(n) = secs {
            let mut all: Vec<(String, SourceConfig)> = Vec::new();
            std::mem::swap(&mut all, &mut self.source);
            let ghost given = all@;
            let mut updated: Vec<(String, SourceConfig)> = Vec::new();
            for entry in it: all.into_iter()
                invariant
                    it.seq() == given,
                    updated@.len() == it.index(),
                    forall|i: int|
                        0 <= i < it.index() ==> (#[trigger] updated@[i]).0 == given[i].0
                            && updated@[i].1 == with_silence_timeout(given[i].1, secs),
                    secs == Some(n),
            {
                let (name, mut source) = entry;
                source.silence_timeout_secs = Some(n);
                updated.push((name, source));
            }
            self.source = updated;
        }
    }
}

/// What one planned instrument comes to once the ingestion library has
/// checked it: the planning error if planning failed, else the check's result.
pub open spec fn planned_outcome<T>(p: PlannedSource, checked: Result<T, ConfigError>) -> Result<
    T,
    ConfigError,
> {
    match p.plan {
        Err(e) => Err(e),
        Ok(_) => checked,
    }
}

/// One validated exchange source: exchange id, instrument symbol, the data
/// source that the ingestion library accepted, and the topic suffix override.
pub type ValidatedSource<T> = (String, String, T, Option<String>);

/// What `validated_sources` gives for the planned instruments and their
/// checks: all of them, in order, when every one was planned and accepted;
/// otherwise the first failure.
pub open spec fn validated_result<T>(
    planned: Seq<PlannedSource>,
    checked: Seq<Result<T, ConfigError>>,
    res: Result<Vec<ValidatedSource<T>>, ConfigError>,
) -> bool {
    match res {
        Ok(sources) => {
            &&& forall|i: int|
                0 <= i < planned.len() ==> (#[trigger] planned_outcome(planned[i], checked[i])) is Ok
            &&& sources@.len() == planned.len()
            &&& forall|i: int|
                #![trigger sources@[i]]
                0 <= i < sources@.len() ==> {
                    &&& sources@[i].0@ == planned[i].exchange@
                    &&& sources@[i].1@ == planned[i].instrument@
                    &&& checked[i] == Ok::<T, ConfigError>(sources@[i].2)
                    &&& opt_text(sources@[i].3) == opt_text(planned[i].suffix_topic)
                }
        },
        Err(e) => exists|i: int|
            0 <= i < planned.len() && #[trigger] planned_outcome(planned[i], checked[i]) == Err::<
                T,
                ConfigError,
            >(e) && forall|j: int|
                0 <= j < i ==> (#[trigger] planned_outcome(planned[j], checked[j])) is Ok,
    }
}

impl AppConfig {
    /// Gather the validated sources from the planned instruments (in the order
    /// `planned_sources` gives) and, for each, what the ingestion library's
    /// check gave for its plan (`checked[i]` is not read where the plan
    /// failed). Succeeds only when every instrument was planned and accepted,
    /// with one entry per instrument in the same order; otherwise fails with
    /// the first failure in that order.
    pub fn validated_sources<T>(
        planned: Vec<PlannedSource>,
        checked: Vec<Result<T, ConfigError>>,
    ) -> (res: Result<Vec<ValidatedSource<T>>, ConfigError>)
        requires
            planned@.len() == checked@.len(),
        ensures
            validated_result(planned@, checked@, res),
    {
        let ghost all_planned = planned@;
        let ghost all_checked = checked@;
        let mut rest_planned = planned;
        let mut rest_checked = checked;
        let mut sources: Vec<ValidatedSource<T>> = Vec::new();
        let ghost mut k: int = 0;
        while rest_planned.len() > 0
            invariant
                all_planned == planned@,
                all_checked == checked@,
                all_planned.len() == all_checked.len(),
                0 <= k <= all_planned.len(),
                rest_planned@ == all_planned.skip(k),
                rest_checked@ == all_checked.skip(k),
                sources@.len() == k,
                forall|i: int|
                    0 <= i < k ==> (#[trigger] planned_outcome(all_planned[i], all_checked[i])) is Ok,
                forall|i: int|
                    #![trigger sources@[i]]
                    0 <= i < k ==> {
                        &&& sources@[i].0@ == all_planned[i].exchange@
                        &&& sources@[i].1@ == all_planned[i].instrument@
                        &&& all_checked[i] == Ok::<T, ConfigError>(sources@[i].2)
                        &&& opt_text(sources@[i].3) == opt_text(all_planned[i].suffix_topic)
                    },
            decreases rest_planned@.len(),
        {
            let p = rest_planned.remove(0);
            let c = rest_checked.remove(0);
            proof {
                assert(p == all_planned[k]);
                assert(c == all_checked[k]);
                assert(all_planned.skip(k).drop_first() == all_planned.skip(k + 1));
                assert(all_checked.skip(k).drop_first() == all_checked.skip(k + 1));
            }
            match p.plan {
                Err(e) => {
                    proof {
                        assert(planned_outcome(all_planned[k], all_checked[k]) == Err::<T, ConfigError>(e));
                        assert(validated_result(all_planned, all_checked, Err(e)));
                    }
                    return Err(e);
                },
                Ok(_) => {},
            }
            match c {
                Err(e) => {
                    proof {
                        assert(planned_outcome(all_planned[k], all_checked[k]) == Err::<T, ConfigError>(e));
                        assert(validated_result(all_planned, all_checked, Err(e)));
                    }
                    return Err(e);
                },
                Ok(source) => {
                    sources.push((p.exchange, p.instrument, source, p.suffix_topic));
                    proof {
                        k = k + 1;
                    }
                },
            }
        }
        proof {
            assert(all_planned.skip(k).len() == 0);
        }
        Ok(sources)
    }
}

/// A credential set in the configuration is used whatever the environment holds.
pub proof fn lemma_configured_credential_wins(
    configured: Seq<char>,
    exchange: Seq<char>,
    env_value: Option<Seq<char>>,
)
    ensures
        resolved_credential(Some(configured), exchange, env_value) == Some(configured),
{
}

/// Exchanges other than `bitvavo` never take a credential from the environment.
pub proof fn lemma_env_only_for_bitvavo(
    configured: Option<Seq<char>>,
    exchange: Seq<char>,
    env_value: Option<Seq<char>>,
)
    requires
        exchange != "bitvavo"@,
    ensures
        resolved_credential(configured, exchange, env_value) == configured,
{
}

proof fn lemma_lower_white_space(c: char)
    ensures
        is_white_space(ascii_lower(c)) == is_white_space(c),
        ascii_lower(ascii_lower(c)) == ascii_lower(c),
{
    if 'A' <= c && c <= 'Z' {
        let u = c as u32;
        vstd::utf8::char_u32_cast(c, u);
        assert(65 <= u <= 90);
        let l = (u + 32) as char;
        assert((l as u32) == u + 32);
    }
}

proof fn lemma_lower_trim_start(s: Seq<char>)
    ensures
        trim_start(ascii_lowered(s)) == ascii_lowered(trim_start(s)),
    decreases s.len(),
{
    if s.len() > 0 {
        lemma_lower_white_space(s[0]);
        assert(ascii_lowered(s)[0] == ascii_lower(s[0]));
        assert(ascii_lowered(s).drop_first() == ascii_lowered(s.drop_first()));
        lemma_lower_trim_start(s.drop_first());
    } else {
        assert(ascii_lowered(s).len() == 0);
    }
}

proof fn lemma_lower_trim_end(s: Seq<char>)
    ensures
        trim_end(ascii_lowered(s)) == ascii_lowered(trim_end(s)),
    decreases s.len(),
{
    if s.len() > 0 {
        lemma_lower_white_space(s.last());
        assert(ascii_lowered(s).last() == ascii_lower(s.last()));
        assert(ascii_lowered(s).drop_last() == ascii_lowered(s.drop_last()));
        lemma_lower_trim_end(s.drop_last());
    } else {
        assert(ascii_lowered(s).len() == 0);
    }
}

/// The data kind ignores ASCII case: lower-casing the configured text selects
/// the same kind, or fails with the same key.
pub proof fn lemma_data_kind_ignores_case(kind: Seq<char>)
    ensures
        data_kind_key(ascii_lowered(kind)) == data_kind_key(kind),
        data_kind_of(ascii_lowered(kind)) == data_kind_of(kind),
{
    lemma_lower_trim_start(kind);
    lemma_lower_trim_end(trim_start(kind));
    let t = trimmed(kind);
    assert forall|i: int| 0 <= i < t.len() implies #[trigger] ascii_lowered(ascii_lowered(t))[i]
        == ascii_lowered(t)[i] by {
        lemma_lower_white_space(t[i]);
    }
    assert(ascii_lowered(ascii_lowered(t)) == ascii_lowered(t));
}

/// A plan carries each of its source's settings unchanged: the region, the log
/// flags (each from its own field), the silence timeout, and the instrument's
/// symbol and depth limit.
pub proof fn lemma_plan_forwards_settings(
    res: Result<DataSourcePlan, ConfigError>,
    source: SourceConfig,
    exchange: Seq<char>,
    alias: Seq<char>,
    inst: InstrumentConfig,
    env_key: Option<Seq<char>>,
    env_secret: Option<Seq<char>>,
)
    requires
        plan_result_ok(res, source, exchange, alias, inst, env_key, env_secret),
    ensures
        res matches Ok(plan) ==> {
            &&& plan.exchange@ == exchange
            &&& plan.region@ == source.region@
            &&& plan.instrument@ == inst.instrument@
            &&& plan.max_level == inst.max_level
            &&& plan.checksum_log == source.checksum_log
            &&& plan.crossguard_log == source.crossguard_log
            &&& plan.silence_timeout_secs == source.silence_timeout_secs
        },
{
}

/// Overriding with `Some(n)` sets every source's silence timeout to `Some(n)`,
/// whatever it held, and changes nothing else; overriding with `None` changes
/// nothing.
pub proof fn lemma_silence_override(source: SourceConfig, secs: Option<u64>)
    ensures
        secs matches Some(n) ==> {
            let s = with_silence_timeout(source, secs);
            &&& s.silence_timeout_secs == Some(n)
            &&& s.region == source.region
            &&& s.data_kind == source.data_kind
            &&& s.checksum_log == source.checksum_log
            &&& s.crossguard_log == source.crossguard_log
            &&& s.api_key == source.api_key
            &&& s.api_secret == source.api_secret
            &&& s.instruments == source.instruments
        },
        secs is None ==> with_silence_timeout(source, secs) == source,
{
}

} // verus!

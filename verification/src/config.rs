//! Configuration of the proof helper.
use vstd::prelude::*;

use crate::text::{joined, parse_u64, same_text};

verus! {

/// Configuration for the proof helper application.
#[derive(Debug, PartialEq, Eq)]
pub struct ProofHelperConfig {
    /// Storage backend configuration.
    pub storage: StorageConfig,
    /// Logging configuration.
    pub logging: LoggingConfig,
    /// Processing configuration.
    pub processing: ProcessingConfig,
}

/// Storage backend configuration.
#[derive(Debug, PartialEq, Eq)]
pub struct StorageConfig {
    /// Backend type.
    pub backend: StorageBackend,
    /// DynamoDB specific configuration (optional).
    pub dynamodb: Option<DynamoDbConfig>,
    /// SQLite specific configuration (optional).
    pub sqlite: Option<SqliteConfig>,
}

/// Storage backend types.
#[derive(Debug, Clone, Copy, PartialEq, Eq)]
pub enum StorageBackend {
    /// DynamoDB storage.
    DynamoDB,
    /// Embedded SQLite storage.
    SQLite,
}

/// DynamoDB specific configuration.
#[derive(Debug, PartialEq, Eq)]
pub struct DynamoDbConfig {
    /// DynamoDB table name.
    pub branch_table_name: String,
    /// DynamoDB table name.
    pub earliest_block_number_table_name: String,
    /// AWS region.
    pub region: String,
    /// AWS endpoint URL (optional, for DynamoDB Local).
    pub endpoint_url: Option<String>,
    /// Read capacity units for table creation.
    pub read_capacity: Option<u32>,
    /// Write capacity units for table creation.
    pub write_capacity: Option<u32>,
}

/// SQLite specific configuration.
#[derive(Debug, PartialEq, Eq)]
pub struct SqliteConfig {
    /// Path to SQLite database file.
    pub db_path: String,
}

/// Logging configuration.
#[derive(Debug, PartialEq, Eq)]
pub struct LoggingConfig {
    /// Log level: "trace", "debug", "info", "warn", "error".
    pub level: String,
    /// After how many items progress is reported each time.
    pub progress_interval: u64,
}

/// Processing configuration.
#[derive(Debug, PartialEq, Eq)]
pub struct ProcessingConfig {
    /// Maximum number of blocks to process behind head.
    pub max_block_diff: u64,
    /// How many items are written at a time.
    pub batch_size: u64,
}

/// Configuration errors.
#[derive(Debug, PartialEq, Eq)]
pub enum ConfigError {
    FileNotFound(String),
    /// With what reading the file failed.
    ReadError(String),
    /// With what parsing the file failed.
    ParseError(String),
    ValidationError(String),
    EnvError(String),
}

/// Configuration result type.
pub type ConfigResult<T> = Result<T, ConfigError>;

/// The contents of a [`ConfigError`].
pub enum ConfigErrorView {
    FileNotFound(Seq<char>),
    Read(Seq<char>),
    Parse(Seq<char>),
    Validation(Seq<char>),
    Env(Seq<char>),
}

impl View for ConfigError {
    type V = ConfigErrorView;

    open spec fn view(&self) -> ConfigErrorView {
        match *self {
            ConfigError::FileNotFound(detail) => ConfigErrorView::FileNotFound(detail@),
            ConfigError::ReadError(detail) => ConfigErrorView::Read(detail@),
            ConfigError::ParseError(detail) => ConfigErrorView::Parse(detail@),
            ConfigError::ValidationError(detail) => ConfigErrorView::Validation(detail@),
            ConfigError::EnvError(detail) => ConfigErrorView::Env(detail@),
        }
    }
}

/// The text of a configuration error.
pub open spec fn config_error_text(error: ConfigErrorView) -> Seq<char> {
    match error {
        ConfigErrorView::FileNotFound(detail) => "Configuration file not found: "@ + detail,
        ConfigErrorView::Read(detail) => "Failed to read configuration file: "@ + detail,
        ConfigErrorView::Parse(detail) => "Failed to parse configuration: "@ + detail,
        ConfigErrorView::Validation(detail) => "Invalid configuration: "@ + detail,
        ConfigErrorView::Env(detail) => "Environment variable error: "@ + detail,
    }
}

impl ConfigError {
    /// The text of this error.
    pub fn message(&self) -> (r: String)
        ensures
            match *self {
                ConfigError::FileNotFound(detail) => r@ == "Configuration file not found: "@
                    + detail@,
                ConfigError::ReadError(detail) => r@ == "Failed to read configuration file: "@
                    + detail@,
                ConfigError::ParseError(detail) => r@ == "Failed to parse configuration: "@
                    + detail@,
                ConfigError::ValidationError(detail) => r@ == "Invalid configuration: "@ + detail@,
                ConfigError::EnvError(detail) => r@ == "Environment variable error: "@ + detail@,
            },
            r@ == config_error_text(self@),
    {
        match self {
            ConfigError::FileNotFound(detail) => joined(
                "Configuration file not found: ",
                detail.as_str(),
            ),
            ConfigError::ReadError(detail) => joined(
                "Failed to read configuration file: ",
                detail.as_str(),
            ),
            ConfigError::ParseError(detail) => joined(
                "Failed to parse configuration: ",
                detail.as_str(),
            ),
            ConfigError::ValidationError(detail) => joined(
                "Invalid configuration: ",
                detail.as_str(),
            ),
            ConfigError::EnvError(detail) => joined(
                "Environment variable error: ",
                detail.as_str(),
            ),
        }
    }
}

/// The contents of a [`DynamoDbConfig`].
#[verifier::ext_equal]
pub struct DynamoDbView {
    pub branch_table_name: Seq<char>,
    pub earliest_block_number_table_name: Seq<char>,
    pub region: Seq<char>,
    pub endpoint_url: Option<Seq<char>>,
    pub read_capacity: Option<u32>,
    pub write_capacity: Option<u32>,
}

/// The text of an optional string.
pub open spec fn text_view(text: Option<String>) -> Option<Seq<char>> {
    match text {
        Some(t) => Some(t@),
        None => None,
    }
}

impl View for DynamoDbConfig {
    type V = DynamoDbView;

    open spec fn view(&self) -> DynamoDbView {
        DynamoDbView {
            branch_table_name: self.branch_table_name@,
            earliest_block_number_table_name: self.earliest_block_number_table_name@,
            region: self.region@,
            endpoint_url: text_view(self.endpoint_url),
            read_capacity: self.read_capacity,
            write_capacity: self.write_capacity,
        }
    }
}

/// The contents of a [`ProofHelperConfig`].
#[verifier::ext_equal]
pub struct ConfigView {
    pub backend: StorageBackend,
    /// The DynamoDB table and where it is, if it is configured.
    pub dynamodb: Option<DynamoDbView>,
    /// The path of the SQLite database, if it is configured.
    pub db_path: Option<Seq<char>>,
    pub level: Seq<char>,
    pub progress_interval: u64,
    pub max_block_diff: u64,
    pub batch_size: u64,
}

impl View for ProofHelperConfig {
    type V = ConfigView;

    open spec fn view(&self) -> ConfigView {
        ConfigView {
            backend: self.storage.backend,
            dynamodb: match self.storage.dynamodb {
                Some(dynamodb) => Some(dynamodb@),
                None => None,
            },
            db_path: match self.storage.sqlite {
                Some(sqlite) => Some(sqlite.db_path@),
                None => None,
            },
            level: self.logging.level@,
            progress_interval: self.logging.progress_interval,
            max_block_diff: self.processing.max_block_diff,
            batch_size: self.processing.batch_size,
        }
    }
}

/// The values of the environment variables that override the configuration, where they are
/// set.
#[derive(Debug, Default, PartialEq, Eq)]
pub struct EnvOverrides {
    /// `PROOF_HELPER_STORAGE_BACKEND`.
    pub storage_backend: Option<String>,
    /// `PROOF_HELPER_DYNAMODB_TABLE_NAME`.
    pub dynamodb_table_name: Option<String>,
    /// `PROOF_HELPER_DYNAMODB_REGION`.
    pub dynamodb_region: Option<String>,
    /// `PROOF_HELPER_DYNAMODB_ENDPOINT_URL`.
    pub dynamodb_endpoint_url: Option<String>,
    /// `PROOF_HELPER_SQLITE_DB_PATH`.
    pub sqlite_db_path: Option<String>,
    /// `PROOF_HELPER_LOG_LEVEL`.
    pub log_level: Option<String>,
    /// `PROOF_HELPER_PROGRESS_INTERVAL`.
    pub progress_interval: Option<String>,
    /// `PROOF_HELPER_MAX_BLOCK_DIFF`.
    pub max_block_diff: Option<String>,
    /// `PROOF_HELPER_BATCH_SIZE`.
    pub batch_size: Option<String>,
}

/// What `text` is in lower case.
pub uninterp spec fn lowercase_of(text: Seq<char>) -> Seq<char>;

/// An ASCII character in lower case.
pub open spec fn ascii_lower(c: char) -> char {
    if 'A' <= c <= 'Z' {
        (c as u32 + 32) as char
    } else {
        c
    }
}

/// A text of ASCII characters in lower case.
pub open spec fn ascii_lowered(text: Seq<char>) -> Seq<char> {
    text.map_values(|c: char| ascii_lower(c))
}

/// A text in lower case, by `str::to_lowercase`.
///
/// Trusted: that the result depends on the text alone, and that of a text of ASCII characters
/// each capital letter becomes the small one and all else stays.
#[verifier::external_body]
fn lowercase(text: &str) -> (r: String)
    ensures
        r@ == lowercase_of(text@),
        vstd::utf8::is_ascii_chars(text@) ==> r@ == ascii_lowered(text@),
{
    text.to_lowercase()
}

/// The backend that a name in lower case stands for.
pub open spec fn backend_named(lowered: Seq<char>) -> Option<StorageBackend> {
    if lowered == "dynamodb"@ {
        Some(StorageBackend::DynamoDB)
    } else if lowered == "sqlite"@ {
        Some(StorageBackend::SQLite)
    } else {
        None
    }
}

/// Whether a name in lower case is one of a log level.
pub open spec fn is_level_name(lowered: Seq<char>) -> bool {
    ||| lowered == "trace"@
    ||| lowered == "debug"@
    ||| lowered == "info"@
    ||| lowered == "warn"@
    ||| lowered == "error"@
}

/// The backend that a name in lower case stands for.
pub fn backend_from_name(lowered: &str) -> (r: Option<StorageBackend>)
    ensures
        r == Some(StorageBackend::DynamoDB) <==> lowered@ == "dynamodb"@,
        r == Some(StorageBackend::SQLite) <==> lowered@ == "sqlite"@,
        r == backend_named(lowered@),
{
    proof {
        reveal_strlit("dynamodb");
        reveal_strlit("sqlite");
        assert("dynamodb"@.len() != "sqlite"@.len());
    }
    if same_text(lowered, "dynamodb") {
        Some(StorageBackend::DynamoDB)
    } else if same_text(lowered, "sqlite") {
        Some(StorageBackend::SQLite)
    } else {
        None
    }
}

/// Whether a name in lower case is one of a log level.
pub fn is_log_level(lowered: &str) -> (r: bool)
    ensures
        r == is_level_name(lowered@),
{
    same_text(lowered, "trace") || same_text(lowered, "debug") || same_text(lowered, "info")
        || same_text(lowered, "warn") || same_text(lowered, "error")
}

/// What is wrong with a configuration, if anything is: given its log level in lower case.
pub open spec fn config_fault(config: ConfigView, lowered_level: Seq<char>) -> Option<
    ConfigErrorView,
> {
    if !is_level_name(lowered_level) {
        Some(ConfigErrorView::Validation("Invalid log level: "@ + config.level))
    } else if config.max_block_diff == 0 {
        Some(ConfigErrorView::Validation("Max block diff must be greater than 0"@))
    } else {
        None
    }
}

/// A setting with its override, if there is one.
pub open spec fn text_override(text: Option<String>, setting: Seq<char>) -> Seq<char> {
    match text {
        Some(t) => t@,
        None => setting,
    }
}

/// A number with its override, if there is one, or nothing if the override is no number.
pub open spec fn number_override(text: Option<String>, setting: u64) -> Option<u64> {
    match text {
        Some(t) => if crate::text::is_u64_text(t@) {
            Some(crate::text::number(crate::text::unsigned_part(t@)) as u64)
        } else {
            None
        },
        None => Some(setting),
    }
}

/// The DynamoDB table with its overrides. An override of a table that is not configured is one
/// of the default.
pub open spec fn dynamodb_override(env: EnvOverrides, dynamodb: Option<DynamoDbView>) -> Option<
    DynamoDbView,
> {
    if env.dynamodb_table_name is None && env.dynamodb_region is None
        && env.dynamodb_endpoint_url is None {
        dynamodb
    } else {
        let table = match dynamodb {
            Some(configured) => configured,
            None => default_dynamodb(),
        };
        Some(
            DynamoDbView {
                branch_table_name: text_override(env.dynamodb_table_name, table.branch_table_name),
                region: text_override(env.dynamodb_region, table.region),
                endpoint_url: match env.dynamodb_endpoint_url {
                    Some(url) => Some(url@),
                    None => table.endpoint_url,
                },
                ..table
            },
        )
    }
}

/// A configuration with the overrides of texts.
pub open spec fn with_texts(
    config: ConfigView,
    env: EnvOverrides,
    lowered_backend: Seq<char>,
) -> ConfigView {
    ConfigView {
        backend: if env.storage_backend is Some {
            backend_named(lowered_backend)->0
        } else {
            config.backend
        },
        dynamodb: dynamodb_override(env, config.dynamodb),
        db_path: match env.sqlite_db_path {
            Some(db_path) => Some(db_path@),
            None => config.db_path,
        },
        level: text_override(env.log_level, config.level),
        ..config
    }
}

/// What overriding makes of a configuration, and what is wrong with an override, if anything
/// is: given the name of the backend in lower case. A bad backend changes nothing. Of the
/// numbers, which come last, a bad one leaves itself and those after it as they were.
pub open spec fn override_outcome(
    config: ConfigView,
    env: EnvOverrides,
    lowered_backend: Seq<char>,
) -> (ConfigView, Option<ConfigErrorView>) {
    if env.storage_backend is Some && backend_named(lowered_backend) is None {
        (
            config,
            Some(ConfigErrorView::Env("Invalid storage backend: "@ + env.storage_backend->0@)),
        )
    } else {
        let texts = with_texts(config, env, lowered_backend);
        match number_override(env.progress_interval, config.progress_interval) {
            None => (texts, Some(ConfigErrorView::Env("Invalid progress interval"@))),
            Some(progress_interval) => {
                let logging = ConfigView { progress_interval, ..texts };
                match number_override(env.max_block_diff, config.max_block_diff) {
                    None => (logging, Some(ConfigErrorView::Env("Invalid max block diff"@))),
                    Some(max_block_diff) => {
                        let bounded = ConfigView { max_block_diff, ..logging };
                        match number_override(env.batch_size, config.batch_size) {
                            None => (bounded, Some(ConfigErrorView::Env("Invalid batch size"@))),
                            Some(batch_size) => (ConfigView { batch_size, ..bounded }, None),
                        }
                    },
                }
            },
        }
    }
}

/// The name of the backend in lower case, where it is given.
pub open spec fn lowered_backend(env: EnvOverrides) -> Seq<char> {
    match env.storage_backend {
        Some(name) => lowercase_of(name@),
        None => Seq::empty(),
    }
}

/// Whether the name of the backend, where it is given, is of ASCII characters.
pub open spec fn ascii_backend(env: EnvOverrides) -> bool {
    env.storage_backend is Some ==> vstd::utf8::is_ascii_chars(env.storage_backend->0@)
}

/// The name of the backend in lower case, where it is given in ASCII characters.
pub open spec fn ascii_lowered_backend(env: EnvOverrides) -> Seq<char> {
    match env.storage_backend {
        Some(name) => ascii_lowered(name@),
        None => Seq::empty(),
    }
}

/// What came of loading the configuration, given the name of the backend and the log level in
/// lower case.
pub open spec fn is_loaded(
    env: EnvOverrides,
    lowered_backend: Seq<char>,
    lowered: spec_fn(Seq<char>) -> Seq<char>,
    loaded: ConfigResult<ProofHelperConfig>,
) -> bool {
    let (config, fault) = override_outcome(default_config(), env, lowered_backend);
    match fault {
        Some(error) => loaded is Err && loaded->Err_0@ == error,
        None => match config_fault(config, lowered(config.level)) {
            Some(error) => loaded is Err && loaded->Err_0@ == error,
            None => loaded is Ok && loaded->Ok_0@ == config,
        },
    }
}

/// Whether nothing is overridden.
pub open spec fn no_overrides(env: EnvOverrides) -> bool {
    &&& env.storage_backend is None
    &&& env.dynamodb_table_name is None
    &&& env.dynamodb_region is None
    &&& env.dynamodb_endpoint_url is None
    &&& env.sqlite_db_path is None
    &&& env.log_level is None
    &&& env.progress_interval is None
    &&& env.max_block_diff is None
    &&& env.batch_size is None
}

/// The DynamoDB table, where nothing else is configured.
pub open spec fn default_dynamodb() -> DynamoDbView {
    DynamoDbView {
        branch_table_name: "proof-helper-preimages"@,
        earliest_block_number_table_name: "proof-helper-preimages-earliest-block-number"@,
        region: "us-east-1"@,
        endpoint_url: None,
        read_capacity: Some(5u32),
        write_capacity: Some(5u32),
    }
}

/// The configuration without overrides.
pub open spec fn default_config() -> ConfigView {
    ConfigView {
        backend: StorageBackend::SQLite,
        dynamodb: None,
        db_path: None,
        level: "info"@,
        progress_interval: 100,
        max_block_diff: 2000,
        batch_size: 25,
    }
}

/// A number with its override, if there is one, or nothing if the override is no number.
fn overridden_number(text: &Option<String>, setting: u64) -> (r: Option<u64>)
    ensures
        r == number_override(*text, setting),
{
    match text {
        Some(t) => parse_u64(t.as_str()),
        None => Some(setting),
    }
}

impl ProofHelperConfig {
    /// Load configuration from environment variables only.
    pub fn load_from_env(env: &EnvOverrides) -> (r: ConfigResult<Self>)
        ensures
            is_loaded(*env, lowered_backend(*env), |text: Seq<char>| lowercase_of(text), r),
            ascii_backend(*env) && vstd::utf8::is_ascii_chars(
                override_outcome(default_config(), *env, ascii_lowered_backend(*env)).0.level,
            ) ==> is_loaded(
                *env,
                ascii_lowered_backend(*env),
                |text: Seq<char>| ascii_lowered(text),
                r,
            ),
            no_overrides(*env) ==> r is Ok && r->Ok_0@ == default_config(),
    {
        proof {
            reveal_strlit("info");
            assert(vstd::utf8::is_ascii_chars("info"@));
            assert(ascii_lowered("info"@) =~= "info"@);
        }
        let mut config = Self::default();
        match config.apply_env_overrides(env) {
            Ok(_) => match config.validate() {
                Ok(_) => Ok(config),
                Err(error) => Err(error),
            },
            Err(error) => Err(error),
        }
    }

    /// Apply environment variable overrides.
    pub fn apply_env_overrides(&mut self, env: &EnvOverrides) -> (r: ConfigResult<()>)
        ensures
            ({
                let (config, fault) = override_outcome(old(self)@, *env, lowered_backend(*env));
                &&& final(self)@ == config
                &&& match fault {
                    Some(error) => r is Err && r->Err_0@ == error,
                    None => r is Ok,
                }
            }),
            ascii_backend(*env) ==> lowered_backend(*env) == ascii_lowered_backend(*env),
    {
        let lowered = match &env.storage_backend {
            Some(name) => lowercase(name.as_str()),
            None => String::new(),
        };
        self.apply_overrides(env, lowered.as_str())
    }

    /// Apply overrides, given the name of the backend in lower case.
    pub fn apply_overrides(&mut self, env: &EnvOverrides, lowered_backend: &str) -> (r: ConfigResult<
        (),
    >)
        ensures
            ({
                let (config, fault) = override_outcome(old(self)@, *env, lowered_backend@);
                &&& final(self)@ == config
                &&& match fault {
                    Some(error) => r is Err && r->Err_0@ == error,
                    None => r is Ok,
                }
            }),
    {
        if let Some(name) = &env.storage_backend {
            match backend_from_name(lowered_backend) {
                Some(backend) => {
                    self.storage.backend = backend;
                },
                None => {
                    return Err(
                        ConfigError::EnvError(joined("Invalid storage backend: ", name.as_str())),
                    );
                },
            }
        }
        self.apply_dynamodb_overrides(env);
        if let Some(db_path) = &env.sqlite_db_path {
            self.storage.sqlite = Some(SqliteConfig { db_path: db_path.clone() });
        }
        if let Some(level) = &env.log_level {
            self.logging.level = level.clone();
        }
        match overridden_number(&env.progress_interval, self.logging.progress_interval) {
            Some(progress_interval) => {
                self.logging.progress_interval = progress_interval;
            },
            None => {
                return Err(ConfigError::EnvError("Invalid progress interval".to_owned()));
            },
        }
        match overridden_number(&env.max_block_diff, self.processing.max_block_diff) {
            Some(max_block_diff) => {
                self.processing.max_block_diff = max_block_diff;
            },
            None => {
                return Err(ConfigError::EnvError("Invalid max block diff".to_owned()));
            },
        }
        match overridden_number(&env.batch_size, self.processing.batch_size) {
            Some(batch_size) => {
                self.processing.batch_size = batch_size;
            },
            None => {
                return Err(ConfigError::EnvError("Invalid batch size".to_owned()));
            },
        }
        Ok(())
    }

    /// Apply the overrides of the DynamoDB table.
    fn apply_dynamodb_overrides(&mut self, env: &EnvOverrides)
        ensures
            final(self)@ == (ConfigView {
                dynamodb: dynamodb_override(*env, old(self)@.dynamodb),
                ..old(self)@
            }),
    {
        if env.dynamodb_table_name.is_none() && env.dynamodb_region.is_none()
            && env.dynamodb_endpoint_url.is_none() {
            return ;
        }
        let mut table = match &self.storage.dynamodb {
            Some(configured) => configured.clone(),
            None => DynamoDbConfig::default(),
        };
        if let Some(name) = &env.dynamodb_table_name {
            table.branch_table_name = name.clone();
        }
        if let Some(region) = &env.dynamodb_region {
            table.region = region.clone();
        }
        if let Some(url) = &env.dynamodb_endpoint_url {
            table.endpoint_url = Some(url.clone());
        }
        self.storage.dynamodb = Some(table);
    }

    /// Validate configuration.
    pub fn validate(&self) -> (r: ConfigResult<()>)
        ensures
            match config_fault(self@, lowercase_of(self@.level)) {
                Some(error) => r is Err && r->Err_0@ == error,
                None => r is Ok,
            },
            vstd::utf8::is_ascii_chars(self@.level) ==> lowercase_of(self@.level) == ascii_lowered(
                self@.level,
            ),
    {
        let lowered = lowercase(self.logging.level.as_str());
        self.validate_level(lowered.as_str())
    }

    /// Validate configuration, given the log level in lower case.
    pub fn validate_level(&self, lowered_level: &str) -> (r: ConfigResult<()>)
        ensures
            match config_fault(self@, lowered_level@) {
                Some(error) => r is Err && r->Err_0@ == error,
                None => r is Ok,
            },
    {
        if !is_log_level(lowered_level) {
            return Err(
                ConfigError::ValidationError(
                    joined("Invalid log level: ", self.logging.level.as_str()),
                ),
            );
        }
        if self.processing.max_block_diff == 0 {
            return Err(
                ConfigError::ValidationError("Max block diff must be greater than 0".to_owned()),
            );
        }
        Ok(())
    }
}

impl Default for ProofHelperConfig {
    fn default() -> (r: Self)
        ensures
            r@ == default_config(),
    {
        Self {
            storage: StorageConfig {
                backend: StorageBackend::SQLite,
                dynamodb: None,
                sqlite: None,
            },
            logging: LoggingConfig { level: "info".to_owned(), progress_interval: 100 },
            processing: ProcessingConfig { max_block_diff: 2000, batch_size: 25 },
        }
    }
}

impl Default for DynamoDbConfig {
    fn default() -> (r: Self)
        ensures
            r@ == default_dynamodb(),
    {
        Self {
            branch_table_name: "proof-helper-preimages".to_owned(),
            earliest_block_number_table_name: "proof-helper-preimages-earliest-block-number".to_owned(),
            region: "us-east-1".to_owned(),
            endpoint_url: None,
            read_capacity: Some(5),
            write_capacity: Some(5),
        }
    }
}

impl Default for SqliteConfig {
    fn default() -> (r: Self)
        ensures
            r.db_path@ == "proof-helper.db"@,
    {
        Self { db_path: "proof-helper.db".to_owned() }
    }
}

impl Clone for SqliteConfig {
    fn clone(&self) -> (r: Self)
        ensures
            r == *self,
    {
        Self { db_path: self.db_path.clone() }
    }
}

impl Clone for DynamoDbConfig {
    fn clone(&self) -> (r: Self)
        ensures
            r == *self,
    {
        Self {
            branch_table_name: self.branch_table_name.clone(),
            earliest_block_number_table_name: self.earliest_block_number_table_name.clone(),
            region: self.region.clone(),
            endpoint_url: match &self.endpoint_url {
                Some(url) => Some(url.clone()),
                None => None,
            },
            read_capacity: self.read_capacity,
            write_capacity: self.write_capacity,
        }
    }
}

impl Clone for StorageConfig {
    fn clone(&self) -> (r: Self)
        ensures
            r == *self,
    {
        Self {
            backend: self.backend,
            dynamodb: match &self.dynamodb {
                Some(dynamodb) => Some(dynamodb.clone()),
                None => None,
            },
            sqlite: match &self.sqlite {
                Some(sqlite) => Some(sqlite.clone()),
                None => None,
            },
        }
    }
}

impl Clone for LoggingConfig {
    fn clone(&self) -> (r: Self)
        ensures
            r == *self,
    {
        Self { level: self.level.clone(), progress_interval: self.progress_interval }
    }
}

impl Clone for ProcessingConfig {
    fn clone(&self) -> (r: Self)
        ensures
            r == *self,
    {
        Self { max_block_diff: self.max_block_diff, batch_size: self.batch_size }
    }
}

impl Clone for ProofHelperConfig {
    fn clone(&self) -> (r: Self)
        ensures
            r == *self,
    {
        Self {
            storage: self.storage.clone(),
            logging: self.logging.clone(),
            processing: self.processing.clone(),
        }
    }
}

/// What each override does. A backend that is none is refused and changes nothing. Otherwise every
/// setting that is overridden has its override from then on, and every other one stays as it was.
/// Numbers are taken in order up to the first that is none, which is reported.
pub proof fn law_overrides(config: ConfigView, env: EnvOverrides, lowered_backend: Seq<char>)
    ensures
        ({
            let (after, fault) = override_outcome(config, env, lowered_backend);
            let backend_ok = env.storage_backend is None || lowered_backend == "dynamodb"@
                || lowered_backend == "sqlite"@;
            let progress_ok = env.progress_interval is None || crate::text::is_u64_text(
                env.progress_interval->0@,
            );
            let diff_ok = env.max_block_diff is None || crate::text::is_u64_text(
                env.max_block_diff->0@,
            );
            let batch_ok = env.batch_size is None || crate::text::is_u64_text(env.batch_size->0@);
            &&& !backend_ok ==> after == config && fault == Some(
                ConfigErrorView::Env("Invalid storage backend: "@ + env.storage_backend->0@),
            )
            &&& backend_ok ==> {
                &&& env.storage_backend is None ==> after.backend == config.backend
                &&& env.storage_backend is Some && lowered_backend == "dynamodb"@ ==> after.backend
                    == StorageBackend::DynamoDB
                &&& env.storage_backend is Some && lowered_backend == "sqlite"@ ==> after.backend
                    == StorageBackend::SQLite
                &&& env.sqlite_db_path is Some ==> after.db_path == Some(env.sqlite_db_path->0@)
                &&& env.sqlite_db_path is None ==> after.db_path == config.db_path
                &&& env.log_level is Some ==> after.level == env.log_level->0@
                &&& env.log_level is None ==> after.level == config.level
                &&& fault is None <==> progress_ok && diff_ok && batch_ok
                &&& !progress_ok ==> fault == Some(
                    ConfigErrorView::Env("Invalid progress interval"@),
                )
                &&& progress_ok && !diff_ok ==> fault == Some(
                    ConfigErrorView::Env("Invalid max block diff"@),
                )
                &&& progress_ok && diff_ok && !batch_ok ==> fault == Some(
                    ConfigErrorView::Env("Invalid batch size"@),
                )
                &&& after.progress_interval == (if progress_ok && env.progress_interval is Some {
                    crate::text::number(crate::text::unsigned_part(env.progress_interval->0@))
                } else {
                    config.progress_interval as nat
                })
                &&& after.max_block_diff == (if progress_ok && diff_ok
                    && env.max_block_diff is Some {
                    crate::text::number(crate::text::unsigned_part(env.max_block_diff->0@))
                } else {
                    config.max_block_diff as nat
                })
                &&& after.batch_size == (if progress_ok && diff_ok && batch_ok
                    && env.batch_size is Some {
                    crate::text::number(crate::text::unsigned_part(env.batch_size->0@))
                } else {
                    config.batch_size as nat
                })
            }
        }),
{
    reveal_strlit("dynamodb");
    reveal_strlit("sqlite");
    assert("dynamodb"@.len() != "sqlite"@.len());
}

/// What the overrides of the DynamoDB table do: without any the table stays as it is configured.
/// With one it is the configured table, or the default one where none is, with each setting that is
/// overridden as it is given.
pub proof fn law_dynamodb_overrides(
    config: ConfigView,
    env: EnvOverrides,
    lowered_backend: Seq<char>,
)
    requires
        env.storage_backend is None || lowered_backend == "dynamodb"@ || lowered_backend
            == "sqlite"@,
    ensures
        ({
            let after = override_outcome(config, env, lowered_backend).0.dynamodb;
            let before = match config.dynamodb {
                Some(table) => table,
                None => default_dynamodb(),
            };
            &&& env.dynamodb_table_name is None && env.dynamodb_region is None
                && env.dynamodb_endpoint_url is None ==> after == config.dynamodb
            &&& env.dynamodb_table_name is Some || env.dynamodb_region is Some
                || env.dynamodb_endpoint_url is Some ==> {
                &&& after is Some
                &&& after->0.branch_table_name == (match env.dynamodb_table_name {
                    Some(name) => name@,
                    None => before.branch_table_name,
                })
                &&& after->0.region == (match env.dynamodb_region {
                    Some(region) => region@,
                    None => before.region,
                })
                &&& after->0.endpoint_url == (match env.dynamodb_endpoint_url {
                    Some(url) => Some(url@),
                    None => before.endpoint_url,
                })
                &&& after->0.earliest_block_number_table_name
                    == before.earliest_block_number_table_name
                &&& after->0.read_capacity == before.read_capacity
                &&& after->0.write_capacity == before.write_capacity
            }
        }),
{
    reveal_strlit("dynamodb");
    reveal_strlit("sqlite");
    assert("dynamodb"@.len() != "sqlite"@.len());
}

/// The settings of a configuration are its contents, none left out.
pub proof fn law_config_contents(config: ProofHelperConfig, table: DynamoDbConfig)
    ensures
        config@.backend == config.storage.backend,
        config.storage.dynamodb is None ==> config@.dynamodb is None,
        config.storage.dynamodb is Some ==> config@.dynamodb == Some(config.storage.dynamodb->0@),
        config.storage.sqlite is None ==> config@.db_path is None,
        config.storage.sqlite is Some ==> config@.db_path == Some(config.storage.sqlite->0.db_path@),
        config@.level == config.logging.level@,
        config@.progress_interval == config.logging.progress_interval,
        config@.max_block_diff == config.processing.max_block_diff,
        config@.batch_size == config.processing.batch_size,
        table@.branch_table_name == table.branch_table_name@,
        table@.earliest_block_number_table_name == table.earliest_block_number_table_name@,
        table@.region == table.region@,
        table.endpoint_url is Some ==> table@.endpoint_url == Some(table.endpoint_url->0@),
        table.endpoint_url is None ==> table@.endpoint_url is None,
        table@.read_capacity == table.read_capacity,
        table@.write_capacity == table.write_capacity,
{
}

/// What is loaded has a log level that there is and a number of blocks above zero, and is the
/// default configuration with the overrides. Anything else is an error: of the first override that
/// is wrong, then of the level, then of the number.
pub proof fn law_loaded(
    env: EnvOverrides,
    lowered_backend: Seq<char>,
    lowered: spec_fn(Seq<char>) -> Seq<char>,
    loaded: ConfigResult<ProofHelperConfig>,
)
    requires
        is_loaded(env, lowered_backend, lowered, loaded),
    ensures
        ({
            let (config, fault) = override_outcome(default_config(), env, lowered_backend);
            let level = lowered(config.level);
            let level_ok = level == "trace"@ || level == "debug"@ || level == "info"@ || level
                == "warn"@ || level == "error"@;
            &&& loaded is Ok <==> fault is None && level_ok && config.max_block_diff > 0
            &&& loaded is Ok ==> loaded->Ok_0@ == config
            &&& fault is Some ==> loaded->Err_0@ == fault->0
            &&& fault is None && !level_ok ==> loaded->Err_0@ == ConfigErrorView::Validation(
                "Invalid log level: "@ + config.level,
            )
            &&& fault is None && level_ok && config.max_block_diff == 0 ==> loaded->Err_0@
                == ConfigErrorView::Validation("Max block diff must be greater than 0"@)
        }),
{
}

/// A configuration is sound exactly if its level is one that there is and its number of blocks is
/// above zero.
pub proof fn law_sound_configuration(config: ConfigView, lowered_level: Seq<char>)
    ensures
        ({
            let level_ok = lowered_level == "trace"@ || lowered_level == "debug"@ || lowered_level
                == "info"@ || lowered_level == "warn"@ || lowered_level == "error"@;
            &&& is_level_name(lowered_level) <==> level_ok
            &&& config_fault(config, lowered_level) is None <==> level_ok && config.max_block_diff
                > 0
            &&& !level_ok ==> config_fault(config, lowered_level) == Some(
                ConfigErrorView::Validation("Invalid log level: "@ + config.level),
            )
            &&& level_ok && config.max_block_diff == 0 ==> config_fault(config, lowered_level)
                == Some(ConfigErrorView::Validation("Max block diff must be greater than 0"@))
        }),
{
}

/// Without overrides the configuration is the default one, which uses SQLite without a path.
pub proof fn law_default_configuration(env: EnvOverrides)
    ensures
        no_overrides(env) <==> env.storage_backend is None && env.dynamodb_table_name is None
            && env.dynamodb_region is None && env.dynamodb_endpoint_url is None
            && env.sqlite_db_path is None && env.log_level is None && env.progress_interval is None
            && env.max_block_diff is None && env.batch_size is None,
        default_config().backend == StorageBackend::SQLite,
        default_config().dynamodb is None,
        default_config().db_path is None,
        default_config().level == "info"@,
        default_config().progress_interval == 100,
        default_config().max_block_diff == 2000,
        default_config().batch_size == 25,
        default_dynamodb().branch_table_name == "proof-helper-preimages"@,
        default_dynamodb().earliest_block_number_table_name
            == "proof-helper-preimages-earliest-block-number"@,
        default_dynamodb().region == "us-east-1"@,
        default_dynamodb().endpoint_url is None,
        default_dynamodb().read_capacity == Some(5u32),
        default_dynamodb().write_capacity == Some(5u32),
{
}

/// In ASCII only capital letters have another lower case, and the text keeps its length and order.
pub proof fn law_ascii_lower_case(text: Seq<char>, env: EnvOverrides)
    ensures
        ascii_lowered(text).len() == text.len(),
        forall|i: int|
            0 <= i < text.len() && 'A' <= (#[trigger] text[i]) <= 'Z' ==> ascii_lowered(text)[i] as int
                == text[i] as int + 32,
        forall|i: int|
            0 <= i < text.len() && !('A' <= (#[trigger] text[i]) <= 'Z') ==> ascii_lowered(text)[i]
                == text[i],
        env.storage_backend is Some ==> lowered_backend(env) == lowercase_of(
            env.storage_backend->0@,
        ) && ascii_lowered_backend(env) == ascii_lowered(env.storage_backend->0@) && (ascii_backend(
            env,
        ) <==> vstd::utf8::is_ascii_chars(env.storage_backend->0@)),
{
}

/// The text of a configuration error says its kind and its detail, and its contents are these.
pub proof fn law_config_error_texts(detail: Seq<char>, error: ConfigError)
    ensures
        config_error_text(ConfigErrorView::FileNotFound(detail))
            == "Configuration file not found: "@ + detail,
        config_error_text(ConfigErrorView::Read(detail)) == "Failed to read configuration file: "@
            + detail,
        config_error_text(ConfigErrorView::Parse(detail)) == "Failed to parse configuration: "@
            + detail,
        config_error_text(ConfigErrorView::Validation(detail)) == "Invalid configuration: "@
            + detail,
        config_error_text(ConfigErrorView::Env(detail)) == "Environment variable error: "@ + detail,
        match error {
            ConfigError::FileNotFound(text) => error@ == ConfigErrorView::FileNotFound(text@),
            ConfigError::ReadError(text) => error@ == ConfigErrorView::Read(text@),
            ConfigError::ParseError(text) => error@ == ConfigErrorView::Parse(text@),
            ConfigError::ValidationError(text) => error@ == ConfigErrorView::Validation(text@),
            ConfigError::EnvError(text) => error@ == ConfigErrorView::Env(text@),
        },
{
}

} // verus!

use proof_helper::config::{
    backend_from_name, is_log_level, ConfigError, DynamoDbConfig, EnvOverrides, ProofHelperConfig,
    SqliteConfig, StorageBackend,
};
use proof_helper::helper::{create_storage, storage_created, storage_healthy, StorageLocation};
use proof_helper::storage::{DatabaseError, ExternalStorageError};

fn nothing() -> EnvOverrides {
    EnvOverrides {
        storage_backend: None,
        dynamodb_table_name: None,
        dynamodb_region: None,
        dynamodb_endpoint_url: None,
        sqlite_db_path: None,
        log_level: None,
        progress_interval: None,
        max_block_diff: None,
        batch_size: None,
    }
}

fn text(s: &str) -> Option<String> {
    Some(s.to_string())
}

#[test]
fn defaults() {
    let config = ProofHelperConfig::load_from_env(&nothing()).unwrap();
    assert_eq!(config, ProofHelperConfig::default());
    assert_eq!(config.storage.backend, StorageBackend::SQLite);
    assert_eq!(config.storage.dynamodb, None);
    assert_eq!(config.storage.sqlite, None);
    assert_eq!(config.logging.level, "info");
    assert_eq!(config.logging.progress_interval, 100);
    assert_eq!(config.processing.max_block_diff, 2000);
    assert_eq!(config.processing.batch_size, 25);
    assert_eq!(SqliteConfig::default().db_path, "proof-helper.db");
    let dynamodb = DynamoDbConfig::default();
    assert_eq!(dynamodb.branch_table_name, "proof-helper-preimages");
    assert_eq!(
        dynamodb.earliest_block_number_table_name,
        "proof-helper-preimages-earliest-block-number"
    );
    assert_eq!(dynamodb.region, "us-east-1");
    assert_eq!(dynamodb.endpoint_url, None);
    assert_eq!(dynamodb.read_capacity, Some(5));
    assert_eq!(dynamodb.write_capacity, Some(5));
}

#[test]
fn environment_overrides() {
    let config = ProofHelperConfig::load_from_env(&EnvOverrides {
        storage_backend: text("SQLite"),
        sqlite_db_path: text("/data/p.db"),
        log_level: text("DEBUG"),
        max_block_diff: text("500"),
        ..nothing()
    })
    .unwrap();
    assert_eq!(config.storage.backend, StorageBackend::SQLite);
    assert_eq!(config.storage.sqlite.unwrap().db_path, "/data/p.db");
    // the level is kept as it was given
    assert_eq!(config.logging.level, "DEBUG");
    assert_eq!(config.processing.max_block_diff, 500);
}

#[test]
fn bad_overrides() {
    let loaded = ProofHelperConfig::load_from_env;
    assert_eq!(
        loaded(&EnvOverrides { storage_backend: text("Mongo"), ..nothing() }),
        Err(ConfigError::EnvError("Invalid storage backend: Mongo".to_string()))
    );
    assert_eq!(
        loaded(&EnvOverrides { max_block_diff: text("many"), ..nothing() }),
        Err(ConfigError::EnvError("Invalid max block diff".to_string()))
    );
    assert_eq!(
        loaded(&EnvOverrides { progress_interval: text("-1"), ..nothing() }),
        Err(ConfigError::EnvError("Invalid progress interval".to_string()))
    );
    assert_eq!(
        loaded(&EnvOverrides { batch_size: text("2.5"), ..nothing() }),
        Err(ConfigError::EnvError("Invalid batch size".to_string()))
    );
    // the first bad number is reported
    assert_eq!(
        loaded(&EnvOverrides { max_block_diff: text("a"), batch_size: text("b"), ..nothing() }),
        Err(ConfigError::EnvError("Invalid max block diff".to_string()))
    );
    assert_eq!(
        loaded(&EnvOverrides { log_level: text("Loud"), ..nothing() }),
        Err(ConfigError::ValidationError("Invalid log level: Loud".to_string()))
    );
    assert_eq!(
        loaded(&EnvOverrides { max_block_diff: text("0"), ..nothing() }),
        Err(ConfigError::ValidationError("Max block diff must be greater than 0".to_string()))
    );
}

#[test]
fn failed_override_leaves_what_came_before() {
    let mut config = ProofHelperConfig::default();
    let env = EnvOverrides {
        storage_backend: text("sqlite"),
        sqlite_db_path: text("x"),
        log_level: text("warn"),
        progress_interval: text("7"),
        max_block_diff: text("?"),
        batch_size: text("9"),
        ..nothing()
    };
    assert!(config.apply_env_overrides(&env).is_err());
    assert_eq!(config.logging.progress_interval, 7);
    assert_eq!(config.processing.batch_size, 25);
    assert_eq!(config.logging.level, "warn");
    assert_eq!(config.storage.sqlite, Some(SqliteConfig { db_path: "x".to_string() }));
    assert_eq!(config.processing.max_block_diff, 2000);
}

#[test]
fn names_in_lower_case() {
    assert_eq!(backend_from_name("sqlite"), Some(StorageBackend::SQLite));
    assert_eq!(backend_from_name("SQLite"), None);
    assert_eq!(backend_from_name("dynamodb"), Some(StorageBackend::DynamoDB));
    assert_eq!(backend_from_name("dynamo"), None);
    for level in ["trace", "debug", "info", "warn", "error"] {
        assert!(is_log_level(level));
    }
    assert!(!is_log_level("Info"));
    assert!(!is_log_level(""));
}

#[test]
fn config_error_texts() {
    let t = || "x".to_string();
    assert_eq!(ConfigError::FileNotFound(t()).message(), "Configuration file not found: x");
    assert_eq!(ConfigError::ReadError(t()).message(), "Failed to read configuration file: x");
    assert_eq!(ConfigError::ParseError(t()).message(), "Failed to parse configuration: x");
    assert_eq!(ConfigError::ValidationError(t()).message(), "Invalid configuration: x");
    assert_eq!(ConfigError::EnvError(t()).message(), "Environment variable error: x");
}

#[test]
fn storage_needs_a_path() {
    let mut config = ProofHelperConfig::default();
    assert_eq!(
        create_storage(&config),
        Err("SQLite configuration is required when using SQLite backend".to_string())
    );
    config.storage.sqlite = Some(SqliteConfig { db_path: "y".to_string() });
    assert_eq!(create_storage(&config), Ok(StorageLocation::Sqlite("y".to_string())));
    assert_eq!(
        storage_created::<()>(Err(ExternalStorageError::ConnectionError("z".to_string()))),
        Err("Failed to create SQLite store: Connection error: z".to_string())
    );
    assert_eq!(storage_created(Ok(3)), Ok(3));
    assert_eq!(
        storage_healthy(Err(ExternalStorageError::ConnectionError("z".to_string()))),
        Err("SQLite health check failed: Connection error: z".to_string())
    );
    assert_eq!(storage_healthy(Ok(())), Ok(()));
}

#[test]
fn storage_error_texts() {
    let t = || "x".to_string();
    let message = |error: ExternalStorageError| error.message();
    assert_eq!(message(ExternalStorageError::StorageError(t())), "Storage operation failed: x");
    assert_eq!(message(ExternalStorageError::SerializationError(t())), "Serialization error: x");
    let mut hash = [0; 32];
    hash[0] = 0x5a;
    let not_found = message(ExternalStorageError::NotFound(hash));
    assert!(not_found.starts_with("Preimage not found: 0x5a00"));
    assert_eq!(not_found.len(), 20 + 2 + 64);
    assert_eq!(message(ExternalStorageError::BatchError(t())), "Batch operation failed: x");
    assert_eq!(message(ExternalStorageError::ConnectionError(t())), "Connection error: x");
    assert_eq!(message(ExternalStorageError::TableCreationError(t())), "Table creation error: x");
    assert_eq!(
        ExternalStorageError::StorageError(t()).into(),
        DatabaseError::Other("Storage operation failed: x".to_string())
    );
}

#[test]
fn dynamodb_backend_is_enough() {
    let config = ProofHelperConfig::load_from_env(&EnvOverrides {
        storage_backend: text("DynamoDB"),
        ..nothing()
    })
    .unwrap();
    assert_eq!(config.storage.backend, StorageBackend::DynamoDB);
    assert_eq!(
        create_storage(&config),
        Ok(StorageLocation::DynamoDb(DynamoDbConfig::default()))
    );
}

#[test]
fn dynamodb_overrides() {
    let config = ProofHelperConfig::load_from_env(&EnvOverrides {
        storage_backend: text("dynamodb"),
        dynamodb_table_name: text("my-table"),
        dynamodb_region: text("us-west-2"),
        dynamodb_endpoint_url: text("http://localhost:8000"),
        log_level: text("debug"),
        progress_interval: text("50"),
        max_block_diff: text("500"),
        batch_size: text("25"),
        ..nothing()
    })
    .unwrap();
    let table = DynamoDbConfig {
        branch_table_name: "my-table".to_string(),
        region: "us-west-2".to_string(),
        endpoint_url: text("http://localhost:8000"),
        ..DynamoDbConfig::default()
    };
    assert_eq!(config.storage.dynamodb, Some(table.clone()));
    assert_eq!(config.storage.sqlite, None);
    assert_eq!(config.logging.progress_interval, 50);
    assert_eq!(config.processing.max_block_diff, 500);
    assert_eq!(config.processing.batch_size, 25);
    assert_eq!(create_storage(&config), Ok(StorageLocation::DynamoDb(table)));
}

#[test]
fn dynamodb_overrides_keep_the_rest_of_the_table() {
    let mut config = ProofHelperConfig::default();
    config.storage.dynamodb = Some(DynamoDbConfig {
        branch_table_name: "a".to_string(),
        read_capacity: None,
        ..DynamoDbConfig::default()
    });
    config
        .apply_env_overrides(&EnvOverrides { dynamodb_region: text("eu-north-1"), ..nothing() })
        .unwrap();
    assert_eq!(
        config.storage.dynamodb,
        Some(DynamoDbConfig {
            branch_table_name: "a".to_string(),
            region: "eu-north-1".to_string(),
            read_capacity: None,
            ..DynamoDbConfig::default()
        })
    );
    // the backend stays as it is
    assert_eq!(config.storage.backend, StorageBackend::SQLite);
}

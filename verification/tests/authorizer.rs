use orion::authorizer::authorize_orion_sqlite_action;
use orion::authorizer::authorize_pragma;
use orion::authorizer::is_delete_journal;
use orion::authorizer::normalize_pragma_value;
use orion::authorizer::Authorization;
use orion::authorizer::SqliteAction;
use rusqlite::hooks::AuthAction;
use rusqlite::hooks::AuthContext;
use rusqlite::Connection;

fn sqlite_action(action: AuthAction<'_>) -> SqliteAction {
    match action {
        AuthAction::Attach { .. } => SqliteAction::Attach,
        AuthAction::Detach { .. } => SqliteAction::Detach,
        AuthAction::CreateVtable { .. } => SqliteAction::CreateVtable,
        AuthAction::DropVtable { .. } => SqliteAction::DropVtable,
        AuthAction::Function { function_name } => SqliteAction::Function {
            function_name: function_name.to_string(),
        },
        AuthAction::Pragma { pragma_name, pragma_value } => SqliteAction::Pragma {
            pragma_name: pragma_name.to_string(),
            pragma_value: pragma_value.map(|value| value.to_string()),
        },
        _ => SqliteAction::Other,
    }
}

fn authorize(context: AuthContext<'_>) -> rusqlite::hooks::Authorization {
    match authorize_orion_sqlite_action(&sqlite_action(context.action)) {
        Authorization::Allow => rusqlite::hooks::Authorization::Allow,
        Authorization::Deny => rusqlite::hooks::Authorization::Deny,
    }
}

fn authorizer_test_connection() -> Connection {
    let mut conn = Connection::open_in_memory().unwrap();
    conn.authorizer(Some(authorize)).unwrap();
    conn
}

#[test]
fn authorizer_allows_safe_pragmas() {
    let conn = authorizer_test_connection();

    conn.execute_batch(
        r#"
            pragma journal_mode;
            pragma journal_mode = delete;
            pragma synchronous = full;
            pragma locking_mode = normal;
            pragma writable_schema = off;
            pragma busy_timeout = 1000;
            "#,
    )
    .unwrap();
}

#[test]
fn authorizer_denies_pragmas_that_bypass_orion_durability_or_storage_boundary() {
    let conn = authorizer_test_connection();

    for sql in [
        "pragma journal_mode = wal",
        "pragma journal_mode = off",
        "pragma synchronous = off",
        "pragma locking_mode = exclusive",
        "pragma writable_schema = on",
        "pragma temp_store_directory = '/tmp'",
    ] {
        let err = conn.execute_batch(sql).unwrap_err();
        assert!(
            err.to_string().contains("not authorized"),
            "expected {sql:?} to be denied, got {err}"
        );
    }
}

#[test]
fn authorizer_denies_external_database_and_native_extension_surfaces() {
    let conn = authorizer_test_connection();

    for sql in [
        "attach database ':memory:' as other",
        "select load_extension('not-real')",
        "create virtual table docs using fts5(body)",
    ] {
        let err = conn.execute_batch(sql).unwrap_err();
        assert!(
            err.to_string().contains("not authorized"),
            "expected {sql:?} to be denied, got {err}"
        );
    }
}

#[test]
fn ordinary_statements_are_allowed() {
    let conn = authorizer_test_connection();
    conn.execute_batch("create table t (a); insert into t values (1); select abs(a) from t;")
        .unwrap();
}

#[test]
fn pragma_values_are_read_without_quotes_and_case() {
    assert_eq!(normalize_pragma_value("  'DELETE' "), "delete");
    assert_eq!(normalize_pragma_value("\"Full\""), "full");
    assert_eq!(normalize_pragma_value(""), "");
}

#[test]
fn spelling_does_not_matter_to_a_decision() {
    assert_eq!(
        authorize_pragma("Journal_Mode", &Some(" 'DELETE' ".to_string())),
        Authorization::Allow
    );
    assert_eq!(
        authorize_pragma("JOURNAL_MODE", &Some("Wal".to_string())),
        Authorization::Deny
    );
    assert_eq!(
        authorize_orion_sqlite_action(&SqliteAction::Function {
            function_name: "LOAD_extension".to_string()
        }),
        Authorization::Deny
    );
}

#[test]
fn each_guarded_pragma_has_its_values() {
    let decide = |name: &str, value: &str| authorize_pragma(name, &Some(value.to_string()));
    for value in ["full", "extra", "2", "3"] {
        assert_eq!(decide("synchronous", value), Authorization::Allow);
    }
    assert_eq!(decide("synchronous", "1"), Authorization::Deny);
    for value in ["0", "off", "false", "no"] {
        assert_eq!(decide("writable_schema", value), Authorization::Allow);
    }
    assert_eq!(decide("writable_schema", "1"), Authorization::Deny);
    assert_eq!(authorize_pragma("synchronous", &None), Authorization::Allow);
    assert_eq!(authorize_pragma("data_store_directory", &None), Authorization::Deny);
    assert_eq!(decide("cache_size", "100"), Authorization::Allow);
}

#[test]
fn only_the_delete_journal_is_taken() {
    assert!(is_delete_journal("DELETE"));
    assert!(!is_delete_journal("wal"));
}

use nomad::loader::parse_migration_filename;

#[test]
fn parses_simple_names() {
    assert_eq!(parse_migration_filename(b"1.sql"), Some(1));
    assert_eq!(parse_migration_filename(b"001_init.sql"), Some(1));
    assert_eq!(parse_migration_filename(b"20240102_create_users.sql"), Some(20240102));
    assert_eq!(parse_migration_filename(b"0.sql"), Some(0));
}

#[test]
fn rejects_malformed_names() {
    assert_eq!(parse_migration_filename(b""), None);
    assert_eq!(parse_migration_filename(b"init.sql"), None);
    assert_eq!(parse_migration_filename(b"123"), None);
    assert_eq!(parse_migration_filename(b"123.txt"), None);
    assert_eq!(parse_migration_filename(b".sql"), None);
    assert_eq!(parse_migration_filename(b"_1.sql"), None);
}

#[test]
fn loader_roundtrip() {
    let files: Vec<(&[u8], &str)> = vec![
        (b"2_second.sql", "-- test migration 2"),
        (b"1_first.sql", "-- test migration 1"),
    ];

    let mut migrations = Vec::new();
    for (name, sql) in files {
        let version = parse_migration_filename(name).expect("valid migration file name");
        migrations.push(nomad::Migration { version, sql: sql.to_string() });
    }

    let set = nomad::OrderedArray::from_unsorted(migrations);
    let mut runner = nomad::MigrationRunner::new(nomad::memory::MemoryDriver::new());
    assert_eq!(runner.migrate(&set).unwrap(), Some(2));
    assert_eq!(runner.migrate(&set).unwrap(), None);

    // Each statement ran exactly once, in ascending version order.
    assert_eq!(
        runner.driver.statement_log(),
        &vec![
            "-- test migration 1".to_string(),
            "-- test migration 2".to_string()
        ]
    );
}

#[test]
fn version_bounds() {
    assert_eq!(
        parse_migration_filename(b"18446744073709551615.sql"),
        Some(u64::MAX)
    );
    assert_eq!(parse_migration_filename(b"18446744073709551616.sql"), None);
    assert_eq!(parse_migration_filename(b"99999999999999999999999.sql"), None);
}

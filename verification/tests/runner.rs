use nomad::Driver;
use nomad::Migration;
use nomad::MigrationError;
use nomad::MigrationRunner;
use nomad::OrderedArray;
use nomad::memory::MemoryDriver;

fn m(version: u64, sql: &str) -> Migration {
    Migration { version, sql: sql.to_string() }
}

fn two_migrations() -> OrderedArray {
    OrderedArray::try_new(vec![m(1, "-- test migration 1"), m(2, "-- test migration 2")])
        .expect("sorted input")
}

#[test]
fn runtime_migrate() {
    let migrations = two_migrations();

    let driver = MemoryDriver::new();
    let mut runner = MigrationRunner::new(driver);

    assert_eq!(
        runner.migrate(&migrations).expect("Migrations should succeed"),
        Some(2)
    );

    assert_eq!(
        runner.migrate(&migrations).expect("Migrations should succeed"),
        None
    );

    let mut other = MigrationRunner::with_namespace(runner.driver, "test");
    assert_eq!(
        other
            .migrate(&migrations)
            .expect("Migrations in another namespace should succeed"),
        Some(2)
    );
}

#[test]
fn namespace_isolation() {
    let migrations = two_migrations();

    let mut runner = MigrationRunner::new(MemoryDriver::new());
    runner.migrate(&migrations).expect("Migrations should succeed");

    let mut driver = runner.driver;
    assert_eq!(
        driver.latest_version(nomad::DEFAULT_NAMESPACE).unwrap(),
        Some(2)
    );
    assert_eq!(driver.latest_version("test").unwrap(), None);

    let mut other = MigrationRunner::with_namespace(driver, "test");
    assert_eq!(
        other.migrate(&migrations).expect("Migrations should succeed"),
        Some(2)
    );

    let mut driver = other.driver;
    assert_eq!(
        driver.latest_version(nomad::DEFAULT_NAMESPACE).unwrap(),
        Some(2)
    );
    assert_eq!(driver.latest_version("test").unwrap(), Some(2));
}

#[test]
fn exactly_once_only_newer_versions() {
    let first = two_migrations();
    let extended = OrderedArray::try_new(vec![
        m(1, "-- test migration 1"),
        m(2, "-- test migration 2"),
        m(3, "-- test migration 3"),
    ])
    .expect("sorted input");

    let mut runner = MigrationRunner::new(MemoryDriver::new());
    assert_eq!(runner.migrate(&first).unwrap(), Some(2));

    // Only the migration above the persisted version is applied.
    assert_eq!(runner.migrate(&extended).unwrap(), Some(3));

    let mut driver = runner.driver;
    assert_eq!(
        driver.latest_version(nomad::DEFAULT_NAMESPACE).unwrap(),
        Some(3)
    );
}

#[test]
fn empty_set_applies_nothing() {
    let empty = OrderedArray::try_new(Vec::new()).expect("empty input is ordered");
    let mut runner = MigrationRunner::new(MemoryDriver::new());
    assert_eq!(runner.migrate(&empty).unwrap(), None);
    let mut driver = runner.driver;
    assert_eq!(driver.latest_version(nomad::DEFAULT_NAMESPACE).unwrap(), None);
}

#[test]
fn time_travel() {
    let migrations = two_migrations();

    let mut runner = MigrationRunner::new(MemoryDriver::new());
    runner
        .migrate(&migrations)
        .expect("Migrations should succeed")
        .expect("Migrations should be executed");

    let stale = OrderedArray::try_new(vec![m(1, "-- test migration 1")]).expect("sorted input");

    match runner.migrate(&stale) {
        Err(MigrationError::TimeTravelError) => {}
        _ => panic!("Expected a TimeTravelError"),
    }

    // The failed call performed no writes.
    let mut driver = runner.driver;
    assert_eq!(
        driver.latest_version(nomad::DEFAULT_NAMESPACE).unwrap(),
        Some(2)
    );
}

#[test]
fn rollback() {
    let migrations = OrderedArray::from_unsorted(vec![
        m(1, "-- test migration 1"),
        m(2, "evil"),
        m(2, "-- test migration 2"),
    ]);

    let mut driver = MemoryDriver::new();
    driver.reject_statement("evil");
    let mut runner = MigrationRunner::new(driver);

    match runner.migrate(&migrations) {
        Ok(_) => panic!("Migrations should fail"),
        Err(MigrationError::DriverError(_)) => {}
        Err(_) => panic!("Expected a DriverError"),
    }

    let mut driver = runner.driver;
    assert_eq!(driver.latest_version(nomad::DEFAULT_NAMESPACE).unwrap(), None);
}

#[test]
fn rollback_keeps_earlier_version() {
    let first = OrderedArray::try_new(vec![m(1, "-- test migration 1")]).expect("sorted input");
    let failing = OrderedArray::try_new(vec![m(2, "-- fine"), m(3, "evil")]).expect("sorted input");

    let mut driver = MemoryDriver::new();
    driver.reject_statement("evil");
    let mut runner = MigrationRunner::new(driver);

    assert_eq!(runner.migrate(&first).unwrap(), Some(1));
    assert!(runner.migrate(&failing).is_err());

    // Nothing from the failed call, not even its successful first
    // statement, was recorded.
    let mut driver = runner.driver;
    assert_eq!(
        driver.latest_version(nomad::DEFAULT_NAMESPACE).unwrap(),
        Some(1)
    );
}

#[test]
fn default_namespace_is_nomad() {
    assert_eq!(nomad::DEFAULT_NAMESPACE, "nomad");
}

#[test]
fn driver_error_from_inner() {
    let e: MigrationError<u8> = 7u8.into();
    match e {
        MigrationError::DriverError(7) => {}
        _ => panic!("expected DriverError(7)"),
    }
}

#[test]
fn error_messages() {
    let time_travel: MigrationError<()> = MigrationError::TimeTravelError;
    assert_eq!(
        time_travel.message(),
        "Latest migrated version exceeds latest known version - possible downgrade"
    );
    let driver_error: MigrationError<()> = MigrationError::DriverError(());
    assert_eq!(driver_error.message(), "The storage backend reported an error");
}

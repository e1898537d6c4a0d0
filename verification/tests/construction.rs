use nomad::Migration;
use nomad::OrderedArray;

fn m(version: u64, sql: &str) -> Migration {
    Migration { version, sql: sql.to_string() }
}

#[test]
fn into() {
    let migrations = vec![m(2, "-- test migration 2"), m(1, "-- test migration 1")];

    let arr = OrderedArray::from_unsorted(migrations);

    assert_eq!(
        arr.iter().iter().map(|x| x.version).collect::<Vec<u64>>(),
        vec![1, 2]
    );
}

#[test]
fn try_new() {
    let sorted_migrations = vec![m(1, "-- test migration 1"), m(2, "-- test migration 2")];
    let unsorted_migrations = vec![m(2, "-- test migration 2"), m(1, "-- test migration 1")];

    match OrderedArray::try_new(sorted_migrations) {
        None => panic!("Sorted migrations failed to create"),
        _ => {}
    }

    match OrderedArray::try_new(unsorted_migrations) {
        Some(_) => panic!("Unsorted migrations created as sorted"),
        _ => {}
    }
}

#[test]
fn try_new_rejects_duplicate_versions() {
    let dup = vec![m(1, "-- a"), m(1, "-- b")];
    assert!(OrderedArray::try_new(dup).is_none());
}

#[test]
fn try_new_empty_and_single() {
    assert!(OrderedArray::try_new(Vec::new()).is_some());
    assert!(OrderedArray::try_new(vec![m(7, "-- only")]).is_some());
}

#[test]
fn from_unsorted_keeps_duplicates() {
    let arr = OrderedArray::from_unsorted(vec![m(2, "-- x"), m(2, "-- y"), m(1, "-- z")]);
    let versions: Vec<u64> = arr.iter().iter().map(|x| x.version).collect();
    assert_eq!(versions, vec![1, 2, 2]);
}

#[test]
fn new_unchecked_wraps_as_given() {
    let arr = OrderedArray::new_unchecked(vec![m(1, "-- a"), m(5, "-- b")]);
    let versions: Vec<u64> = arr.iter().iter().map(|x| x.version).collect();
    assert_eq!(versions, vec![1, 5]);
    assert_eq!(arr.len(), 2);
    assert_eq!(arr.as_slice()[1].sql, "-- b");
}

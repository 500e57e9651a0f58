use task_engine::errors::ContractError;
use task_engine::ledger::Ledger;
use task_engine::response::Response;
use task_engine::schedule::{make_slots, sort_times};
use task_engine::models::task::TaskTimeSlot;
use task_engine::store::{IdSet, OwnerIndex, Table};

fn text(s: &str) -> String {
    s.to_string()
}

#[test]
fn a_table_keeps_keys_in_the_order_in_which_they_came() {
    let mut table: Table<u32> = Table::new();
    assert_eq!(table.len(), 0);
    table.insert(text("b"), 2);
    table.insert(text("a"), 1);
    table.insert(text("c"), 3);
    assert_eq!(table.len(), 3);
    assert_eq!(table.key_at(0), "b");
    assert_eq!(table.key_at(1), "a");
    assert_eq!(table.key_at(2), "c");
    assert_eq!(*table.value_at(1), 1);
    assert_eq!(table.find(&text("c")), Some(2));
    assert_eq!(table.find(&text("d")), None);
    assert_eq!(table.get(&text("a")), Some(&1));
    assert_eq!(table.get(&text("z")), None);
}

#[test]
fn a_key_that_is_written_again_keeps_its_place() {
    let mut table: Table<u32> = Table::new();
    table.insert(text("b"), 2);
    table.insert(text("a"), 1);
    table.insert(text("b"), 20);
    assert_eq!(table.len(), 2);
    assert_eq!(table.key_at(0), "b");
    assert_eq!(*table.value_at(0), 20);
    assert_eq!(*table.value_at(1), 1);
    assert_eq!(table.replace_at(1, 10), 1);
    assert_eq!(table.get(&text("a")), Some(&10));
}

#[test]
fn a_removed_key_leaves_the_others_in_order() {
    let mut table: Table<u32> = Table::new();
    table.insert(text("a"), 1);
    table.insert(text("b"), 2);
    table.insert(text("c"), 3);
    assert_eq!(table.remove(&text("a")), Some(1));
    assert_eq!(table.remove(&text("a")), None);
    assert_eq!(table.len(), 2);
    assert_eq!(table.key_at(0), "b");
    assert_eq!(table.key_at(1), "c");
    assert_eq!(*table.value_at(1), 3);
}

#[test]
fn a_set_holds_each_identifier_once() {
    let mut set = IdSet::new();
    set.insert(text("x"));
    set.insert(text("y"));
    set.insert(text("x"));
    assert_eq!(set.len(), 2);
    assert_eq!(set.to_vec(), vec![text("x"), text("y")]);
    assert_eq!(set.find(&text("y")), Some(1));
    assert_eq!(set.id_at(0), "x");
    set.remove(&text("x"));
    set.remove(&text("q"));
    assert_eq!(set.to_vec(), vec![text("y")]);
    assert_eq!(set.find(&text("x")), None);
}

#[test]
fn the_index_keeps_an_owner_who_has_nothing_left() {
    let mut index = OwnerIndex::new();
    assert!(index.get(&text("alice")).is_none());
    index.add(&text("alice"), &text("t1"));
    index.add(&text("alice"), &text("t2"));
    index.add(&text("alice"), &text("t1"));
    index.add(&text("bob"), &text("t3"));
    assert_eq!(index.get(&text("alice")).unwrap().to_vec(), vec![text("t1"), text("t2")]);
    assert_eq!(index.get(&text("bob")).unwrap().to_vec(), vec![text("t3")]);
    index.remove(&text("alice"), &text("t1"));
    index.remove(&text("alice"), &text("t3"));
    index.remove(&text("carol"), &text("t3"));
    assert_eq!(index.get(&text("alice")).unwrap().to_vec(), vec![text("t2")]);
    assert_eq!(index.get(&text("bob")).unwrap().to_vec(), vec![text("t3")]);
    index.remove(&text("alice"), &text("t2"));
    assert_eq!(index.get(&text("alice")).unwrap().to_vec(), Vec::<String>::new());
    assert!(index.get(&text("carol")).is_none());
}

#[test]
fn the_ledger_adds_points_up_to_the_ceiling() {
    let mut ledger = Ledger::new();
    assert_eq!(ledger.points(&text("alice")), 0);
    assert_eq!(ledger.add_points(&text("alice"), 10), Response::Success(10));
    assert_eq!(ledger.add_points(&text("alice"), 5), Response::Success(15));
    assert_eq!(ledger.add_points(&text("bob"), u32::MAX as i64), Response::Success(u32::MAX));
    assert_eq!(
        ledger.add_points(&text("bob"), 1),
        Response::Error(ContractError::Operation("Points addition would overflow".to_string()))
    );
    assert_eq!(
        ledger.add_points(&text("alice"), u32::MAX as i64 - 14),
        Response::Error(ContractError::Operation("Points addition would overflow".to_string()))
    );
    assert_eq!(
        ledger.add_points(&text("alice"), i64::MAX),
        Response::Error(ContractError::Operation("Points addition would overflow".to_string()))
    );
    assert_eq!(ledger.points(&text("alice")), 15);
    assert_eq!(ledger.points(&text("bob")), u32::MAX);
    assert_eq!(ledger.get_points(&text("alice")), Response::Success(15));
}

#[test]
fn the_ledger_takes_points_down_to_zero() {
    let mut ledger = Ledger::new();
    assert_eq!(ledger.add_points(&text("alice"), 10), Response::Success(10));
    assert_eq!(ledger.add_points(&text("alice"), 0), Response::Success(10));
    assert_eq!(ledger.add_points(&text("alice"), -4), Response::Success(6));
    assert_eq!(
        ledger.add_points(&text("alice"), -7),
        Response::Error(ContractError::Operation(
            "Insufficient points: has 6, needs 7".to_string()
        ))
    );
    assert_eq!(ledger.add_points(&text("alice"), -6), Response::Success(0));
    assert_eq!(
        ledger.add_points(&text("carol"), -1),
        Response::Error(ContractError::Operation(
            "Insufficient points: has 0, needs 1".to_string()
        ))
    );
    assert_eq!(
        ledger.add_points(&text("carol"), i64::MIN),
        Response::Error(ContractError::Operation(
            "Insufficient points: has 0, needs 9223372036854775808".to_string()
        ))
    );
    assert_eq!(ledger.add_points(&text("carol"), 0), Response::Success(0));
    assert_eq!(ledger.points(&text("alice")), 0);
}

#[test]
fn the_ledger_knows_no_account_without_a_name() {
    let mut ledger = Ledger::new();
    let nameless = || {
        ContractError::ValidationError(
            "Account".to_string(),
            "Account ID cannot be empty".to_string(),
            None,
        )
    };
    assert_eq!(ledger.get_points(&String::new()), Response::Error(nameless()));
    assert_eq!(ledger.add_points(&String::new(), 5), Response::Error(nameless()));
    ledger.set_points(&text("dave"), 3);
    assert_eq!(ledger.points(&text("dave")), 3);
}

#[test]
fn times_are_sorted_with_their_repetitions() {
    assert_eq!(sort_times(&vec![300, 100, 200]), vec![100, 200, 300]);
    assert_eq!(sort_times(&vec![5, 1, 5, 0, u64::MAX, 1]), vec![0, 1, 1, 5, 5, u64::MAX]);
    assert_eq!(sort_times(&Vec::new()), Vec::<u64>::new());
    assert_eq!(sort_times(&vec![7]), vec![7]);
}

#[test]
fn slots_lie_between_neighbouring_times() {
    assert_eq!(
        make_slots(&vec![100, 200, 300]),
        vec![
            TaskTimeSlot { start_time: 100, end_time: 200 },
            TaskTimeSlot { start_time: 200, end_time: 300 },
        ]
    );
    assert_eq!(make_slots(&vec![1]), Vec::<TaskTimeSlot>::new());
    assert_eq!(make_slots(&Vec::new()), Vec::<TaskTimeSlot>::new());
}

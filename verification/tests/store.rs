use rating_bot::RatingUpdate;
use rating_bot::store::RatingStore;
use rating_bot::store::UpdateQuery;

#[test]
fn first_increment_starts_at_one() {
    let mut store = RatingStore::new();
    assert_eq!(store.increment(10, 20), 1);
    assert_eq!(store.get(10, 20), Some(1));
}

#[test]
fn first_decrement_starts_at_minus_one() {
    let mut store = RatingStore::new();
    assert_eq!(store.decrement(10, 20), -1);
    assert_eq!(store.get(10, 20), Some(-1));
}

#[test]
fn unknown_pair_has_no_record() {
    let store = RatingStore::new();
    assert_eq!(store.get(10, 20), None);
}

#[test]
fn votes_accumulate() {
    let mut store = RatingStore::new();
    assert_eq!(store.increment(1, 2), 1);
    assert_eq!(store.increment(1, 2), 2);
    assert_eq!(store.increment(1, 2), 3);
    assert_eq!(store.decrement(1, 2), 2);
}

#[test]
fn three_increments_two_decrements_settle_at_one() {
    // N = 3 increments and M = 2 decrements for one pair settle at
    // N - M = 1 in every arrival order.
    let orders: Vec<Vec<RatingUpdate>> = vec![
        vec![
            RatingUpdate::Inc,
            RatingUpdate::Inc,
            RatingUpdate::Inc,
            RatingUpdate::Dec,
            RatingUpdate::Dec,
        ],
        vec![
            RatingUpdate::Dec,
            RatingUpdate::Inc,
            RatingUpdate::Dec,
            RatingUpdate::Inc,
            RatingUpdate::Inc,
        ],
        vec![
            RatingUpdate::Inc,
            RatingUpdate::Dec,
            RatingUpdate::Inc,
            RatingUpdate::Dec,
            RatingUpdate::Inc,
        ],
    ];
    for order in orders {
        let mut store = RatingStore::new();
        let mut last: i64 = 0;
        for update in order {
            last = store.apply(5, 6, update);
        }
        assert_eq!(last, 1);
        assert_eq!(store.get(5, 6), Some(1));
    }
}

#[test]
fn pairs_are_independent() {
    // Interleaved votes for two users of one chat never touch each
    // other's rating.
    let mut store = RatingStore::new();
    store.increment(1, 100);
    store.decrement(1, 200);
    store.increment(1, 100);
    store.decrement(1, 200);
    store.increment(1, 100);
    assert_eq!(store.get(1, 100), Some(3));
    assert_eq!(store.get(1, 200), Some(-2));
}

#[test]
fn chats_are_independent() {
    let mut store = RatingStore::new();
    store.increment(1, 100);
    store.increment(2, 100);
    store.increment(2, 100);
    assert_eq!(store.get(1, 100), Some(1));
    assert_eq!(store.get(2, 100), Some(2));
}

#[test]
fn update_query_executes_both_directions() {
    let mut store = RatingStore::new();
    let query = UpdateQuery::new(3, 4);
    assert_eq!(query.execute_inc(&mut store), 1);
    assert_eq!(query.execute_inc(&mut store), 2);
    assert_eq!(query.execute_dec(&mut store), 1);
    assert_eq!(store.get(3, 4), Some(1));
    assert_eq!(store.get(4, 3), None);
}

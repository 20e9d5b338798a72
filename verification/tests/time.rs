use waht::ordmap::OrdMap;
use waht::util::time::{Clock, Duration, ExpirationMap, Instant, InstantMap, Interval};
use waht::util::{transpose, waht_data_root, DataRoot, NoDataDir};

fn at(nanos: u128) -> Instant {
    Instant { nanos }
}

#[test]
fn durations_add_up() {
    assert_eq!(Duration::from_secs(3).as_nanos(), 3_000_000_000);
    assert_eq!(Duration::from_millis(1001).as_nanos(), 1_001_000_000);
    assert_eq!(at(5).plus(Duration::from_millis(1)), at(1_000_005));
    assert_eq!(Instant::since_start(Duration { secs: 2, nanos: 7 }), at(2_000_000_007));
}

#[test]
fn clocks_do_not_run_backwards() {
    let clock = Clock::start();
    let a = clock.now();
    let b = clock.now();
    assert!(a.nanos <= b.nanos);
    assert!(a.nanos < 10_000_000_000);
}

#[test]
fn intervals_elapse_after_their_deadline() {
    let mut interval = Interval::new(at(10), Duration { secs: 0, nanos: 5 });
    assert_eq!(interval.next_tick(), at(15));
    assert!(!interval.has_elapsed(at(15)));
    assert!(interval.has_elapsed(at(16)));
    interval.reset(at(16));
    assert_eq!(interval.next_tick(), at(21));
    let clock = Clock::start();
    let interval = Interval::from_now(&clock, Duration::from_secs(1000));
    assert!(!interval.has_elapsed(clock.now()));
}

#[test]
fn instant_map_drains_what_lies_before() {
    let mut map: InstantMap<u64> = InstantMap::new();
    map.insert(at(5), 1);
    map.insert(at(5), 2);
    map.insert(at(5), 2);
    map.insert(at(3), 9);
    map.insert(at(7), 4);
    assert_eq!(map.drain_expired(at(5)), vec![9]);
    map.update(at(5), at(8), 1);
    assert_eq!(map.drain_expired(at(6)), vec![2]);
    map.remove(at(7), &4);
    map.remove(at(7), &4);
    assert_eq!(map.drain_entries(at(100)), vec![(at(8), 1)]);
    assert!(map.drain_expired(at(1000)).is_empty());
}

#[test]
fn expiration_map_moves_renewed_keys() {
    let mut map: ExpirationMap<u64> = ExpirationMap::new(Duration { secs: 0, nanos: 10 });
    map.renew(1, at(0));
    map.renew(2, at(4));
    map.renew(1, at(7));
    map.insert(3, at(2));
    assert_eq!(map.iter(), vec![(1, at(17)), (2, at(14)), (3, at(2))]);
    assert_eq!(map.drain_expired(at(15)), vec![(3, at(2)), (2, at(14))]);
    assert_eq!(map.remove(&1), Some(at(17)));
    assert_eq!(map.remove(&1), None);
    assert!(map.drain_expired(at(1000)).is_empty());
}

#[test]
fn ordered_map_keeps_keys_sorted() {
    let mut map: OrdMap<u64, &str> = OrdMap::new();
    assert_eq!(map.insert(5, "five"), None);
    assert_eq!(map.insert(1, "one"), None);
    assert_eq!(map.insert(3, "three"), None);
    assert_eq!(map.insert(3, "drei"), Some("three"));
    assert_eq!(map.len(), 3);
    assert_eq!((map.key_at(0), map.key_at(1), map.key_at(2)), (1, 3, 5));
    assert_eq!(map.value_at(1), &"drei");
    *map.get_mut(&5).unwrap() = "cinq";
    assert!(map.get_mut(&6).is_none());
    assert_eq!(map.get(&5), Some(&"cinq"));
    assert!(map.contains(&1));
    assert_eq!(map.remove(&4), None);
    assert_eq!(map.remove(&3), Some("drei"));
    assert_eq!(map.pop_first(), Some((1, "one")));
    assert_eq!(map.pop_first(), Some((5, "cinq")));
    assert_eq!(map.pop_first(), None);
}

#[test]
fn byte_keys_are_ordered_like_numbers() {
    let mut map: OrdMap<[u8; 32], u8> = OrdMap::new();
    let mut low = [0u8; 32];
    low[31] = 255;
    let mut high = [0u8; 32];
    high[30] = 1;
    map.insert(high, 2);
    map.insert(low, 1);
    assert_eq!(map.key_at(0), low);
    assert_eq!(map.key_at(1), high);
    assert_eq!(map.get(&high), Some(&2));
}

#[test]
fn transpose_swaps_the_layers() {
    assert_eq!(transpose::<u8, u8>(Ok(Some(1))), Some(Ok(1)));
    assert_eq!(transpose::<u8, u8>(Ok(None)), None);
    assert_eq!(transpose::<u8, u8>(Err(2)), Some(Err(2)));
    assert_eq!(waht::util::WAHT_DIR, "waht");
}

#[test]
fn data_is_kept_where_the_user_says() {
    assert_eq!(waht_data_root(Some("a"), Some("b")), Ok(DataRoot::Given("a")));
    assert_eq!(waht_data_root(None, Some("b")), Ok(DataRoot::Within("b")));
    assert_eq!(waht_data_root::<&str>(None, None), Err(NoDataDir));
    assert_eq!(waht_data_root(Some("a"), None), Ok(DataRoot::Given("a")));
}

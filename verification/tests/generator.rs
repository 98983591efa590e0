use rand::Rng;

use random_id::RandomIdGenerator;

fn random_key() -> [u8; 32] {
    let mut rng = rand::thread_rng();
    let mut key = [0u8; 32];
    rng.fill(&mut key);
    key
}

/// Draws every remaining identifier in order.
fn drain(generator: &mut RandomIdGenerator) -> Vec<u16> {
    let mut ids = Vec::new();
    while let Some(id) = generator.next().unwrap() {
        ids.push(id);
    }
    ids
}

#[test]
fn test_split_number_digits() {
    let key = random_key();

    let id_generator = RandomIdGenerator::new(key.clone(), 0, 4);
    assert_eq!(id_generator.split_number_digits(0), [0, 0, 0, 0]);
    assert_eq!(id_generator.split_number_digits(1), [0, 0, 0, 1]);
    assert_eq!(id_generator.split_number_digits(8), [0, 0, 0, 8]);
    assert_eq!(id_generator.split_number_digits(10), [0, 0, 1, 0]);
    assert_eq!(id_generator.split_number_digits(123), [0, 1, 2, 3]);
    assert_eq!(id_generator.split_number_digits(1234), [1, 2, 3, 4]);

    let id_generator = RandomIdGenerator::new(key.clone(), 0, 3);
    assert_eq!(id_generator.split_number_digits(0), [0, 0, 0]);
    assert_eq!(id_generator.split_number_digits(1), [0, 0, 1]);
    assert_eq!(id_generator.split_number_digits(8), [0, 0, 8]);
    assert_eq!(id_generator.split_number_digits(10), [0, 1, 0]);
    assert_eq!(id_generator.split_number_digits(123), [1, 2, 3]);

    let id_generator = RandomIdGenerator::new(key, 0, 2);
    assert_eq!(id_generator.split_number_digits(0), [0, 0]);
    assert_eq!(id_generator.split_number_digits(1), [0, 1]);
    assert_eq!(id_generator.split_number_digits(8), [0, 8]);
    assert_eq!(id_generator.split_number_digits(10), [1, 0]);
}

#[test]
fn test_join_number_digits() {
    assert_eq!(RandomIdGenerator::join_number_digits(&[]), 0);
    assert_eq!(RandomIdGenerator::join_number_digits(&[1]), 1);
    assert_eq!(RandomIdGenerator::join_number_digits(&[8]), 8);
    assert_eq!(RandomIdGenerator::join_number_digits(&[1, 0]), 10);
    assert_eq!(RandomIdGenerator::join_number_digits(&[1, 2, 3]), 123);
    assert_eq!(RandomIdGenerator::join_number_digits(&[1, 2, 3, 4]), 1234);
    assert_eq!(RandomIdGenerator::join_number_digits(&[0, 0, 0, 0]), 0);
    assert_eq!(RandomIdGenerator::join_number_digits(&[0, 0, 0, 1]), 1);
    assert_eq!(RandomIdGenerator::join_number_digits(&[0, 0, 0, 8]), 8);
    assert_eq!(RandomIdGenerator::join_number_digits(&[0, 0, 1, 0]), 10);
    assert_eq!(RandomIdGenerator::join_number_digits(&[0, 1, 2, 3]), 123);
    assert_eq!(RandomIdGenerator::join_number_digits(&[1, 2, 3, 4]), 1234);
}

#[test]
fn test_random_id() {
    let key = random_key();

    let mut id_generator = RandomIdGenerator::new(key, 0, 2);
    let mut ids = drain(&mut id_generator);
    ids.sort();

    assert_eq!(ids, (0..100).collect::<Vec<u16>>());
}

#[test]
fn test_iterator_finished_return_none() {
    let key = random_key();

    let mut id_generator = RandomIdGenerator::new(key, 0, 2);
    for _ in 0..100 {
        assert!(id_generator.next().unwrap().is_some());
    }

    assert!(id_generator.next().unwrap().is_none());
}

#[test]
fn test_iterator_size_hint() {
    let key = random_key();

    let id_generator = RandomIdGenerator::new(key, 0, 2);
    assert_eq!(id_generator.size_hint(), (100, Some(100)));
}

#[test]
fn test_iterator_count() {
    let key = random_key();

    let mut id_generator = RandomIdGenerator::new(key, 0, 2);
    assert_eq!(id_generator.count(), 100);
}

#[test]
fn iterator_nth() {
    let key = random_key();

    let mut id_generator = RandomIdGenerator::new(key, 0, 2);
    assert!(id_generator.nth(98).unwrap().is_some());
    assert!(id_generator.nth(0).unwrap().is_some());
    assert!(id_generator.nth(0).unwrap().is_none());
}

#[test]
fn split_pads_with_leading_zeros() {
    let id_generator = RandomIdGenerator::new(random_key(), 0, 4);
    assert_eq!(id_generator.split_number_digits(0), [0, 0, 0, 0]);
    assert_eq!(id_generator.split_number_digits(7), [0, 0, 0, 7]);
    assert_eq!(id_generator.split_number_digits(1234), [1, 2, 3, 4]);
}

#[test]
fn codec_round_trips_every_value() {
    let key = random_key();
    for digits in 1..=4u16 {
        let id_generator = RandomIdGenerator::new(key.clone(), 0, digits);
        let domain = 10u16.pow(digits as u32);
        for value in 0..domain {
            let encoded = id_generator.split_number_digits(value);
            assert_eq!(encoded.len(), digits as usize);
            assert_eq!(RandomIdGenerator::join_number_digits(&encoded), value);
        }
    }
}

#[test]
fn domain_len_and_remaining_are_exact() {
    let key = random_key();

    let id_generator = RandomIdGenerator::new(key.clone(), 0, 2);
    assert_eq!(id_generator.len(), 100);
    assert_eq!(id_generator.remaining(), 100);

    let id_generator = RandomIdGenerator::new(key, 0, 3);
    assert_eq!(id_generator.len(), 1000);
    assert_eq!(id_generator.remaining(), 1000);
}

#[test]
fn size_hint_tracks_consumption() {
    let mut id_generator = RandomIdGenerator::new(random_key(), 0, 2);
    assert_eq!(id_generator.size_hint(), (100, Some(100)));
    for _ in 0..37 {
        assert!(id_generator.next().unwrap().is_some());
    }
    assert_eq!(id_generator.size_hint(), (63, Some(63)));
}

#[test]
fn skip_reaches_the_end_exactly() {
    let mut id_generator = RandomIdGenerator::new(random_key(), 3, 2);
    assert!(id_generator.nth(98).unwrap().is_some());
    assert_eq!(id_generator.remaining(), 1);
    assert!(id_generator.nth(0).unwrap().is_some());
    assert_eq!(id_generator.remaining(), 0);
    assert!(id_generator.nth(0).unwrap().is_none());
    assert!(id_generator.next().unwrap().is_none());
    assert_eq!(id_generator.remaining(), 0);
}

#[test]
fn skip_past_the_end_leaves_cursor_unchanged() {
    let mut id_generator = RandomIdGenerator::new(random_key(), 0, 2);
    assert!(id_generator.next().unwrap().is_some());
    assert!(id_generator.nth(99).unwrap().is_none());
    assert_eq!(id_generator.remaining(), 99);
    assert!(id_generator.next().unwrap().is_some());
}

#[test]
fn exhaustion_is_terminal() {
    let mut id_generator = RandomIdGenerator::new(random_key(), 0, 1);
    for _ in 0..10 {
        assert!(id_generator.next().unwrap().is_some());
    }
    for _ in 0..5 {
        assert!(id_generator.next().unwrap().is_none());
        assert!(id_generator.nth(0).unwrap().is_none());
        assert!(id_generator.last().unwrap().is_none());
        assert_eq!(id_generator.remaining(), 0);
    }
}

#[test]
fn outputs_are_a_permutation_of_the_domain() {
    let key = random_key();
    for digits in 1..=3u16 {
        let mut id_generator = RandomIdGenerator::new(key.clone(), 9, digits);
        let mut ids = drain(&mut id_generator);
        ids.sort();
        let domain = 10u16.pow(digits as u32);
        assert_eq!(ids, (0..domain).collect::<Vec<u16>>());
    }
}

#[test]
fn encryption_reorders_the_domain() {
    // A permutation that left every counter value in place would mean the
    // capability handed its input straight back.
    let key = [7u8; 32];
    let mut id_generator = RandomIdGenerator::new(key, 0, 2);
    let ids = drain(&mut id_generator);
    assert_ne!(ids, (0..100).collect::<Vec<u16>>());
}

#[test]
fn identical_instances_agree_step_for_step() {
    let key = random_key();
    let mut first = RandomIdGenerator::new(key.clone(), 42, 2);
    let mut second = RandomIdGenerator::new(key, 42, 2);
    for _ in 0..100 {
        assert_eq!(first.next().unwrap(), second.next().unwrap());
    }
    assert_eq!(first.next().unwrap(), None);
    assert_eq!(second.next().unwrap(), None);
}

#[test]
fn different_tweaks_give_different_orders() {
    let key = random_key();
    let mut first = RandomIdGenerator::new(key.clone(), 1, 2);
    let mut second = RandomIdGenerator::new(key, 2, 2);
    assert_ne!(drain(&mut first), drain(&mut second));
}

#[test]
fn last_returns_the_final_value_and_exhausts() {
    let key = random_key();
    let mut full = RandomIdGenerator::new(key.clone(), 0, 2);
    let ids = drain(&mut full);

    let mut jumper = RandomIdGenerator::new(key, 0, 2);
    assert_eq!(jumper.last().unwrap(), Some(ids[99]));
    assert_eq!(jumper.remaining(), 0);
    assert!(jumper.next().unwrap().is_none());
    assert!(jumper.last().unwrap().is_none());
}

#[test]
fn count_reports_and_consumes_the_rest() {
    let mut id_generator = RandomIdGenerator::new(random_key(), 0, 2);
    for _ in 0..30 {
        assert!(id_generator.next().unwrap().is_some());
    }
    assert_eq!(id_generator.count(), 70);
    assert_eq!(id_generator.remaining(), 0);
    assert!(id_generator.next().unwrap().is_none());
    assert_eq!(id_generator.count(), 0);
}

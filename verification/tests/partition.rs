use rpc::partition::{
    batch_fits, circuit_attempts, generate_all_relay_two_hop_circuit_combinations, thread_batch,
    NO_OF_RELAYS_TO_TEST,
};

#[test]
fn combinations_leave_out_the_first_relay() {
    let grid = generate_all_relay_two_hop_circuit_combinations(vec![10u32, 20, 30]);
    assert_eq!(grid, vec![vec![(20, 20), (20, 30)], vec![(30, 20), (30, 30)]]);
}

#[test]
fn combinations_of_one_or_no_relay_are_empty() {
    assert!(generate_all_relay_two_hop_circuit_combinations(Vec::<u32>::new()).is_empty());
    assert!(generate_all_relay_two_hop_circuit_combinations(vec![5u32]).is_empty());
}

#[test]
fn combinations_grid_is_square() {
    let grid = generate_all_relay_two_hop_circuit_combinations((0u32..6).collect());
    assert_eq!(grid.len(), 5);
    for (i, row) in grid.iter().enumerate() {
        assert_eq!(row.len(), 5);
        for (j, pair) in row.iter().enumerate() {
            assert_eq!(*pair, (i as u32 + 1, j as u32 + 1));
        }
    }
}

#[test]
fn thread_batch_takes_its_block() {
    let relays: Vec<u32> = (0..400).collect();
    let batch = thread_batch(1, &relays, 40);
    assert_eq!(batch, (10..20).collect::<Vec<u32>>());
    let last = thread_batch(39, &relays, 40);
    assert_eq!(last, (390..400).collect::<Vec<u32>>());
}

#[test]
fn thread_batches_cover_all_relays() {
    let relays: Vec<u32> = (1000..1400).collect();
    let mut all = Vec::new();
    for i in 0..40 {
        all.extend(thread_batch(i, &relays, 40));
    }
    assert_eq!(all, relays);
    assert_eq!(NO_OF_RELAYS_TO_TEST, 400);
}

#[test]
fn thread_batch_of_a_single_worker_is_everything() {
    let relays: Vec<u32> = (0..400).map(|x| x * 3).collect();
    assert_eq!(thread_batch(0, &relays, 1), relays);
}

#[test]
fn thread_batch_rounds_the_share_down() {
    let relays: Vec<u32> = (0..400).collect();
    // 400 / 3 == 133
    assert_eq!(thread_batch(2, &relays, 3), (266..399).collect::<Vec<u32>>());
}

#[test]
fn attempts_skip_a_relay_to_itself() {
    let pairs = circuit_attempts(&vec![1, 2], &vec![1, 2, 3]);
    assert_eq!(pairs, vec![(1, 2), (1, 3), (2, 1), (2, 3)]);
}

#[test]
fn attempts_of_an_empty_batch_are_none() {
    assert!(circuit_attempts(&vec![], &vec![1, 2, 3]).is_empty());
    assert!(circuit_attempts(&vec![4], &vec![4]).is_empty());
}

#[test]
fn batch_fits_checks_the_share() {
    assert!(batch_fits(39, 400, 40));
    assert!(!batch_fits(40, 400, 40));
    assert!(!batch_fits(0, 400, 0));
    assert!(!batch_fits(1, 15, 40));
    assert!(!batch_fits(usize::MAX, usize::MAX, 1));
    // 400 / 500 == 0: an empty share always fits.
    assert!(batch_fits(usize::MAX, 0, 500));
}

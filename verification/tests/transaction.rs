use twopc::transaction::{State, Transaction};

fn sorted(mut ids: Vec<usize>) -> Vec<usize> {
    ids.sort();
    ids
}

fn visited(transaction: &Transaction) -> Vec<usize> {
    let mut ids = Vec::new();
    transaction.for_each_participant(|node_id| ids.push(node_id));
    ids
}

/// A transaction in the given state, reached by the shortest way from the default one.
fn transaction_in(state: State) -> Transaction {
    let mut transaction = Transaction::default();
    match state {
        State::Inactive => {}
        State::Active => {
            transaction.start();
        }
        State::Prepared => {
            transaction.start();
            transaction.prepare();
        }
        State::Committed => {
            transaction.start();
            transaction.prepare();
            transaction.commit();
        }
        State::RolledBack => {
            transaction.rollback();
        }
    }
    assert_eq!(transaction.state(), state);
    transaction
}

const ALL_STATES: [State; 5] = [
    State::Inactive,
    State::Active,
    State::Prepared,
    State::Committed,
    State::RolledBack,
];

#[test]
fn only_committed_and_rolled_back_are_terminal() {
    assert!(!State::Inactive.is_terminal());
    assert!(!State::Active.is_terminal());
    assert!(!State::Prepared.is_terminal());
    assert!(State::Committed.is_terminal());
    assert!(State::RolledBack.is_terminal());
}

#[test]
fn default_transaction_is_inactive_without_participants() {
    let transaction = Transaction::default();
    assert_eq!(transaction.state(), State::Inactive);
    assert_eq!(transaction.participants(), Vec::<usize>::new());
    assert_eq!(visited(&transaction), Vec::<usize>::new());
    assert_eq!(transaction.participant_prepared(0), None);
}

#[test]
fn start_takes_effect_once() {
    let mut transaction = Transaction::default();
    assert!(transaction.start());
    assert_eq!(transaction.state(), State::Active);
    assert!(!transaction.start());
    assert_eq!(transaction.state(), State::Active);
}

#[test]
fn start_has_no_effect_beyond_inactive() {
    for state in [State::Active, State::Prepared, State::Committed, State::RolledBack] {
        let mut transaction = transaction_in(state);
        assert!(!transaction.start());
        assert_eq!(transaction.state(), state);
    }
}

#[test]
fn prepare_moves_active_to_prepared_only() {
    for state in ALL_STATES {
        let mut transaction = transaction_in(state);
        let prepared = transaction.prepare();
        if state == State::Active {
            assert!(prepared);
            assert_eq!(transaction.state(), State::Prepared);
        } else {
            assert!(!prepared);
            assert_eq!(transaction.state(), state);
        }
    }
}

#[test]
fn commit_moves_prepared_to_committed_only() {
    for state in ALL_STATES {
        let mut transaction = transaction_in(state);
        let committed = transaction.commit();
        if state == State::Prepared {
            assert!(committed);
            assert_eq!(transaction.state(), State::Committed);
        } else {
            assert!(!committed);
            assert_eq!(transaction.state(), state);
        }
    }
}

#[test]
fn rollback_moves_every_undecided_state_to_rolled_back() {
    for state in [State::Inactive, State::Active, State::Prepared] {
        let mut transaction = transaction_in(state);
        assert!(transaction.rollback());
        assert_eq!(transaction.state(), State::RolledBack);
    }
}

#[test]
fn rollback_never_overwrites_a_decision() {
    let mut committed = transaction_in(State::Committed);
    assert!(!committed.rollback());
    assert_eq!(committed.state(), State::Committed);

    let mut rolled_back = transaction_in(State::RolledBack);
    assert!(!rolled_back.rollback());
    assert_eq!(rolled_back.state(), State::RolledBack);
}

#[test]
fn commit_never_overwrites_a_rollback() {
    let mut transaction = transaction_in(State::Prepared);
    assert!(transaction.rollback());
    assert!(!transaction.commit());
    assert_eq!(transaction.state(), State::RolledBack);
}

#[test]
fn terminal_state_survives_every_operation() {
    for state in [State::Committed, State::RolledBack] {
        let mut transaction = Transaction::default();
        transaction.start();
        transaction.add_participant(1);
        transaction.prepare();
        if state == State::Committed {
            transaction.report_prepared(1);
            transaction.commit();
        } else {
            transaction.rollback();
        }
        assert_eq!(transaction.state(), state);
        for round in 0..3 {
            transaction.start();
            assert_eq!(transaction.state(), state);
            transaction.add_participant(10 + round);
            assert_eq!(transaction.state(), state);
            transaction.prepare();
            assert_eq!(transaction.state(), state);
            transaction.report_prepared(1);
            assert_eq!(transaction.state(), state);
            transaction.commit();
            assert_eq!(transaction.state(), state);
            transaction.rollback();
            assert_eq!(transaction.state(), state);
        }
    }
}

#[test]
fn add_participant_registers_a_node_once() {
    let mut transaction = Transaction::default();
    assert!(transaction.add_participant(7));
    assert_eq!(transaction.participants(), vec![7]);
    assert_eq!(transaction.participant_prepared(7), Some(false));
    assert!(!transaction.add_participant(7));
    assert_eq!(transaction.participants(), vec![7]);
    assert!(transaction.add_participant(3));
    assert_eq!(sorted(transaction.participants()), vec![3, 7]);
    assert_eq!(transaction.state(), State::Inactive);
}

#[test]
fn add_participant_keeps_the_flag_of_a_registered_node() {
    let mut transaction = transaction_in(State::Active);
    transaction.add_participant(1);
    transaction.prepare();
    assert!(transaction.report_prepared(1));
    assert_eq!(transaction.participant_prepared(1), Some(true));
    assert!(!transaction.add_participant(1));
    assert_eq!(transaction.participant_prepared(1), Some(true));
    assert!(transaction.is_all_prepared());
}

#[test]
fn registry_never_shrinks_and_flags_never_revert() {
    let mut transaction = Transaction::default();
    let mut size = 0;
    let mut reported: Vec<usize> = Vec::new();
    let script: [(u8, usize); 14] = [
        (1, 4),
        (0, 0),
        (1, 5),
        (1, 4),
        (3, 4),
        (2, 0),
        (3, 4),
        (1, 6),
        (3, 9),
        (3, 5),
        (1, 5),
        (4, 0),
        (1, 8),
        (5, 0),
    ];
    for (code, node_id) in script {
        match code {
            0 => {
                transaction.start();
            }
            1 => {
                transaction.add_participant(node_id);
            }
            2 => {
                transaction.prepare();
            }
            3 => {
                if transaction.report_prepared(node_id) {
                    reported.push(node_id);
                }
            }
            4 => {
                transaction.commit();
            }
            _ => {
                transaction.rollback();
            }
        }
        let now = transaction.participants().len();
        assert!(now >= size);
        size = now;
        for node_id in &reported {
            assert_eq!(transaction.participant_prepared(*node_id), Some(true));
        }
    }
    assert_eq!(sorted(transaction.participants()), vec![4, 5, 6, 8]);
    assert_eq!(sorted(reported), vec![4, 5]);
    assert_eq!(transaction.participant_prepared(6), Some(false));
    assert_eq!(transaction.participant_prepared(8), Some(false));
}

#[test]
fn is_all_prepared_holds_vacuously_without_participants() {
    for state in ALL_STATES {
        assert!(transaction_in(state).is_all_prepared());
    }
}

#[test]
fn is_all_prepared_needs_every_flag() {
    let mut transaction = transaction_in(State::Active);
    transaction.add_participant(1);
    transaction.add_participant(2);
    assert!(!transaction.is_all_prepared());
    transaction.prepare();
    assert!(!transaction.is_all_prepared());
    assert!(transaction.report_prepared(2));
    assert!(!transaction.is_all_prepared());
    assert!(transaction.report_prepared(1));
    assert!(transaction.is_all_prepared());
    transaction.add_participant(3);
    assert!(!transaction.is_all_prepared());
}

#[test]
fn report_prepared_is_accepted_only_while_prepared() {
    for state in [State::Inactive, State::Active, State::RolledBack] {
        let mut transaction = Transaction::default();
        transaction.add_participant(1);
        match state {
            State::Active => {
                transaction.start();
            }
            State::RolledBack => {
                transaction.rollback();
            }
            _ => {}
        }
        assert_eq!(transaction.state(), state);
        assert!(!transaction.report_prepared(1));
        assert_eq!(transaction.participant_prepared(1), Some(false));
    }

    let mut committed = Transaction::default();
    committed.start();
    committed.prepare();
    committed.commit();
    committed.add_participant(1);
    assert!(!committed.report_prepared(1));
    assert_eq!(committed.participant_prepared(1), Some(false));
}

#[test]
fn report_prepared_changes_a_flag_exactly_once() {
    let mut transaction = transaction_in(State::Active);
    transaction.add_participant(1);
    transaction.add_participant(2);
    transaction.prepare();
    assert!(transaction.report_prepared(1));
    assert!(!transaction.report_prepared(1));
    assert_eq!(transaction.participant_prepared(1), Some(true));
    assert_eq!(transaction.participant_prepared(2), Some(false));
    assert_eq!(transaction.state(), State::Prepared);
}

#[test]
fn report_prepared_ignores_an_unregistered_node() {
    let mut transaction = transaction_in(State::Active);
    transaction.add_participant(1);
    transaction.prepare();
    assert!(!transaction.report_prepared(2));
    assert_eq!(transaction.participants(), vec![1]);
    assert_eq!(transaction.participant_prepared(2), None);
    assert_eq!(transaction.participant_prepared(1), Some(false));
}

#[test]
fn for_each_participant_visits_every_participant_once() {
    let mut transaction = Transaction::default();
    for node_id in [5, 1, 9, 1, 3, 5] {
        transaction.add_participant(node_id);
    }
    assert_eq!(sorted(visited(&transaction)), vec![1, 3, 5, 9]);
    assert_eq!(sorted(transaction.participants()), vec![1, 3, 5, 9]);
}

#[test]
fn for_each_participant_keeps_one_order_for_one_registry() {
    let mut transaction = Transaction::default();
    for node_id in 0..20 {
        transaction.add_participant(node_id * 7 % 20);
    }
    let first = visited(&transaction);
    assert_eq!(first.len(), 20);
    assert_eq!(visited(&transaction), first);
    assert_eq!(transaction.participants(), first);
}

#[test]
fn clone_is_equal_and_independent() {
    let mut original = transaction_in(State::Active);
    original.add_participant(1);
    let mut copy = original.clone();
    assert_eq!(copy, original);
    assert_eq!(copy.state(), State::Active);
    assert_eq!(copy.participants(), vec![1]);

    copy.add_participant(2);
    copy.prepare();
    assert_ne!(copy, original);
    assert_eq!(original.participants(), vec![1]);
    assert_eq!(original.state(), State::Active);
}

#[test]
fn equality_ignores_the_order_of_registration() {
    let mut one = Transaction::default();
    one.add_participant(1);
    one.add_participant(2);
    let mut other = Transaction::default();
    other.add_participant(2);
    other.add_participant(1);
    assert_eq!(one, other);

    other.start();
    other.prepare();
    other.report_prepared(1);
    one.start();
    one.prepare();
    assert_ne!(one, other);
    one.report_prepared(1);
    assert_eq!(one, other);
}

/// Returns `true` if no operation in the sequence reports an illegal success:
/// a second start, prepare, commit or rollback, a commit after a rollback, or
/// a rollback after a commit.
fn check_api_safety(seq: &[usize]) -> bool {
    let mut started = false;
    let mut prepared = false;
    let mut committed = false;
    let mut rolled_back = false;
    let mut transaction = Transaction::default();
    !seq.iter().any(|op_code| {
        // Returns `true` if it detects anything illegal.
        match op_code % 4 {
            0 => {
                // 0 => start.
                if started {
                    transaction.start()
                } else if transaction.start() {
                    started = true;
                    false
                } else {
                    false
                }
            }
            1 => {
                // 1 => prepare.
                if prepared {
                    transaction.prepare()
                } else if transaction.prepare() {
                    prepared = true;
                    false
                } else {
                    false
                }
            }
            2 => {
                // 2 => commit.
                if committed {
                    transaction.commit()
                } else if transaction.commit() {
                    committed = true;

                    // A rolled back transaction should never be committed.
                    rolled_back
                } else {
                    false
                }
            }
            _ => {
                // 3 => rollback.
                if rolled_back {
                    transaction.rollback()
                } else if transaction.rollback() {
                    rolled_back = true;

                    // A committed transaction should never be rolled back.
                    committed
                } else {
                    false
                }
            }
        }
    })
}

#[test]
fn prop_api_safety() {
    assert!(check_api_safety(&[]));
    assert!(check_api_safety(&[0, 1, 2, 3]));
    assert!(check_api_safety(&[0, 1, 3, 2]));
    assert!(check_api_safety(&[3, 0, 1, 2]));
    assert!(check_api_safety(&[2, 1, 0, 0, 1, 1, 2, 2, 3, 3]));

    // Every sequence of up to six operations.
    for length in 0..=6u32 {
        for code in 0..4usize.pow(length) {
            let mut seq = Vec::new();
            let mut rest = code;
            for _ in 0..length {
                seq.push(rest % 4);
                rest /= 4;
            }
            assert!(check_api_safety(&seq), "{:?}", seq);
        }
    }

    // Longer sequences, drawn from a fixed linear congruential generator.
    let mut seed: u64 = 0x2545_f491_4f6c_dd1d;
    for _ in 0..500 {
        let mut seq = Vec::new();
        for _ in 0..40 {
            seed = seed
                .wrapping_mul(6364136223846793005)
                .wrapping_add(1442695040888963407);
            seq.push((seed >> 33) as usize);
        }
        assert!(check_api_safety(&seq), "{:?}", seq);
    }
}

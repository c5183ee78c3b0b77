use erdos::state::{AccessContext, AccessError, StateOperation, TimeVersionedState};
use erdos::timestamp::Timestamp;

#[test]
fn test_operator_new_access() {
    let mut state: TimeVersionedState<usize, usize> = TimeVersionedState::new_with_history_size(1);
    assert_eq!(state.access_context(), AccessContext::Operator);
    state.set_history_size(2).unwrap();
    assert_eq!(state.history_size(), 2);
    state.set_initial_state(99).unwrap();
    assert_eq!(Some(&99), state.state_history_at(&Timestamp::bottom()));
    assert!(state.append(3).is_err());
    assert_eq!(None, state.message_history_at(&Timestamp::bottom()));
    assert!(state.get_current_messages().is_err());
    assert!(state.get_state(&Timestamp::bottom()).is_err());
    assert!(state.get_current_state().is_err());
    assert!(state.get_current_state_mut().is_err());
    assert!(state.iter_states().is_err());
}

#[test]
fn test_regular_callback_access() {
    let mut state: TimeVersionedState<usize, usize> = TimeVersionedState::new_with_history_size(1);
    state.set_access_context(AccessContext::Callback);
    let current_time = Timestamp::new(vec![1]);
    state.set_current_time(current_time.clone());
    assert!(state.set_history_size(2).is_err());
    assert_ne!(state.history_size(), 2);
    assert!(state.set_initial_state(99).is_err());
    assert_eq!(None, state.state_history_at(&Timestamp::bottom()));
    assert!(state.append(3).is_ok());
    assert_eq!(Some(&vec![3]), state.message_history_at(&current_time));
    assert!(state.get_current_messages().is_err());
    assert!(state.get_state(&Timestamp::bottom()).is_err());
    assert!(state.get_current_state().is_err());
    assert!(state.get_current_state_mut().is_err());
    assert!(state.iter_states().is_err());
}

#[test]
fn test_watermark_callback_access() {
    let mut state: TimeVersionedState<usize, usize> = TimeVersionedState::new_with_history_size(1);
    state.set_current_time(Timestamp::new(vec![1]));
    state.set_access_context(AccessContext::WatermarkCallback);
    assert!(state.set_history_size(2).is_err());
    assert_ne!(state.history_size(), 2);
    assert!(state.set_initial_state(99).is_err());
    assert_eq!(None, state.state_history_at(&Timestamp::bottom()));
    assert!(state.append(3).is_err());
    assert_eq!(None, state.message_history_at(&Timestamp::bottom()));
    assert_eq!(Ok(&vec![]), state.get_current_messages());
    assert_eq!(Ok(None), state.get_state(&Timestamp::bottom()));
    assert_eq!(Ok(&usize::default()), state.get_current_state());
    assert_eq!(Ok(&mut usize::default()), state.get_current_state_mut());
    assert!(state.iter_states().is_ok());
}

/// Create TimeVersioned state with history size of 2.
/// Set initial state.
/// Simulate 2 callbacks which adds messages and 1 watermark callback
/// which sums messages to produce state.
/// Closes time and checks that GC was performed properly.
#[test]
fn test_lifecycle() {
    let mut versioned_state = TimeVersionedState::new_with_history_size(2);
    versioned_state.set_initial_state(100).unwrap();
    versioned_state.set_access_context(AccessContext::Callback);
    for i in 1..=5 {
        versioned_state.set_current_time(Timestamp::new(vec![i as u64]));
        versioned_state.append(i).unwrap();
        versioned_state.append(i * 2).unwrap();
        versioned_state.append(i * 3).unwrap();
    }
    versioned_state.set_access_context(AccessContext::WatermarkCallback);
    for i in 1..=5 {
        let current_time = Timestamp::new(vec![i as u64]);
        versioned_state.set_current_time(current_time.clone());
        assert_eq!(versioned_state.get_current_state(), Ok(&usize::default()));
        let new_state = versioned_state
            .get_current_messages()
            .unwrap()
            .iter()
            .sum::<usize>();
        assert_eq!(new_state, i * 6);
        *versioned_state.get_current_state_mut().unwrap() = new_state;
        assert_eq!(versioned_state.get_current_state(), Ok(&new_state));
        let mut num_states_accessible = 0;
        let expected_num_states_accessible = if i < versioned_state.history_size() {
            i + 1
        } else {
            versioned_state.history_size()
        };
        for (j, (t, state)) in versioned_state.iter_states().unwrap().into_iter().enumerate() {
            let (expected_t, expected_state) = match i - j {
                0 => (Timestamp::bottom(), 100),
                x => (Timestamp::new(vec![x as u64]), 6 * x),
            };
            assert_eq!(
                t, &expected_t,
                "i: {}, j: {}, expected_num_states: {}",
                i, j, expected_num_states_accessible
            );
            assert_eq!(state, &expected_state);
            assert_eq!(versioned_state.get_state(t), Ok(Some(state)));
            num_states_accessible += 1;
        }
        assert_eq!(num_states_accessible, expected_num_states_accessible);
        assert!(versioned_state
            .get_state(&Timestamp::new(vec![(i + 1) as u64]))
            .unwrap()
            .is_none());
        if i % 2 == 0 {
            versioned_state.close_time(&current_time);
            let expected_min_time =
                Timestamp::new(vec![(i + 1 - expected_num_states_accessible) as u64]);
            let gcd_messages: Vec<Timestamp> = versioned_state
                .message_times()
                .into_iter()
                .filter(|t| t.precedes(&expected_min_time))
                .collect();
            assert!(gcd_messages.is_empty());
            let gcd_states: Vec<Timestamp> = versioned_state
                .state_times()
                .into_iter()
                .filter(|t| t.precedes(&expected_min_time))
                .collect();
            assert!(gcd_states.is_empty(), "{:?}", gcd_states);
        }
    }
}

#[test]
fn access_violation_carries_operation_and_context() {
    let mut state: TimeVersionedState<usize, usize> = TimeVersionedState::new();
    assert_eq!(
        state.append(1),
        Err(AccessError { operation: StateOperation::Append, context: AccessContext::Operator })
    );
    state.set_current_time(Timestamp::new(vec![1]));
    state.set_access_context(AccessContext::Callback);
    assert_eq!(
        state.get_current_state(),
        Err(AccessError { operation: StateOperation::GetCurrentState, context: AccessContext::Callback })
    );
    state.set_access_context(AccessContext::WatermarkCallback);
    assert_eq!(
        state.set_initial_state(5),
        Err(AccessError {
            operation: StateOperation::SetInitialState,
            context: AccessContext::WatermarkCallback
        })
    );
}

#[test]
fn close_time_with_zero_history_drops_every_state_up_to_t() {
    let mut state: TimeVersionedState<usize, usize> = TimeVersionedState::new();
    state.set_initial_state(7).unwrap();
    state.set_access_context(AccessContext::WatermarkCallback);
    for i in 1..=3u64 {
        state.set_current_time(Timestamp::new(vec![i]));
    }
    state.close_time(&Timestamp::new(vec![2]));
    assert_eq!(state.state_times(), vec![Timestamp::new(vec![3])]);
    assert_eq!(state.message_times(), vec![Timestamp::new(vec![3])]);
    state.close_time(&Timestamp::new(vec![3]));
    assert!(state.state_times().is_empty());
}

#[test]
fn iter_states_yields_at_most_history_size_newest_first() {
    let mut state: TimeVersionedState<u64, u64> = TimeVersionedState::new_with_history_size(3);
    state.set_initial_state(1).unwrap();
    state.set_access_context(AccessContext::WatermarkCallback);
    for i in 1..=5u64 {
        state.set_current_time(Timestamp::new(vec![i]));
        *state.get_current_state_mut().unwrap() = 10 * i;
    }
    state.set_current_time(Timestamp::new(vec![4]));
    let got: Vec<(Timestamp, u64)> =
        state.iter_states().unwrap().into_iter().map(|(t, s)| (t.clone(), *s)).collect();
    assert_eq!(
        got,
        vec![
            (Timestamp::new(vec![4]), 40),
            (Timestamp::new(vec![3]), 30),
            (Timestamp::new(vec![2]), 20)
        ]
    );
}

#[test]
fn get_state_window_covers_history_size_predecessors() {
    let mut state: TimeVersionedState<u64, u64> = TimeVersionedState::new_with_history_size(1);
    state.set_initial_state(1).unwrap();
    state.set_access_context(AccessContext::WatermarkCallback);
    for i in 1..=3u64 {
        state.set_current_time(Timestamp::new(vec![i]));
    }
    assert_eq!(state.get_state(&Timestamp::new(vec![3])), Ok(Some(&0)));
    assert_eq!(state.get_state(&Timestamp::new(vec![2])), Ok(Some(&0)));
    assert_eq!(state.get_state(&Timestamp::new(vec![1])), Ok(None));
    assert_eq!(state.get_state(&Timestamp::bottom()), Ok(None));
    assert_eq!(state.get_state(&Timestamp::new(vec![2, 5])), Ok(None));
}

#[test]
fn timestamps_order_lexicographically_between_bottom_and_top() {
    let b = Timestamp::bottom();
    let t = Timestamp::top();
    let a = Timestamp::new(vec![1, 2]);
    let c = Timestamp::new(vec![1, 3]);
    let p = Timestamp::new(vec![1]);
    assert!(b.precedes(&a) && a.precedes(&t) && b.precedes(&t));
    assert!(a.precedes(&c) && !c.precedes(&a));
    assert!(p.precedes(&a));
    assert!(!a.precedes(&a));
    assert!(a.same_as(&Timestamp::new(vec![1, 2])));
    assert!(!t.precedes(&t));
}

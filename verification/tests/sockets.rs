use ozone::sockets::{
    ro_first_init, socket_finalized, socket_first_init, socket_initialized, AfterInitialize, RoState, SocketState,
};

#[test]
fn only_the_first_initialization_goes_through() {
    let mut state = SocketState::new();
    assert!(socket_first_init(&mut state));
    assert_eq!(socket_initialized(&mut state, 0), AfterInitialize::ResumeLogger);
    assert!(!socket_first_init(&mut state));
    assert!(!socket_first_init(&mut state));
}

#[test]
fn a_failed_initialization_is_retried() {
    let mut state = SocketState::new();
    assert!(socket_first_init(&mut state));
    assert_eq!(socket_initialized(&mut state, -1), AfterInitialize::Retry);
    assert!(socket_first_init(&mut state));
    assert_eq!(socket_initialized(&mut state, 0), AfterInitialize::ResumeLogger);
    assert!(!socket_first_init(&mut state));
}

#[test]
fn finalization_lets_the_next_initialization_through() {
    let mut state = SocketState::new();
    assert!(socket_first_init(&mut state));
    socket_initialized(&mut state, 0);
    socket_finalized(&mut state);
    assert!(socket_first_init(&mut state));
    assert!(!socket_first_init(&mut state));
}

#[test]
fn concurrent_second_caller_is_turned_away_before_the_result() {
    // the game's call arrives while ozone's own initialization is still running
    let mut state = SocketState::new();
    assert!(socket_first_init(&mut state));
    assert!(!socket_first_init(&mut state));
}

#[test]
fn ro_is_initialized_once() {
    let mut state = RoState::new();
    assert!(ro_first_init(&mut state));
    assert!(!ro_first_init(&mut state));
    assert!(!ro_first_init(&mut state));
}

#[test]
fn many_calls_let_exactly_one_through() {
    let mut state = SocketState::new();
    let mut through = 0;
    for _ in 0..10 {
        if socket_first_init(&mut state) {
            through += 1;
            assert_eq!(socket_initialized(&mut state, 0), AfterInitialize::ResumeLogger);
        }
    }
    assert_eq!(through, 1);
}

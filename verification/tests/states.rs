use lightyear_netcode::state::ClientState;

const ORDER: [ClientState; 9] = [
    ClientState::ConnectTokenExpired,
    ClientState::ConnectionTimedOut,
    ClientState::ConnectionRequestTimedOut,
    ClientState::ChallengeResponseTimedOut,
    ClientState::ConnectionDenied,
    ClientState::Disconnected,
    ClientState::SendingConnectionRequest,
    ClientState::SendingChallengeResponse,
    ClientState::Connected,
];

#[test]
fn states_are_ordered_as_declared() {
    for (i, a) in ORDER.iter().enumerate() {
        assert_eq!(a.index() as usize, i);
        for (j, b) in ORDER.iter().enumerate() {
            assert_eq!(a < b, i < j);
            assert_eq!(a <= b, i <= j);
            assert_eq!(a > b, i > j);
            assert_eq!(a == b, i == j);
            assert_eq!(a.partial_cmp(b), i.partial_cmp(&j));
            assert_eq!(a.cmp(b), i.cmp(&j));
        }
    }
}

#[test]
fn error_states_come_before_disconnected() {
    for state in &ORDER[..5] {
        assert!(*state < ClientState::Disconnected);
    }
    for state in &ORDER[5..] {
        assert!(*state >= ClientState::Disconnected);
    }
    assert!(ClientState::Disconnected < ClientState::SendingConnectionRequest);
    assert!(ClientState::SendingChallengeResponse < ClientState::Connected);
}

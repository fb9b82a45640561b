use rustafarian_controller::runnable::{keeps_running, ShutdownPoll};

#[test]
fn node_threads_stop_on_signal_or_disconnection() {
    assert!(keeps_running(ShutdownPoll::TimedOut));
    assert!(!keeps_running(ShutdownPoll::Signalled));
    assert!(!keeps_running(ShutdownPoll::Disconnected));
}

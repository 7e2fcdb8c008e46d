use ipc_poc_backend::server::{
    listen_step, pipe_step, ListenAction, ListenEvent, PipeAction, PipeEvent, PipeInstances,
    ACCEPT_RETRY_PAUSE_MILLIS, CONNECT_TIMEOUT_SECS, MAX_CONCURRENT_CONNECTIONS,
};

#[test]
fn pipe_server_stops_on_failures_and_reopens_after_a_timeout() {
    assert_eq!(pipe_step(PipeEvent::CreateFailed), PipeAction::Stop);
    assert_eq!(pipe_step(PipeEvent::ConnectFailed), PipeAction::Stop);
    assert_eq!(pipe_step(PipeEvent::PermitRefused), PipeAction::Stop);
    assert_eq!(pipe_step(PipeEvent::ConnectTimedOut), PipeAction::CreateNext);
    assert_eq!(pipe_step(PipeEvent::Connected), PipeAction::ServeAndAwaitSlot);
}

#[test]
fn socket_server_pauses_after_a_failed_accept() {
    assert_eq!(listen_step(ListenEvent::BindFailed), ListenAction::Stop);
    assert_eq!(listen_step(ListenEvent::PermitRefused), ListenAction::Stop);
    assert_eq!(listen_step(ListenEvent::Accepted), ListenAction::ServeAndAwaitSlot);
    assert_eq!(listen_step(ListenEvent::AcceptFailed), ListenAction::PauseThenAwaitSlot(100));
}

#[test]
fn server_limits() {
    assert_eq!(CONNECT_TIMEOUT_SECS, 5);
    assert_eq!(ACCEPT_RETRY_PAUSE_MILLIS, 100);
    assert_eq!(MAX_CONCURRENT_CONNECTIONS, 10);
}

#[test]
fn only_the_first_pipe_instance_is_first() {
    let mut instances = PipeInstances::new();
    assert!(instances.open_next());
    assert!(!instances.open_next());
    assert!(!instances.open_next());
}

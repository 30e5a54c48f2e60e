use turnip_rs::runtime::ConnectionTable;
use turnip_rs::runtime::PeerEvent;
use turnip_rs::runtime::PeerIoTask;
use turnip_rs::runtime::PeerTaskAction;
use turnip_rs::runtime::PeerTaskState;
use turnip_rs::runtime::RuntimeAction;
use turnip_rs::tcp_stream_message::TcpStreamMessage;

fn deliveries(actions: &[RuntimeAction]) -> Vec<(String, Vec<u8>)> {
    let mut out = Vec::new();
    for a in actions.iter() {
        if let RuntimeAction::Deliver(addr, bytes) = a {
            out.push((addr.clone(), bytes.clone()));
        }
    }
    out
}

#[test]
fn connect_spawns_and_registers() {
    let mut table = ConnectionTable::new();
    let actions = table.step(TcpStreamMessage::Connect("p1".to_string()));
    assert_eq!(actions.len(), 1);
    assert!(matches!(&actions[0], RuntimeAction::SpawnPeerTask(a) if a == "p1"));
    assert!(table.contains_peer(&"p1".to_string()));
}

#[test]
fn disconnect_then_write_is_dropped() {
    let mut table = ConnectionTable::new();
    table.step(TcpStreamMessage::Connect("p1".to_string()));
    let none = table.step(TcpStreamMessage::Disconnect("p1".to_string()));
    assert!(none.is_empty());
    assert!(!table.contains_peer(&"p1".to_string()));

    // the write that follows at once is dropped: no delivery, no queueing
    let actions = table.step(TcpStreamMessage::Write("p1".to_string(), vec![1, 2, 3]));
    assert!(actions.is_empty());
}

#[test]
fn write_to_known_peer_is_delivered() {
    let mut table = ConnectionTable::new();
    table.step(TcpStreamMessage::Connect("p1".to_string()));
    let actions = table.step(TcpStreamMessage::Write("p1".to_string(), vec![9]));
    assert_eq!(deliveries(&actions), vec![("p1".to_string(), vec![9])]);
}

#[test]
fn write_all_reaches_remaining_peers_past_a_closed_channel() {
    let mut table = ConnectionTable::new();
    table.step(TcpStreamMessage::Connect("p1".to_string()));
    table.step(TcpStreamMessage::Connect("p2".to_string()));
    table.step(TcpStreamMessage::Connect("p3".to_string()));
    // p2's outbound channel has gone away, observed on a failed enqueue
    table.set_channel_closed(&"p2".to_string());

    let actions = table.step(TcpStreamMessage::WriteAll(vec![7, 8]));
    let mut got = deliveries(&actions);
    got.sort();
    assert_eq!(
        got,
        vec![
            ("p1".to_string(), vec![7, 8]),
            ("p3".to_string(), vec![7, 8]),
        ]
    );
}

#[test]
fn read_is_rebroadcast() {
    let mut table = ConnectionTable::new();
    table.step(TcpStreamMessage::Connect("p1".to_string()));
    let actions = table.step(TcpStreamMessage::Read("p1".to_string(), vec![4, 5]));
    assert_eq!(actions.len(), 1);
    assert!(matches!(&actions[0], RuntimeAction::Broadcast(b) if b == &vec![4, 5]));
}

#[test]
fn peer_task_forwards_reads_and_writes() {
    let mut task = PeerIoTask::new("p1".to_string());
    assert_eq!(task.state, PeerTaskState::Connecting);
    task.peer_step(PeerEvent::SocketReady);
    assert_eq!(task.state, PeerTaskState::Connected);

    let actions = task.peer_step(PeerEvent::DataRead(vec![1]));
    assert_eq!(actions.len(), 1);
    assert!(matches!(&actions[0], PeerTaskAction::ForwardRead(a, b) if a == "p1" && b == &vec![1]));

    let actions = task.peer_step(PeerEvent::OutboundData(vec![2]));
    assert_eq!(actions.len(), 1);
    assert!(matches!(&actions[0], PeerTaskAction::WriteSocket(b) if b == &vec![2]));
}

#[test]
fn peer_task_closes_on_eof_and_forwards_disconnect() {
    let mut task = PeerIoTask::new("p1".to_string());
    task.peer_step(PeerEvent::SocketReady);
    let actions = task.peer_step(PeerEvent::ReadEof);
    assert_eq!(actions.len(), 1);
    assert!(matches!(&actions[0], PeerTaskAction::ForwardDisconnect(a) if a == "p1"));
    assert_eq!(task.state, PeerTaskState::Closed);

    // a closed task does nothing more
    assert!(task.peer_step(PeerEvent::DataRead(vec![1])).is_empty());
    assert_eq!(task.state, PeerTaskState::Closed);
}

#[test]
fn peer_task_closes_when_outbound_channel_goes() {
    let mut task = PeerIoTask::new("p1".to_string());
    task.peer_step(PeerEvent::SocketReady);
    let actions = task.peer_step(PeerEvent::OutboundClosed);
    assert!(actions.is_empty());
    assert_eq!(task.state, PeerTaskState::Closed);
}

#[test]
fn dial_and_hangup_between_two_nodes() {
    // node B dials node A: A's listener hands the accepted socket to the
    // control loop as a connect for B's address
    let mut a_table = ConnectionTable::new();
    let actions = a_table.step(TcpStreamMessage::Connect("B_addr".to_string()));
    assert!(matches!(&actions[0], RuntimeAction::SpawnPeerTask(a) if a == "B_addr"));
    assert!(a_table.contains_peer(&"B_addr".to_string()));

    // A's per-peer task comes up
    let mut b_task = PeerIoTask::new("B_addr".to_string());
    b_task.peer_step(PeerEvent::SocketReady);
    assert_eq!(b_task.state, PeerTaskState::Connected);

    // B hangs up: the task sees a zero-length read, forwards a disconnect
    // and terminates
    let actions = b_task.peer_step(PeerEvent::ReadEof);
    assert!(matches!(&actions[0], PeerTaskAction::ForwardDisconnect(a) if a == "B_addr"));
    assert_eq!(b_task.state, PeerTaskState::Closed);

    // the control loop consumes the disconnect: A's table loses the entry
    let actions = a_table.step(TcpStreamMessage::Disconnect("B_addr".to_string()));
    assert!(actions.is_empty());
    assert!(!a_table.contains_peer(&"B_addr".to_string()));
}

use lightyear_netcode::link::{Arrival, LinkError, LinkReceiver, LinkSender};

#[test]
fn receiver_is_first_in_first_out() {
    let mut receiver = LinkReceiver::new();
    assert_eq!(receiver.len(), 0);
    assert_eq!(receiver.pop(), None);
    receiver.push_raw(vec![1]);
    receiver.push_raw(vec![2, 2]);
    receiver.push_raw(vec![]);
    assert_eq!(receiver.len(), 3);
    assert_eq!(receiver.pop(), Some(vec![1]));
    receiver.push_raw(vec![4]);
    assert_eq!(receiver.pop(), Some(vec![2, 2]));
    assert_eq!(receiver.pop(), Some(vec![]));
    assert_eq!(receiver.pop(), Some(vec![4]));
    assert_eq!(receiver.pop(), None);
    assert_eq!(receiver.len(), 0);
}

#[test]
fn sender_keeps_the_order_of_pushes() {
    let mut sender = LinkSender::new();
    sender.push(vec![1]);
    sender.push(vec![2]);
    let mut more = vec![vec![3], vec![4]];
    sender.append(&mut more);
    assert!(more.is_empty());
    assert_eq!(sender.len(), 4);
    assert_eq!(sender.drain(), vec![vec![1], vec![2], vec![3], vec![4]]);
    assert_eq!(sender.len(), 0);
    assert_eq!(sender.drain(), Vec::<Vec<u8>>::new());
}

#[test]
fn only_binary_messages_are_delivered() {
    let mut receiver = LinkReceiver::new();
    assert_eq!(receiver.deliver(Arrival::Empty), Ok(false));
    assert_eq!(receiver.deliver(Arrival::Close), Ok(false));
    assert_eq!(receiver.deliver(Arrival::Other), Ok(false));
    assert_eq!(receiver.len(), 0);
    assert_eq!(receiver.deliver(Arrival::Binary(vec![7, 8])), Ok(true));
    assert_eq!(receiver.deliver(Arrival::Binary(vec![0; 1472])), Ok(true));
    assert_eq!(receiver.len(), 2);
    assert_eq!(receiver.deliver(Arrival::Disconnected), Err(LinkError::Disconnected));
    assert_eq!(receiver.len(), 2);
    assert_eq!(receiver.pop(), Some(vec![7, 8]));
}

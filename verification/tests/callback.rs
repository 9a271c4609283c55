use std::io;
use std::sync::mpsc::sync_channel;

use raft_log::api::Callback;

#[test]
fn test_sync_sender_callback_delivers_result() {
    let (tx, rx) = sync_channel::<Result<(), io::Error>>(1);
    Callback::send(tx, Ok(()));
    assert!(rx.recv().unwrap().is_ok());

    let (tx, rx) = sync_channel::<Result<(), io::Error>>(1);
    Callback::send(tx, Err(io::Error::new(io::ErrorKind::Other, "disk full")));
    let err = rx.recv().unwrap().unwrap_err();
    assert_eq!("disk full", err.to_string());

    // a receiver that is gone is not an error for the sender
    let (tx, rx) = sync_channel::<Result<(), io::Error>>(1);
    drop(rx);
    Callback::send(tx, Ok(()));
}

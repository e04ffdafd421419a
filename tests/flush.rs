use plant_esp32::common::{BoardState, ErrStatus, OkStatus, Reply, ReplyStatus};
use plant_esp32::flush::WriteBatch;
use plant_esp32::plant_db::StoreWrite;
use plant_esp32::server::finish_reply;

fn writes() -> Vec<StoreWrite> {
    vec![StoreWrite::Slot(2, vec![1, 2, 3]), StoreWrite::NextId(3), StoreWrite::PlantCount(3)]
}

#[test]
fn batch_hands_out_writes_in_order() {
    let mut batch = WriteBatch::new(writes());
    let mut seen = Vec::new();
    while let Some(w) = batch.next_write() {
        seen.push(w.clone());
        batch.report(true);
    }
    assert_eq!(seen, writes());
    assert_eq!(batch.outcome(), Ok(()));
}

#[test]
fn batch_stops_at_first_failed_record_write() {
    let mut batch = WriteBatch::new(writes());
    let first = batch.next_write().cloned();
    assert_eq!(first, Some(StoreWrite::Slot(2, vec![1, 2, 3])));
    batch.report(false);
    assert!(batch.next_write().is_none());
    assert_eq!(batch.outcome(), Err(()));
}

#[test]
fn batch_stops_after_later_failure() {
    let mut batch = WriteBatch::new(writes());
    batch.report(true);
    assert_eq!(batch.next_write(), Some(&StoreWrite::NextId(3)));
    batch.report(false);
    assert!(batch.next_write().is_none());
    assert_eq!(batch.outcome(), Err(()));
}

#[test]
fn empty_batch_succeeds() {
    let batch = WriteBatch::new(vec![]);
    assert!(batch.next_write().is_none());
    assert_eq!(batch.outcome(), Ok(()));
}

#[test]
fn failed_storage_turns_reply_into_bad_request() {
    let state = BoardState { name: "Board1".to_string(), plants: vec![] };
    let reply = Reply { status: ReplyStatus::Success(OkStatus::Created), state: state.clone() };
    let kept = finish_reply(reply.clone(), Ok(()));
    assert_eq!(kept, reply);
    let failed = finish_reply(reply, Err(()));
    assert_eq!(failed.status, ReplyStatus::Failure(ErrStatus::BadRequest));
    assert_eq!(failed.state, state);
}

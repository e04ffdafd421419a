//! Control-plane handlers: each one performs one registry operation and
//! answers with its outcome and a snapshot of the board taken afterwards.
//! The caller holds the registry's lock for the whole call.

use crate::common::{BoardState, ErrStatus, OkStatus, PlantInfo, Reply, ReplyStatus};
use crate::plant_db::{DbView, PlantDB, can_create, created, deleted, has_id, index_of, shows};
use vstd::prelude::*;

verus! {

/// The snapshot shows the board's name and every live plant, in order.
pub open spec fn state_shows(s: BoardState, v: DbView) -> bool {
    &&& s.name@ == v.name
    &&& s.plants@.len() == v.plants.len()
    &&& forall|i: int| 0 <= i < s.plants@.len() ==> shows(#[trigger] s.plants@[i], v.plants[i])
}

/// Answers a state request with the current snapshot.
pub fn get_current_state(db: &PlantDB) -> (r: Reply)
    requires
        db.wf(),
    ensures
        r.status == ReplyStatus::Success(OkStatus::Empty),
        state_shows(r.state, db@),
{
    Reply { status: ReplyStatus::Success(OkStatus::Empty), state: db.board_state() }
}

/// Creates the plant that the request names, with the request's connector;
/// the request's id and moisture are ignored. Answers `Created`, or
/// `BadRequest` with the registry unchanged, and the snapshot either way.
pub fn create_plant(db: &mut PlantDB, request: PlantInfo) -> (r: Reply)
    requires
        old(db).wf(),
    ensures
        final(db).wf(),
        match r.status {
            ReplyStatus::Success(OkStatus::Created) => final(db)@ == created(
                old(db)@,
                request.name@,
                request.connection,
            ),
            ReplyStatus::Failure(ErrStatus::BadRequest) => final(db)@ == old(db)@,
            _ => false,
        },
        can_create(old(db)@, request.name@) <==> r.status == ReplyStatus::Success(
            OkStatus::Created,
        ),
        state_shows(r.state, final(db)@),
{
    let created = db.create_plant(request.name, request.connection);
    let state = db.board_state();
    match created {
        Ok(()) => Reply { status: ReplyStatus::Success(OkStatus::Created), state },
        Err(()) => Reply { status: ReplyStatus::Failure(ErrStatus::BadRequest), state },
    }
}

/// Deletes the plant with the request's id; the request's other fields
/// are ignored. Answers `Deleted`, or `BadRequest` with the registry
/// unchanged where no plant has the id, and the snapshot either way.
pub fn delete_plant(db: &mut PlantDB, request: PlantInfo) -> (r: Reply)
    requires
        old(db).wf(),
    ensures
        final(db).wf(),
        r.status == ReplyStatus::Success(OkStatus::Deleted) <==> has_id(old(db)@.plants, request.id),
        r.status == ReplyStatus::Success(OkStatus::Deleted) || r.status == ReplyStatus::Failure(
            ErrStatus::BadRequest,
        ),
        has_id(old(db)@.plants, request.id) ==> final(db)@ == deleted(
            old(db)@,
            index_of(old(db)@.plants, request.id),
        ),
        !has_id(old(db)@.plants, request.id) ==> final(db)@ == old(db)@,
        state_shows(r.state, final(db)@),
{
    let deleted = db.delete_plant(request.id);
    let state = db.board_state();
    match deleted {
        Ok(()) => Reply { status: ReplyStatus::Success(OkStatus::Deleted), state },
        Err(()) => Reply { status: ReplyStatus::Failure(ErrStatus::BadRequest), state },
    }
}

/// Settles a reply once its writes were handed to storage: where that
/// failed, the operation is reported as failed, with the same snapshot.
pub fn finish_reply(reply: Reply, stored: Result<(), ()>) -> (r: Reply)
    ensures
        r.state == reply.state,
        stored is Ok ==> r.status == reply.status,
        stored is Err ==> r.status == ReplyStatus::Failure(ErrStatus::BadRequest),
{
    match stored {
        Ok(()) => reply,
        Err(()) => Reply { status: ReplyStatus::Failure(ErrStatus::BadRequest), state: reply.state },
    }
}

} // verus!

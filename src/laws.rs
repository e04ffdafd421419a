//! Laws of the registry over whole sequences of create and delete
//! operations, stated over the transitions that the registry's own
//! operations promise.

use crate::common::{
    CalculatedMoisture, Connector, DRY_BELOW, MOIST_BELOW, PERFECT_BELOW, WET_BELOW, classify,
};
use crate::window::{mean, sum};
use crate::plant_db::{
    DbView, PlantView, can_create, created, deleted, has_id, ids_below, ids_unique, index_of,
    stored_forms_ok, view_ok,
};
use crate::record::record_bytes;
use vstd::prelude::*;

verus! {

/// A request that changes the registry.
pub enum Op {
    Create(Seq<char>, Connector),
    Delete(u16),
}

/// Whether the operation succeeds on the registry.
pub open spec fn succeeds(v: DbView, op: Op) -> bool {
    match op {
        Op::Create(name, _) => can_create(v, name),
        Op::Delete(id) => has_id(v.plants, id),
    }
}

/// The registry after the operation; a failed one changes nothing.
pub open spec fn step(v: DbView, op: Op) -> DbView {
    match op {
        Op::Create(name, c) => if can_create(v, name) {
            created(v, name, c)
        } else {
            v
        },
        Op::Delete(id) => if has_id(v.plants, id) {
            deleted(v, index_of(v.plants, id))
        } else {
            v
        },
    }
}

/// The registry after the operations, in order.
pub open spec fn run(v: DbView, ops: Seq<Op>) -> DbView
    decreases ops.len(),
{
    if ops.len() == 0 {
        v
    } else {
        step(run(v, ops.drop_last()), ops.last())
    }
}

/// The ids that the successful creations among the operations hand out,
/// in order.
pub open spec fn issued(v: DbView, ops: Seq<Op>) -> Seq<u16>
    decreases ops.len(),
{
    if ops.len() == 0 {
        Seq::empty()
    } else {
        let before = run(v, ops.drop_last());
        let earlier = issued(v, ops.drop_last());
        match ops.last() {
            Op::Create(name, _) => if can_create(before, name) {
                earlier.push(before.next_id)
            } else {
                earlier
            },
            Op::Delete(_) => earlier,
        }
    }
}

proof fn lemma_created_ok(v: DbView, name: Seq<char>, c: Connector)
    requires
        view_ok(v),
        can_create(v, name),
    ensures
        view_ok(created(v, name, c)),
        created(v, name, c).persisted.plant_count == Some(created(v, name, c).plants.len() as u16),
        created(v, name, c).next_id == v.next_id + 1,
        created(v, name, c).plants.last().id == v.next_id,
        created(v, name, c).plants.drop_last() == v.plants,
{
    let w = created(v, name, c);
    assert(w.plants.drop_last() =~= v.plants);
    assert forall|i: int, j: int|
        0 <= i < w.plants.len() && 0 <= j < w.plants.len() && i != j implies #[trigger] w.plants[i].id
        != #[trigger] w.plants[j].id by {
        if i < v.plants.len() && j < v.plants.len() {
            assert(w.plants[i] == v.plants[i]);
            assert(w.plants[j] == v.plants[j]);
        } else if i < v.plants.len() {
            assert(w.plants[i] == v.plants[i]);
        } else {
            assert(w.plants[j] == v.plants[j]);
        }
    }
    assert forall|i: int| 0 <= i < w.plants.len() implies #[trigger] w.plants[i].id < w.next_id by {
        if i < v.plants.len() {
            assert(w.plants[i] == v.plants[i]);
        }
    }
}

proof fn lemma_deleted_ok(v: DbView, id: u16)
    requires
        view_ok(v),
        has_id(v.plants, id),
    ensures
        view_ok(deleted(v, index_of(v.plants, id))),
        deleted(v, index_of(v.plants, id)).persisted.plant_count == Some(
            deleted(v, index_of(v.plants, id)).plants.len() as u16,
        ),
        deleted(v, index_of(v.plants, id)).next_id == v.next_id,
        !has_id(deleted(v, index_of(v.plants, id)).plants, id),
        forall|p: PlantView| #[trigger]
            deleted(v, index_of(v.plants, id)).plants.contains(p) <==> (v.plants.contains(p)
                && p.id != id),
{
    let i = index_of(v.plants, id);
    let last = v.plants.len() - 1;
    let d = deleted(v, i);
    let ps = v.plants;
    assert(0 <= i < ps.len() && ps[i].id == id);
    assert(d.plants == ps.update(i, ps[last]).drop_last());
    // Position of each remaining plant in the registry before.
    assert forall|k: int| 0 <= k < d.plants.len() implies #[trigger] d.plants[k] == ps[if k == i {
        last
    } else {
        k
    }] by {}
    assert forall|a: int, b: int|
        0 <= a < d.plants.len() && 0 <= b < d.plants.len() && a != b implies #[trigger] d.plants[a].id
        != #[trigger] d.plants[b].id by {
        assert(d.plants[a] == ps[if a == i {
            last
        } else {
            a
        }]);
        assert(d.plants[b] == ps[if b == i {
            last
        } else {
            b
        }]);
    }
    assert forall|a: int| 0 <= a < d.plants.len() implies #[trigger] d.plants[a].id < d.next_id by {
        assert(d.plants[a] == ps[if a == i {
            last
        } else {
            a
        }]);
    }
    assert forall|a: int| 0 <= a < d.plants.len() implies #[trigger] d.plants[a].id != id by {
        assert(d.plants[a] == ps[if a == i {
            last
        } else {
            a
        }]);
    }
    assert forall|p: PlantView| #[trigger] d.plants.contains(p) <==> (ps.contains(p) && p.id != id) by {
        if d.plants.contains(p) {
            let a = choose|a: int| 0 <= a < d.plants.len() && d.plants[a] == p;
            assert(d.plants[a] == ps[if a == i {
                last
            } else {
                a
            }]);
        }
        if ps.contains(p) && p.id != id {
            let a = choose|a: int| 0 <= a < ps.len() && ps[a] == p;
            assert(a != i);
            if a == last {
                assert(d.plants[i] == p);
            } else {
                assert(d.plants[a] == p);
            }
        }
    }
}

/// After every successful create or delete, whatever came before, the
/// persisted plant count equals the number of live plants; at every point
/// no two live plants share an id and every id is below the id counter.
pub proof fn lemma_counts_agree(v: DbView, ops: Seq<Op>)
    requires
        view_ok(v),
    ensures
        view_ok(run(v, ops)),
        ids_unique(run(v, ops).plants),
        ops.len() > 0 && succeeds(run(v, ops.drop_last()), ops.last())
            ==> run(v, ops).persisted.plant_count == Some(run(v, ops).plants.len() as u16),
    decreases ops.len(),
{
    if ops.len() > 0 {
        let before = run(v, ops.drop_last());
        lemma_counts_agree(v, ops.drop_last());
        match ops.last() {
            Op::Create(name, c) => {
                if can_create(before, name) {
                    lemma_created_ok(before, name, c);
                }
            },
            Op::Delete(id) => {
                if has_id(before.plants, id) {
                    lemma_deleted_ok(before, id);
                }
            },
        }
    }
}

/// Deleting a plant that is not the last one keeps every other plant,
/// record and samples alike, and removes just that id; the id counter
/// stays, so the removed id is below it.
pub proof fn lemma_delete_keeps_others(v: DbView, id: u16)
    requires
        view_ok(v),
        has_id(v.plants, id),
    ensures
        forall|p: PlantView| #[trigger]
            deleted(v, index_of(v.plants, id)).plants.contains(p) <==> (v.plants.contains(p)
                && p.id != id),
        deleted(v, index_of(v.plants, id)).plants.len() == v.plants.len() - 1,
        !has_id(deleted(v, index_of(v.plants, id)).plants, id),
        deleted(v, index_of(v.plants, id)).next_id == v.next_id,
        id < deleted(v, index_of(v.plants, id)).next_id,
{
    lemma_deleted_ok(v, id);
}

/// Deleting a plant that is not the last one moves the last plant into
/// its position, and its slot then holds the stored form of that plant's
/// record; the persisted count drops to the new number of plants.
pub proof fn lemma_delete_fills_freed_slot(v: DbView, id: u16)
    requires
        view_ok(v),
        stored_forms_ok(v.plants),
        has_id(v.plants, id),
        index_of(v.plants, id) != v.plants.len() - 1,
    ensures
        ({
            let i = index_of(v.plants, id);
            let moved = v.plants[v.plants.len() - 1];
            let d = deleted(v, i);
            &&& d.plants[i] == moved
            &&& d.persisted.slots.contains_key(i as u16)
            &&& d.persisted.slots[i as u16] == record_bytes(moved.id, moved.connection, moved.name)
            &&& d.persisted.plant_count == Some((v.plants.len() - 1) as u16)
        }),
{
    let i = index_of(v.plants, id);
    assert(0 <= i < v.plants.len() && v.plants[i].id == id);
    let last = v.plants.len() - 1;
    assert(v.plants[last].stored == record_bytes(
        v.plants[last].id,
        v.plants[last].connection,
        v.plants[last].name,
    ));
}

/// An id that no live plant has and that lies below the id counter (as
/// that of a deleted plant does) never appears again, whatever operations
/// follow.
pub proof fn lemma_removed_id_stays_gone(v: DbView, id: u16, ops: Seq<Op>)
    requires
        view_ok(v),
        !has_id(v.plants, id),
        id < v.next_id,
    ensures
        !has_id(run(v, ops).plants, id),
        id < run(v, ops).next_id,
    decreases ops.len(),
{
    if ops.len() > 0 {
        let before = run(v, ops.drop_last());
        lemma_removed_id_stays_gone(v, id, ops.drop_last());
        lemma_counts_agree(v, ops.drop_last());
        match ops.last() {
            Op::Create(name, c) => {
                if can_create(before, name) {
                    lemma_created_ok(before, name, c);
                    let w = created(before, name, c);
                    assert forall|a: int| 0 <= a < w.plants.len() implies #[trigger] w.plants[a].id
                        != id by {
                        if a < before.plants.len() {
                            assert(w.plants[a] == before.plants[a]);
                        }
                    }
                }
            },
            Op::Delete(d) => {
                if has_id(before.plants, d) {
                    lemma_deleted_ok(before, d);
                    let w = deleted(before, index_of(before.plants, d));
                    if has_id(w.plants, id) {
                        let a = choose|a: int| 0 <= a < w.plants.len() && #[trigger] w.plants[a].id == id;
                        assert(w.plants.contains(w.plants[a]));
                        assert(before.plants.contains(w.plants[a]));
                    }
                }
            },
        }
    }
}

/// The id counter never goes down, and the ids that creations hand out
/// rise strictly, start at the counter's first value and stay below its
/// current one: no id is handed out twice, deletions or not.
pub proof fn lemma_ids_never_reused(v: DbView, ops: Seq<Op>)
    requires
        view_ok(v),
    ensures
        run(v, ops).next_id >= v.next_id,
        forall|a: int, b: int|
            0 <= a < b < issued(v, ops).len() ==> #[trigger] issued(v, ops)[a] < #[trigger] issued(
                v,
                ops,
            )[b],
        forall|a: int|
            0 <= a < issued(v, ops).len() ==> v.next_id <= #[trigger] issued(v, ops)[a] < run(
                v,
                ops,
            ).next_id,
        ids_below(run(v, ops).plants, run(v, ops).next_id),
    decreases ops.len(),
{
    lemma_counts_agree(v, ops);
    if ops.len() > 0 {
        let before = run(v, ops.drop_last());
        lemma_ids_never_reused(v, ops.drop_last());
        lemma_counts_agree(v, ops.drop_last());
        let earlier = issued(v, ops.drop_last());
        match ops.last() {
            Op::Create(name, c) => {
                if can_create(before, name) {
                    lemma_created_ok(before, name, c);
                    let now = earlier.push(before.next_id);
                    assert(issued(v, ops) == now);
                    assert forall|a: int, b: int| 0 <= a < b < now.len() implies #[trigger] now[a]
                        < #[trigger] now[b] by {
                        if b < earlier.len() {
                            assert(now[a] == earlier[a] && now[b] == earlier[b]);
                        } else {
                            assert(now[a] == earlier[a]);
                        }
                    }
                    assert forall|a: int| 0 <= a < now.len() implies v.next_id <= #[trigger] now[a]
                        < run(v, ops).next_id by {
                        if a < earlier.len() {
                            assert(now[a] == earlier[a]);
                        }
                    }
                }
            },
            Op::Delete(id) => {
                if has_id(before.plants, id) {
                    lemma_deleted_ok(before, id);
                }
            },
        }
    }
}

/// Category of the exact mean `total / n` of `n` samples summing to
/// `total`, with no rounding.
pub open spec fn classify_exact_mean(total: int, n: int) -> CalculatedMoisture {
    if total < WET_BELOW * n {
        CalculatedMoisture::Wet
    } else if total < MOIST_BELOW * n {
        CalculatedMoisture::Moist
    } else if total < PERFECT_BELOW * n {
        CalculatedMoisture::Perfect
    } else if total < DRY_BELOW * n {
        CalculatedMoisture::Dry
    } else {
        CalculatedMoisture::VeryDry
    }
}

proof fn lemma_floor_below(total: int, n: int, t: int)
    requires
        n > 0,
        total >= 0,
        t >= 0,
    ensures
        (total / n < t) <==> (total < t * n),
{
    vstd::arithmetic::div_mod::lemma_fundamental_div_mod(total, n);
    let q = total / n;
    let r = total % n;
    assert(total == n * q + r);
    assert(0 <= r < n);
    if q < t {
        assert(total < t * n) by (nonlinear_arith)
            requires
                total == n * q + r,
                r < n,
                q + 1 <= t,
                n > 0,
        ;
    } else {
        assert(total >= t * n) by (nonlinear_arith)
            requires
                total == n * q + r,
                r >= 0,
                t <= q,
                n > 0,
        ;
    }
}

/// Rounding the mean of a window down to whole millivolts never changes its
/// category: the reported category is that of the exact mean.
pub proof fn lemma_rounded_mean_classifies_exactly(samples: Seq<u32>)
    requires
        samples.len() > 0,
    ensures
        classify(mean(samples)) == classify_exact_mean(sum(samples), samples.len() as int),
{
    lemma_sum_nonnegative(samples);
    let total = sum(samples);
    let n = samples.len() as int;
    lemma_floor_below(total, n, WET_BELOW as int);
    lemma_floor_below(total, n, MOIST_BELOW as int);
    lemma_floor_below(total, n, PERFECT_BELOW as int);
    lemma_floor_below(total, n, DRY_BELOW as int);
}

proof fn lemma_sum_nonnegative(s: Seq<u32>)
    ensures
        sum(s) >= 0,
    decreases s.len(),
{
    if s.len() > 0 {
        lemma_sum_nonnegative(s.drop_last());
    }
}

} // verus!

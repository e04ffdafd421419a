//! The plant registry: every live plant with its rolling sample window, the
//! id counter, and the log of writes that keeps the persistent namespace in
//! step with memory.
//!
//! The namespace holds `next_id`, `plant_count` and the slots
//! `plant_0 .. plant_{count-1}`, each the stored form of one record. Every
//! mutation appends the writes it needs to a pending log, in the order in
//! which they must reach storage; the owner of the storage device drains the
//! log with `take_pending_writes` and applies it.

use crate::common::{BoardState, Connector, Moisture, PlantInfo, SoilType};
use crate::record::{
    PlantData, MAX_NAME_BYTES, SLOT_BYTES, lemma_record_size, record_bytes, record_read, stored_form,
};
use crate::window::{SampleWindow, WINDOW_CAPACITY, mean, pushed};
use vstd::prelude::*;
use vstd::utf8::encode_utf8;

verus! {

/// One write to the persistent namespace.
#[derive(Clone, Debug, PartialEq, Eq)]
pub enum StoreWrite {
    /// Sets the `next_id` key.
    NextId(u16),
    /// Sets the `plant_count` key.
    PlantCount(u16),
    /// Sets the key of the given slot to the stored form of a record.
    Slot(u16, Vec<u8>),
}

/// A write as a mathematical value.
pub enum WriteView {
    NextId(u16),
    PlantCount(u16),
    Slot(u16, Seq<u8>),
}

impl View for StoreWrite {
    type V = WriteView;

    open spec fn view(&self) -> WriteView {
        match self {
            StoreWrite::NextId(n) => WriteView::NextId(*n),
            StoreWrite::PlantCount(n) => WriteView::PlantCount(*n),
            StoreWrite::Slot(k, b) => WriteView::Slot(*k, b@),
        }
    }
}

/// Contents of the persistent namespace.
pub struct Namespace {
    pub next_id: Option<u16>,
    pub plant_count: Option<u16>,
    pub slots: Map<u16, Seq<u8>>,
}

/// The namespace after one write.
pub open spec fn apply_write(ns: Namespace, w: WriteView) -> Namespace {
    match w {
        WriteView::NextId(n) => Namespace {
            next_id: Some(n),
            plant_count: ns.plant_count,
            slots: ns.slots,
        },
        WriteView::PlantCount(n) => Namespace {
            next_id: ns.next_id,
            plant_count: Some(n),
            slots: ns.slots,
        },
        WriteView::Slot(k, b) => Namespace {
            next_id: ns.next_id,
            plant_count: ns.plant_count,
            slots: ns.slots.insert(k, b),
        },
    }
}

/// A live plant: its identity record, its recent samples and the stored
/// form of its record.
pub struct Plant {
    pub info: PlantData,
    pub measured_values: SampleWindow,
    stored: Vec<u8>,
}

/// A live plant as a mathematical value.
pub struct PlantView {
    pub id: u16,
    pub name: Seq<char>,
    pub connection: Connector,
    pub samples: Seq<u32>,
    pub stored: Seq<u8>,
}

impl View for Plant {
    type V = PlantView;

    closed spec fn view(&self) -> PlantView {
        PlantView {
            id: self.info.id,
            name: self.info.name@,
            connection: self.info.connection,
            samples: self.measured_values@,
            stored: self.stored@,
        }
    }
}

/// Number of UTF-8 bytes of a name.
pub open spec fn name_bytes(name: Seq<char>) -> nat {
    encode_utf8(name).len()
}

/// Moisture reported for a plant with these samples.
pub open spec fn reported_voltage(samples: Seq<u32>) -> Option<int> {
    mean(samples)
}

/// What a viewer is shown of a plant.
pub open spec fn shows(info: PlantInfo, p: PlantView) -> bool {
    &&& info.id == p.id
    &&& info.name@ == p.name
    &&& info.connection == p.connection
    &&& info.measured_moisture.pot_volume is None
    &&& info.measured_moisture.soil == SoilType::PottingSoil
    &&& crate::common::voltage_int(info.measured_moisture.measured_voltage) == reported_voltage(
        p.samples,
    )
}

impl Plant {
    /// The window is well formed and the stored form is that of the record.
    pub closed spec fn wf(&self) -> bool {
        &&& self.measured_values.wf()
        &&& self.stored@ == record_bytes(self.info.id, self.info.connection, self.info.name@)
    }

    /// What a viewer is shown of this plant: its record and the mean of its
    /// samples.
    pub fn plant_info(&self) -> (r: PlantInfo)
        requires
            self.wf(),
        ensures
            shows(r, self@),
    {
        PlantInfo {
            id: self.info.id,
            name: self.info.name.clone(),
            measured_moisture: Moisture {
                measured_voltage: self.measured_values.mean(),
                pot_volume: None,
                soil: SoilType::PottingSoil,
            },
            connection: self.info.connection,
        }
    }
}

/// The registry as a mathematical value.
pub struct DbView {
    pub name: Seq<char>,
    pub plants: Seq<PlantView>,
    pub next_id: u16,
    pub persisted: Namespace,
    pub pending: Seq<WriteView>,
}

/// No two plants share an id.
pub open spec fn ids_unique(ps: Seq<PlantView>) -> bool {
    forall|i: int, j: int|
        0 <= i < ps.len() && 0 <= j < ps.len() && i != j ==> #[trigger] ps[i].id != #[trigger] ps[j].id
}

/// Each plant's stored form is that of its record.
pub open spec fn stored_forms_ok(ps: Seq<PlantView>) -> bool {
    forall|i: int|
        0 <= i < ps.len() ==> (#[trigger] ps[i]).stored == record_bytes(
            ps[i].id,
            ps[i].connection,
            ps[i].name,
        )
}

/// Every id is below `n`.
pub open spec fn ids_below(ps: Seq<PlantView>, n: u16) -> bool {
    forall|i: int| 0 <= i < ps.len() ==> #[trigger] ps[i].id < n
}

/// Some plant has the id.
pub open spec fn has_id(ps: Seq<PlantView>, id: u16) -> bool {
    exists|i: int| 0 <= i < ps.len() && #[trigger] ps[i].id == id
}

/// Position of the plant with the id.
pub open spec fn index_of(ps: Seq<PlantView>, id: u16) -> int {
    choose|i: int| 0 <= i < ps.len() && #[trigger] ps[i].id == id
}

/// Ids are unique and below the id counter, and the persisted counter is
/// the one in memory.
pub open spec fn view_ok(v: DbView) -> bool {
    &&& ids_unique(v.plants)
    &&& ids_below(v.plants, v.next_id)
    &&& v.persisted.next_id == Some(v.next_id)
}

/// The registry after logging one write and applying it to the namespace.
pub open spec fn logged(v: DbView, w: WriteView) -> DbView {
    DbView {
        name: v.name,
        plants: v.plants,
        next_id: v.next_id,
        persisted: apply_write(v.persisted, w),
        pending: v.pending.push(w),
    }
}

/// The registry with other plants and id counter.
pub open spec fn with_plants(v: DbView, plants: Seq<PlantView>, next_id: u16) -> DbView {
    DbView { name: v.name, plants, next_id, persisted: v.persisted, pending: v.pending }
}

/// Whether a plant of this name can be created: the name fits a slot and
/// both the id counter and the plant count can still grow.
pub open spec fn can_create(v: DbView, name: Seq<char>) -> bool {
    &&& name_bytes(name) <= MAX_NAME_BYTES
    &&& v.next_id < u16::MAX
    &&& v.plants.len() < u16::MAX
}

/// The registry after creating a plant: it takes the next id and the next
/// slot; the record is written first, then `next_id`, then `plant_count`.
pub open spec fn created(v: DbView, name: Seq<char>, connection: Connector) -> DbView {
    let n = v.plants.len();
    let stored = record_bytes(v.next_id, connection, name);
    let p = PlantView { id: v.next_id, name, connection, samples: Seq::empty(), stored };
    let next = (v.next_id + 1) as u16;
    logged(
        logged(
            logged(with_plants(v, v.plants.push(p), next), WriteView::Slot(n as u16, stored)),
            WriteView::NextId(next),
        ),
        WriteView::PlantCount((n + 1) as u16),
    )
}

/// The registry after deleting the plant at position `i`: the last plant
/// takes its place, and its stored form is rewritten into slot `i` unless
/// `i` was the last slot; then `plant_count` shrinks by one.
pub open spec fn deleted(v: DbView, i: int) -> DbView {
    let last = v.plants.len() - 1;
    let rest = with_plants(v, v.plants.update(i, v.plants[last]).drop_last(), v.next_id);
    if i == last {
        logged(rest, WriteView::PlantCount(last as u16))
    } else {
        logged(
            logged(rest, WriteView::Slot(i as u16, v.plants[last].stored)),
            WriteView::PlantCount(last as u16),
        )
    }
}

/// The registry after giving the plant at position `i` a new name and
/// connector, rewritten in place in slot `i`.
pub open spec fn updated(v: DbView, i: int, name: Seq<char>, connection: Connector) -> DbView {
    let old_p = v.plants[i];
    let stored = record_bytes(old_p.id, connection, name);
    let p = PlantView { id: old_p.id, name, connection, samples: old_p.samples, stored };
    logged(with_plants(v, v.plants.update(i, p), v.next_id), WriteView::Slot(i as u16, stored))
}

/// The plant after one reading of its sensor: a value is pushed into its
/// window, a failed read leaves it as it was.
pub open spec fn sampled_plant(p: PlantView, reading: Option<u32>) -> PlantView {
    match reading {
        Some(x) => PlantView {
            id: p.id,
            name: p.name,
            connection: p.connection,
            samples: pushed(p.samples, WINDOW_CAPACITY as nat, x),
            stored: p.stored,
        },
        None => p,
    }
}

/// The registry after one sampling round, one reading per plant in order.
pub open spec fn sampled(v: DbView, readings: Seq<Option<u32>>) -> DbView {
    with_plants(
        v,
        Seq::new(v.plants.len(), |i: int| sampled_plant(v.plants[i], readings[i])),
        v.next_id,
    )
}

/// The registry: the board's name, its live plants, the id counter, and the
/// writes not yet handed to storage.
pub struct PlantDB {
    board_name: String,
    plants: Vec<Plant>,
    next_id: u16,
    pending: Vec<StoreWrite>,
    persisted: Ghost<Namespace>,
}

impl View for PlantDB {
    type V = DbView;

    closed spec fn view(&self) -> DbView {
        DbView {
            name: self.board_name@,
            plants: self.plants@.map_values(|p: Plant| p@),
            next_id: self.next_id,
            persisted: self.persisted@,
            pending: self.pending@.map_values(|w: StoreWrite| w@),
        }
    }
}

impl PlantDB {
    /// Every plant is well formed, ids are unique and below the counter, and
    /// the plant count fits its stored type.
    pub closed spec fn wf(&self) -> bool {
        &&& forall|i: int| 0 <= i < self.plants@.len() ==> (#[trigger] self.plants@[i]).wf()
        &&& view_ok(self@)
        &&& self.plants@.len() <= u16::MAX
    }

    /// The registry as found in storage: the `next_id` and `plant_count`
    /// values read (`None` where missing or unreadable) and what was read
    /// from each slot. A missing counter counts as zero and is rewritten. A
    /// slot that cannot be read or parsed is skipped, as is a record whose
    /// id is already taken or cannot be followed by a next id; the slots are
    /// not compacted. The plants keep the order of their slots. Where a
    /// record's id is not below the stored `next_id`, the counter moves past
    /// it and is rewritten.
    pub fn new(
        stored_next_id: Option<u16>,
        stored_plant_count: Option<u16>,
        stored_slots: &Vec<Option<Vec<u8>>>,
    ) -> (r: PlantDB)
        ensures
            r.wf(),
            r@.name == "Board1"@,
            r@.next_id >= unwrap_or_zero(stored_next_id),
            r@.next_id == unwrap_or_zero(stored_next_id) || counter_follows_id(r@),
            r@.persisted == (Namespace {
                next_id: Some(r@.next_id),
                plant_count: Some(unwrap_or_zero(stored_plant_count)),
                slots: slots_read(stored_slots@),
            }),
            r@.pending == heal_writes(stored_next_id, stored_plant_count, r@.next_id),
            exists|ks: Seq<int>| loaded_in_order(r@.plants, stored_slots@, ks),
            stored_slots@.len() <= u16::MAX ==> forall|k: int|
                0 <= k < stored_slots@.len() && #[trigger] slot_id(stored_slots@, k) is Some
                    && slot_id(stored_slots@, k)->0 < u16::MAX && slot_fits(stored_slots@, k)
                    ==> has_id(r@.plants, slot_id(stored_slots@, k)->0),
    {
        let start_next = match stored_next_id {
            Some(n) => n,
            None => 0,
        };
        let start_count = match stored_plant_count {
            Some(n) => n,
            None => 0,
        };
        let mut db = PlantDB {
            board_name: "Board1".to_owned(),
            plants: Vec::new(),
            next_id: start_next,
            pending: Vec::new(),
            persisted: Ghost(
                Namespace {
                    next_id: stored_next_id,
                    plant_count: stored_plant_count,
                    slots: slots_read(stored_slots@),
                },
            ),
        };
        proof {
            assert(db@.pending =~= Seq::<WriteView>::empty());
            assert(db@.plants =~= Seq::<PlantView>::empty());
        }
        if stored_next_id.is_none() {
            db.log_write(StoreWrite::NextId(0));
        }
        if stored_plant_count.is_none() {
            db.log_write(StoreWrite::PlantCount(0));
        }
        let ghost healed = db@.pending;
        let ghost mut ks: Seq<int> = Seq::empty();
        let mut k: usize = 0;
        while k < stored_slots.len()
            invariant
                k <= stored_slots@.len(),
                forall|i: int| 0 <= i < db.plants@.len() ==> (#[trigger] db.plants@[i]).wf(),
                ids_unique(db@.plants),
                ids_below(db@.plants, db@.next_id),
                db.plants@.len() <= u16::MAX,
                db.plants@.len() <= k,
                db@.name == "Board1"@,
                db@.pending == healed,
                healed == heal_writes(stored_next_id, stored_plant_count, start_next),
                db@.next_id >= start_next,
                db@.next_id == start_next || counter_follows_id(db@),
                db@.persisted == (Namespace {
                    next_id: Some(start_next),
                    plant_count: Some(start_count),
                    slots: slots_read(stored_slots@),
                }),
                loaded_in_order(db@.plants, stored_slots@, ks),
                forall|i: int| 0 <= i < ks.len() ==> #[trigger] ks[i] < k,
                stored_slots@.len() <= u16::MAX ==> forall|j: int|
                    0 <= j < k && #[trigger] slot_id(stored_slots@, j) is Some && slot_id(
                        stored_slots@,
                        j,
                    )->0 < u16::MAX && slot_fits(stored_slots@, j) ==> has_id(
                        db@.plants,
                        slot_id(stored_slots@, j)->0,
                    ),
            decreases stored_slots@.len() - k,
        {
            let ghost db_before = db;
            match &stored_slots[k] {
                Some(bytes) => {
                    proof {
                        assert(slot_holds(stored_slots@, k as int, bytes@));
                    }
                    let added = db.load_record(bytes, Ghost(k as int), Ghost(stored_slots@));
                    proof {
                        if added {
                            let ks2 = ks.push(k as int);
                            assert forall|i: int| 0 <= i < ks2.len() implies 0 <= #[trigger] ks2[i]
                                < stored_slots@.len() && stored_slots@[ks2[i]] is Some
                                && loaded_from(db@.plants[i], stored_slots@[ks2[i]]->0@) by {
                                if i < ks.len() {
                                    assert(db@.plants[i] == db_before@.plants[i]);
                                }
                            }
                            ks = ks2;
                        }
                    }
                },
                None => {},
            }
            proof {
                if stored_slots@.len() <= u16::MAX {
                    assert forall|j: int|
                        0 <= j < k + 1 && #[trigger] slot_id(stored_slots@, j) is Some && slot_id(
                            stored_slots@,
                            j,
                        )->0 < u16::MAX && slot_fits(stored_slots@, j) implies has_id(
                        db@.plants,
                        slot_id(stored_slots@, j)->0,
                    ) by {
                        if j < k {
                            assert(has_id(db_before@.plants, slot_id(stored_slots@, j)->0));
                        }
                    }
                }
            }
            k = k + 1;
        }
        if db.next_id != start_next {
            let n = db.next_id;
            db.log_write(StoreWrite::NextId(n));
        }
        db
    }

    /// Adds the record stored in `bytes`, which slot `k` of `slots` holds,
    /// where it can be read, re-encoded within a slot and its id is free.
    /// Tells whether it was added.
    fn load_record(&mut self, bytes: &Vec<u8>, k: Ghost<int>, slots: Ghost<Seq<Option<Vec<u8>>>>) -> (added: bool)
        requires
            forall|i: int| 0 <= i < old(self).plants@.len() ==> (#[trigger] old(self).plants@[i]).wf(),
            ids_unique(old(self)@.plants),
            ids_below(old(self)@.plants, old(self)@.next_id),
            old(self).plants@.len() <= u16::MAX,
            slot_holds(slots@, k@, bytes@),
        ensures
            forall|i: int| 0 <= i < final(self).plants@.len() ==> (#[trigger] final(self).plants@[i]).wf(),
            ids_unique(final(self)@.plants),
            ids_below(final(self)@.plants, final(self)@.next_id),
            final(self).plants@.len() <= u16::MAX,
            final(self)@.name == old(self)@.name,
            final(self)@.pending == old(self)@.pending,
            final(self)@.persisted == old(self)@.persisted,
            final(self)@.next_id >= old(self)@.next_id,
            final(self)@.next_id == old(self)@.next_id || counter_follows_id(final(self)@),
            counter_follows_id(old(self)@) ==> counter_follows_id(final(self)@),
            !added ==> final(self)@.plants == old(self)@.plants,
            added ==> final(self)@.plants.len() == old(self)@.plants.len() + 1
                && final(self)@.plants.drop_last() == old(self)@.plants && loaded_from(
                final(self)@.plants.last(),
                bytes@,
            ),
            forall|id: u16| has_id(old(self)@.plants, id) ==> has_id(final(self)@.plants, id),
            slot_id(slots@, k@) is Some && slot_id(slots@, k@)->0 < u16::MAX && slot_fits(slots@, k@)
                && old(self).plants@.len() < u16::MAX ==> has_id(
                final(self)@.plants,
                slot_id(slots@, k@)->0,
            ),
    {
        let ghost v0 = self@;
        let data = match PlantData::from_stored(bytes.as_slice()) {
            Some(d) => d,
            None => {
                return false;
            },
        };
        if data.id == u16::MAX || self.plants.len() >= u16::MAX as usize {
            return false;
        }
        match self.get_index(data.id) {
            Some(_) => {
                return false;
            },
            None => {},
        }
        let stored = match data.to_stored() {
            Some(b) => b,
            None => {
                return false;
            },
        };
        let id = data.id;
        let plant = Plant { info: data, measured_values: SampleWindow::new(), stored };
        self.plants.push(plant);
        if id >= self.next_id {
            self.next_id = id + 1;
        }
        proof {
            assert(self.plants@.map_values(|p: Plant| p@) =~= v0.plants.push(plant@));
            assert forall|i: int| 0 <= i < self.plants@.len() implies (
            #[trigger] self.plants@[i]).wf() by {
                if i < v0.plants.len() {
                    assert(self.plants@[i] == old(self).plants@[i]);
                }
            }
            assert(forall|i: int| 0 <= i < v0.plants.len() ==> self@.plants[i] == v0.plants[i]);
            let last = v0.plants.len() as int;
            assert(self@.plants[last] == plant@);
            assert(self@.plants.drop_last() =~= v0.plants);
            assert(self@.plants[last].id == id);
            assert(has_id(self@.plants, id));
            if counter_follows_id(v0) {
                let w = choose|w: int| 0 <= w < v0.plants.len() && #[trigger] v0.plants[w].id + 1 == v0.next_id;
                assert(self@.plants[w].id + 1 == v0.next_id);
            }
            assert forall|x: u16| has_id(v0.plants, x) implies has_id(self@.plants, x) by {
                let i = choose|i: int| 0 <= i < v0.plants.len() && #[trigger] v0.plants[i].id == x;
                assert(self@.plants[i].id == x);
            }
        }
        true
    }

    /// A well-formed registry has unique ids below its id counter, and the
    /// stored form of each plant is that of its record.
    pub proof fn lemma_wf_ids(&self)
        requires
            self.wf(),
        ensures
            view_ok(self@),
            ids_unique(self@.plants),
            stored_forms_ok(self@.plants),
            forall|i: int|
                0 <= i < self@.plants.len() ==> (#[trigger] self@.plants[i]).samples.len()
                    <= WINDOW_CAPACITY,
    {
        assert forall|i: int| 0 <= i < self@.plants.len() implies (#[trigger] self@.plants[i]).samples.len()
            <= WINDOW_CAPACITY by {
            assert(self.plants@[i].wf());
            self.plants@[i].measured_values.lemma_wf_len();
        }
        assert forall|i: int| 0 <= i < self@.plants.len() implies (#[trigger] self@.plants[i]).stored
            == record_bytes(self@.plants[i].id, self@.plants[i].connection, self@.plants[i].name) by {
            assert(self.plants@[i].wf());
        }
    }

    /// Appends a write to the log and to the model of the namespace.
    fn log_write(&mut self, w: StoreWrite)
        ensures
            final(self)@ == logged(old(self)@, w@),
            final(self).plants == old(self).plants,
            final(self).next_id == old(self).next_id,
            final(self).board_name == old(self).board_name,
    {
        let ghost wv = w@;
        self.persisted = Ghost(apply_write(self.persisted@, wv));
        self.pending.push(w);
        proof {
            assert(self.pending@.map_values(|w: StoreWrite| w@) =~= old(self).pending@.map_values(
                |w: StoreWrite| w@,
            ).push(wv));
        }
    }

    /// Name of the board.
    pub fn get_name(&self) -> (r: &String)
        ensures
            r@ == self@.name,
    {
        &self.board_name
    }

    /// The live plants, in slot order.
    pub fn get_plants(&self) -> (r: &Vec<Plant>)
        ensures
            r@.map_values(|p: Plant| p@) == self@.plants,
    {
        &self.plants
    }

    /// The id that the next created plant gets.
    pub fn next_id(&self) -> (r: u16)
        ensures
            r == self@.next_id,
    {
        self.next_id
    }

    /// Hands out the writes logged since the last call, oldest first, and
    /// empties the log.
    pub fn take_pending_writes(&mut self) -> (r: Vec<StoreWrite>)
        ensures
            r@.map_values(|w: StoreWrite| w@) == old(self)@.pending,
            final(self)@ == (DbView { pending: Seq::empty(), ..old(self)@ }),
            final(self).wf() == old(self).wf(),
    {
        let mut taken: Vec<StoreWrite> = Vec::new();
        std::mem::swap(&mut taken, &mut self.pending);
        proof {
            assert(self.pending@.map_values(|w: StoreWrite| w@) =~= Seq::<WriteView>::empty());
        }
        taken
    }

    /// Creates a plant from its name, its connector and the stored form of
    /// its record as computed for the next id (`None` where it did not fit a
    /// slot). Fails, changing nothing, where the name is too long, the id
    /// counter or the plant count cannot grow, or the stored form is absent.
    fn create_plant_encoded(
        &mut self,
        name: String,
        connection: Connector,
        stored: Option<Vec<u8>>,
    ) -> (r: Result<(), ()>)
        requires
            old(self).wf(),
            stored matches Some(b) ==> b@ == record_bytes(old(self)@.next_id, connection, name@),
        ensures
            final(self).wf(),
            r is Ok <==> can_create(old(self)@, name@) && stored is Some,
            r is Ok ==> final(self)@ == created(old(self)@, name@, connection),
            r is Err ==> final(self)@ == old(self)@,
            r is Ok ==> final(self)@.persisted.plant_count == Some(
                final(self)@.plants.len() as u16,
            ),
    {
        let name_len = name.as_str().as_bytes().len();
        if name_len > MAX_NAME_BYTES || self.next_id == u16::MAX || self.plants.len()
            >= u16::MAX as usize {
            return Err(());
        }
        let bytes = match stored {
            Some(b) => b,
            None => {
                return Err(());
            },
        };
        let ghost v0 = self@;
        let id = self.next_id;
        let slot = self.plants.len() as u16;
        let plant = Plant {
            info: PlantData { id, connection, name },
            measured_values: SampleWindow::new(),
            stored: bytes.clone(),
        };
        self.plants.push(plant);
        self.next_id = id + 1;
        proof {
            assert(self.plants@.map_values(|p: Plant| p@) =~= v0.plants.push(plant@));
            assert forall|i: int| 0 <= i < self.plants@.len() implies (
            #[trigger] self.plants@[i]).wf() by {
                if i < v0.plants.len() {
                    assert(self.plants@[i] == old(self).plants@[i]);
                }
            }
            assert(self@.plants[v0.plants.len() as int] == plant@);
            assert(forall|i: int| 0 <= i < v0.plants.len() ==> self@.plants[i] == v0.plants[i]);
        }
        self.log_write(StoreWrite::Slot(slot, bytes));
        self.log_write(StoreWrite::NextId(self.next_id));
        self.log_write(StoreWrite::PlantCount(self.plants.len() as u16));
        proof {
            assert(self@ == created(v0, name@, connection));
        }
        Ok(())
    }

    /// Creates a plant with the next id in the next slot; its window starts
    /// empty. Fails, changing nothing, where `create_plant_encoded` does,
    /// the stored form being that of the new record.
    pub fn create_plant(&mut self, name: String, connection: Connector) -> (r: Result<(), ()>)
        requires
            old(self).wf(),
        ensures
            final(self).wf(),
            r is Ok <==> can_create(old(self)@, name@),
            r is Ok ==> final(self)@ == created(old(self)@, name@, connection),
            r is Err ==> final(self)@ == old(self)@,
            r is Ok ==> final(self)@.persisted.plant_count == Some(
                final(self)@.plants.len() as u16,
            ),
    {
        let stored = stored_form(self.next_id, connection, name.as_str());
        proof {
            lemma_record_size(self.next_id, connection, name@);
        }
        self.create_plant_encoded(name, connection, stored)
    }

    /// Deletes the plant with the id. Where it is not the last one, the last
    /// plant moves into its position and slot. Fails, changing nothing,
    /// where no plant has the id.
    pub fn delete_plant(&mut self, id: u16) -> (r: Result<(), ()>)
        requires
            old(self).wf(),
        ensures
            final(self).wf(),
            r is Ok <==> has_id(old(self)@.plants, id),
            r is Ok ==> final(self)@ == deleted(old(self)@, index_of(old(self)@.plants, id)),
            r is Err ==> final(self)@ == old(self)@,
            r is Ok ==> final(self)@.persisted.plant_count == Some(
                final(self)@.plants.len() as u16,
            ),
            final(self)@.next_id == old(self)@.next_id,
            !has_id(final(self)@.plants, id),
    {
        let ghost v0 = self@;
        match self.get_index(id) {
            None => Err(()),
            Some(index) => {
                proof {
                    lemma_index_of_unique(v0.plants, id, index as int);
                }
                let last = self.plants.len() - 1;
                let _removed = self.plants.swap_remove(index);
                proof {
                    assert(self.plants@.map_values(|p: Plant| p@) =~= v0.plants.update(
                        index as int,
                        v0.plants[last as int],
                    ).drop_last());
                    assert forall|i: int| 0 <= i < self.plants@.len() implies (
                    #[trigger] self.plants@[i]).wf() by {
                        if i == index {
                            assert(self.plants@[i] == old(self).plants@[last as int]);
                        } else {
                            assert(self.plants@[i] == old(self).plants@[i]);
                        }
                    }
                }
                if index != last {
                    let bytes = self.plants[index].stored.clone();
                    proof {
                        assert(bytes@ == v0.plants[last as int].stored);
                    }
                    self.log_write(StoreWrite::Slot(index as u16, bytes));
                }
                self.log_write(StoreWrite::PlantCount(self.plants.len() as u16));
                proof {
                    assert(self@ == deleted(v0, index as int));
                    assert(!has_id(self@.plants, id)) by {
                        if has_id(self@.plants, id) {
                            let k = choose|k: int| 0 <= k < self@.plants.len() && #[trigger] self@.plants[k].id == id;
                            if k == index {
                                assert(v0.plants[last as int].id == id);
                            } else {
                                assert(v0.plants[k].id == id);
                            }
                        }
                    }
                }
                Ok(())
            },
        }
    }

    /// Gives the plant with the id a new name and connector, given the
    /// stored form of the new record (`None` where it did not fit a slot).
    /// Fails, changing nothing, where no plant has the id, the name is too
    /// long or the stored form is absent.
    fn update_plant_encoded(
        &mut self,
        id: u16,
        name: String,
        connection: Connector,
        stored: Option<Vec<u8>>,
    ) -> (r: Result<(), ()>)
        requires
            old(self).wf(),
            stored matches Some(b) ==> b@ == record_bytes(id, connection, name@),
        ensures
            final(self).wf(),
            r is Ok <==> has_id(old(self)@.plants, id) && name_bytes(name@) <= MAX_NAME_BYTES
                && stored is Some,
            r is Ok ==> final(self)@ == updated(
                old(self)@,
                index_of(old(self)@.plants, id),
                name@,
                connection,
            ),
            r is Err ==> final(self)@ == old(self)@,
    {
        let ghost v0 = self@;
        let name_len = name.as_str().as_bytes().len();
        if name_len > MAX_NAME_BYTES {
            return Err(());
        }
        let index = match self.get_index(id) {
            Some(i) => i,
            None => {
                return Err(());
            },
        };
        let bytes = match stored {
            Some(b) => b,
            None => {
                return Err(());
            },
        };
        proof {
            lemma_index_of_unique(v0.plants, id, index as int);
        }
        let ghost name_v = name@;
        let plant = &mut self.plants[index];
        plant.info.name = name;
        plant.info.connection = connection;
        plant.stored = bytes.clone();
        proof {
            assert(self.plants@.map_values(|p: Plant| p@) =~= v0.plants.update(
                index as int,
                PlantView {
                    id,
                    name: name_v,
                    connection,
                    samples: v0.plants[index as int].samples,
                    stored: record_bytes(id, connection, name_v),
                },
            ));
            assert forall|i: int| 0 <= i < self.plants@.len() implies (
            #[trigger] self.plants@[i]).wf() by {
                if i != index {
                    assert(self.plants@[i] == old(self).plants@[i]);
                }
            }
        }
        self.log_write(StoreWrite::Slot(index as u16, bytes));
        proof {
            assert(self@ == updated(v0, index as int, name_v, connection));
        }
        Ok(())
    }

    /// Gives the plant with the id a new name and connector, rewriting its
    /// slot in place. Fails, changing nothing, where `update_plant_encoded`
    /// does, the stored form being that of the new record.
    pub fn update_plant(&mut self, id: u16, name: String, connection: Connector) -> (r: Result<
        (),
        (),
    >)
        requires
            old(self).wf(),
        ensures
            final(self).wf(),
            r is Ok <==> has_id(old(self)@.plants, id) && name_bytes(name@) <= MAX_NAME_BYTES,
            r is Ok ==> final(self)@ == updated(
                old(self)@,
                index_of(old(self)@.plants, id),
                name@,
                connection,
            ),
            r is Err ==> final(self)@ == old(self)@,
    {
        let stored = stored_form(id, connection, name.as_str());
        proof {
            lemma_record_size(id, connection, name@);
        }
        self.update_plant_encoded(id, name, connection, stored)
    }

    /// Connector of every plant, in slot order.
    pub fn connectors(&self) -> (r: Vec<Connector>)
        ensures
            r@.len() == self@.plants.len(),
            forall|i: int| 0 <= i < r@.len() ==> r@[i] == #[trigger] self@.plants[i].connection,
    {
        let mut r: Vec<Connector> = Vec::new();
        let mut i: usize = 0;
        while i < self.plants.len()
            invariant
                i <= self.plants@.len(),
                r@.len() == i,
                forall|j: int| 0 <= j < i ==> r@[j] == #[trigger] self@.plants[j].connection,
            decreases self.plants@.len() - i,
        {
            r.push(self.plants[i].info.connection);
            i = i + 1;
        }
        r
    }

    /// Pushes one sampling round into the windows: the reading at position
    /// `i` belongs to the plant at position `i`; a failed reading (`None`)
    /// leaves that plant's window as it was.
    pub fn record_samples(&mut self, readings: &Vec<Option<u32>>)
        requires
            old(self).wf(),
            readings@.len() == old(self)@.plants.len(),
        ensures
            final(self).wf(),
            final(self)@ == sampled(old(self)@, readings@),
    {
        let ghost v0 = self@;
        let n = self.plants.len();
        let mut i: usize = 0;
        while i < n
            invariant
                n == self.plants@.len(),
                n == readings@.len(),
                n == v0.plants.len(),
                i <= n,
                forall|j: int| 0 <= j < n ==> (#[trigger] self.plants@[j]).wf(),
                forall|j: int|
                    0 <= j < i ==> #[trigger] self@.plants[j] == sampled_plant(
                        v0.plants[j],
                        readings@[j],
                    ),
                forall|j: int| i <= j < n ==> #[trigger] self@.plants[j] == v0.plants[j],
                self@.name == v0.name,
                self@.next_id == v0.next_id,
                self@.persisted == v0.persisted,
                self@.pending == v0.pending,
                view_ok(v0),
                self.plants@.len() <= u16::MAX,
            decreases n - i,
        {
            let ghost before = self.plants@;
            let ghost before_v = self@.plants;
            assert(before_v[i as int] == v0.plants[i as int]);
            match readings[i] {
                Some(value) => {
                    self.plants[i].measured_values.push(value);
                    proof {
                        assert(self.plants@[i as int].info == before[i as int].info);
                        assert(self.plants@[i as int].stored == before[i as int].stored);
                        assert(self.plants@[i as int].measured_values@ == pushed(
                            before[i as int].measured_values@,
                            WINDOW_CAPACITY as nat,
                            value,
                        ));
                    }
                },
                None => {},
            }
            proof {
                assert forall|j: int| 0 <= j < n && j != i implies self@.plants[j] == before_v[j] by {
                    assert(self.plants@[j] == before[j]);
                }
                assert forall|j: int| 0 <= j < i implies #[trigger] self@.plants[j] == sampled_plant(
                    v0.plants[j],
                    readings@[j],
                ) by {
                    assert(self@.plants[j] == before_v[j]);
                }
                assert forall|j: int| i < j < n implies #[trigger] self@.plants[j] == v0.plants[j] by {
                    assert(self@.plants[j] == before_v[j]);
                }
                assert(self@.plants[i as int] == sampled_plant(v0.plants[i as int], readings@[i as int]));
                assert forall|j: int| 0 <= j < n implies (#[trigger] self.plants@[j]).wf() by {
                    if j != i {
                        assert(self.plants@[j] == before[j]);
                    }
                }
            }
            i = i + 1;
        }
        proof {
            assert(self@.plants =~= sampled(v0, readings@).plants);
            assert forall|a: int, b: int|
                0 <= a < self@.plants.len() && 0 <= b < self@.plants.len() && a != b implies
                #[trigger] self@.plants[a].id != #[trigger] self@.plants[b].id by {
                assert(self@.plants[a].id == v0.plants[a].id);
                assert(self@.plants[b].id == v0.plants[b].id);
            }
            assert forall|a: int| 0 <= a < self@.plants.len() implies #[trigger] self@.plants[a].id
                < self@.next_id by {
                assert(self@.plants[a].id == v0.plants[a].id);
            }
        }
    }

    /// Snapshot of the board: its name and what a viewer is shown of every
    /// plant, in slot order.
    pub fn board_state(&self) -> (r: BoardState)
        requires
            self.wf(),
        ensures
            r.name@ == self@.name,
            r.plants@.len() == self@.plants.len(),
            forall|i: int| 0 <= i < r.plants@.len() ==> shows(#[trigger] r.plants@[i], self@.plants[i]),
    {
        let mut plants: Vec<PlantInfo> = Vec::new();
        let mut i: usize = 0;
        while i < self.plants.len()
            invariant
                self.wf(),
                i <= self.plants@.len(),
                plants@.len() == i,
                forall|j: int| 0 <= j < i ==> shows(#[trigger] plants@[j], self@.plants[j]),
            decreases self.plants@.len() - i,
        {
            proof {
                assert(self.plants@[i as int].wf());
            }
            plants.push(self.plants[i].plant_info());
            i = i + 1;
        }
        BoardState { name: self.board_name.clone(), plants }
    }

    /// Position of the plant with the id, if any.
    fn get_index(&self, id: u16) -> (r: Option<usize>)
        ensures
            match r {
                Some(i) => i < self@.plants.len() && self@.plants[i as int].id == id && forall|j: int|
                    0 <= j < i ==> #[trigger] self@.plants[j].id != id,
                None => !has_id(self@.plants, id),
            },
    {
        let mut i: usize = 0;
        while i < self.plants.len()
            invariant
                i <= self.plants@.len(),
                forall|j: int| 0 <= j < i ==> self@.plants[j].id != id,
            decreases self.plants@.len() - i,
        {
            if self.plants[i].info.id == id {
                return Some(i);
            }
            i = i + 1;
        }
        None
    }
}

/// Zero where the value is missing.
pub open spec fn unwrap_or_zero(v: Option<u16>) -> u16 {
    match v {
        Some(n) => n,
        None => 0,
    }
}

/// The slots as read: slot `k` maps to what was read from it, where
/// something was.
pub open spec fn slots_read(slots: Seq<Option<Vec<u8>>>) -> Map<u16, Seq<u8>> {
    Map::new(
        |k: u16| (k as int) < slots.len() && slots[k as int] is Some,
        |k: u16| slots[k as int]->0@,
    )
}

/// Writes that loading makes: each missing counter is rewritten as zero,
/// then `next_id` again where it had to move past a stored id.
pub open spec fn heal_writes(next: Option<u16>, count: Option<u16>, final_next: u16) -> Seq<
    WriteView,
> {
    let a = if next is None {
        seq![WriteView::NextId(0)]
    } else {
        Seq::empty()
    };
    let b = if count is None {
        seq![WriteView::PlantCount(0)]
    } else {
        Seq::empty()
    };
    let c = if final_next != unwrap_or_zero(next) {
        seq![WriteView::NextId(final_next)]
    } else {
        Seq::empty()
    };
    a + b + c
}

/// The id counter is one past the id of some plant.
pub open spec fn counter_follows_id(v: DbView) -> bool {
    exists|i: int| 0 <= i < v.plants.len() && #[trigger] v.plants[i].id + 1 == v.next_id
}

/// Slot `j` was read and holds these bytes.
pub open spec fn slot_holds(slots: Seq<Option<Vec<u8>>>, j: int, bytes: Seq<u8>) -> bool {
    &&& 0 <= j < slots.len()
    &&& slots[j] is Some
    &&& slots[j]->0@ == bytes
}

/// Id of the record that slot `j` holds, where it reads as one.
pub open spec fn slot_id(slots: Seq<Option<Vec<u8>>>, j: int) -> Option<u16> {
    match slots[j] {
        Some(b) => match record_read(b@) {
            Some((id, _, _)) => Some(id),
            None => None,
        },
        None => None,
    }
}

/// A freshly loaded plant: no samples yet, its stored form that of its
/// record, and that record read from the slot's bytes.
pub open spec fn loaded_from(p: PlantView, bytes: Seq<u8>) -> bool {
    &&& p.samples.len() == 0
    &&& p.stored == record_bytes(p.id, p.connection, p.name)
    &&& record_read(bytes) == Some((p.id, p.connection, p.name))
}

/// Plant `i` was loaded from slot `ks[i]`, and the slots rise with the
/// positions.
pub open spec fn loaded_in_order(ps: Seq<PlantView>, slots: Seq<Option<Vec<u8>>>, ks: Seq<int>) -> bool {
    &&& ks.len() == ps.len()
    &&& forall|i: int|
        0 <= i < ks.len() ==> 0 <= #[trigger] ks[i] < slots.len() && slots[ks[i]] is Some
            && loaded_from(ps[i], slots[ks[i]]->0@)
    &&& forall|i: int, j: int| 0 <= i < j < ks.len() ==> #[trigger] ks[i] < #[trigger] ks[j]
}

/// Slot `j` was read and holds no more than a slot's worth of bytes.
pub open spec fn slot_fits(slots: Seq<Option<Vec<u8>>>, j: int) -> bool {
    slots[j] is Some && slots[j]->0@.len() <= SLOT_BYTES
}

/// With unique ids, the position of an id is the one where it stands.
proof fn lemma_index_of_unique(ps: Seq<PlantView>, id: u16, i: int)
    requires
        ids_unique(ps),
        0 <= i < ps.len(),
        ps[i].id == id,
    ensures
        has_id(ps, id),
        index_of(ps, id) == i,
{
    assert(has_id(ps, id));
    let k = index_of(ps, id);
    assert(ps[k].id == id);
}

} // verus!

use plant_esp32::common::{CalculatedMoisture, Connector, ErrStatus, OkStatus, PlantInfo, ReplyStatus};
use plant_esp32::plant_db::{PlantDB, StoreWrite};
use plant_esp32::record::PlantData;
use plant_esp32::server::{create_plant, delete_plant, get_current_state};

fn empty_db() -> PlantDB {
    PlantDB::new(Some(0), Some(0), &vec![])
}

fn request(id: u16, name: &str, pin: u8) -> PlantInfo {
    PlantInfo { id, name: name.to_string(), connection: Connector::GPIO(pin), ..Default::default() }
}

fn stored(id: u16, name: &str, pin: u8) -> Vec<u8> {
    PlantData { id, connection: Connector::GPIO(pin), name: name.to_string() }.to_stored().unwrap()
}

#[test]
fn record_stored_form_is_postcard_of_fields() {
    let bytes = stored(0, "Basil", 4);
    assert_eq!(bytes, vec![0x00, 0x00, 0x04, 0x05, b'B', b'a', b's', b'i', b'l']);
    let bytes = stored(300, "x", 7);
    assert_eq!(bytes, vec![0xac, 0x02, 0x00, 0x07, 0x01, b'x']);
}

#[test]
fn record_reads_back_from_stored_form() {
    let bytes = stored(300, "Mint", 12);
    let d = PlantData::from_stored(&bytes).unwrap();
    assert_eq!(d.id, 300);
    assert_eq!(d.name, "Mint");
    assert_eq!(d.connection, Connector::GPIO(12));
}

#[test]
fn record_from_garbage_is_none() {
    assert!(PlantData::from_stored(&[]).is_none());
    assert!(PlantData::from_stored(&[0x00, 0x01, 0x04, 0x00]).is_none());
}

#[test]
fn create_basil_on_empty_registry() {
    let mut db = empty_db();
    let reply = create_plant(&mut db, request(17, "Basil", 4));
    assert_eq!(reply.status, ReplyStatus::Success(OkStatus::Created));
    assert_eq!(reply.state.name, "Board1");
    assert_eq!(reply.state.plants.len(), 1);
    let p = &reply.state.plants[0];
    assert_eq!(p.id, 0);
    assert_eq!(p.name, "Basil");
    assert_eq!(p.connection, Connector::GPIO(4));
    assert_eq!(p.measured_moisture.measured_voltage, None);
    assert_eq!(p.measured_moisture.calulated_moisture(), CalculatedMoisture::Unknown);
    assert_eq!(db.next_id(), 1);
    assert_eq!(
        db.take_pending_writes(),
        vec![
            StoreWrite::Slot(0, stored(0, "Basil", 4)),
            StoreWrite::NextId(1),
            StoreWrite::PlantCount(1),
        ]
    );
}

#[test]
fn basil_lifecycle() {
    let mut db = empty_db();
    assert!(db.create_plant("Basil".to_string(), Connector::GPIO(4)).is_ok());
    db.record_samples(&vec![Some(1800)]);
    db.record_samples(&vec![Some(1800)]);
    let reply = get_current_state(&db);
    assert_eq!(reply.status, ReplyStatus::Success(OkStatus::Empty));
    let m = reply.state.plants[0].measured_moisture;
    assert_eq!(m.measured_voltage, Some(1800));
    assert_eq!(m.calulated_moisture(), CalculatedMoisture::Dry);

    let reply = delete_plant(&mut db, request(0, "", 0));
    assert_eq!(reply.status, ReplyStatus::Success(OkStatus::Deleted));
    assert_eq!(reply.state.plants.len(), 0);
    assert_eq!(db.next_id(), 1);

    let reply = create_plant(&mut db, request(0, "Basil", 4));
    assert_eq!(reply.status, ReplyStatus::Success(OkStatus::Created));
    assert_eq!(reply.state.plants.len(), 1);
    assert_eq!(reply.state.plants[0].id, 1);
    assert_eq!(db.next_id(), 2);
}

#[test]
fn delete_first_of_two_moves_last_into_slot_zero() {
    let mut db = empty_db();
    assert!(db.create_plant("Basil".to_string(), Connector::GPIO(4)).is_ok());
    assert!(db.create_plant("Mint".to_string(), Connector::GPIO(5)).is_ok());
    db.record_samples(&vec![Some(100), Some(2000)]);
    db.record_samples(&vec![None, Some(3000)]);
    db.take_pending_writes();

    let reply = delete_plant(&mut db, request(0, "", 0));
    assert_eq!(reply.status, ReplyStatus::Success(OkStatus::Deleted));
    assert_eq!(
        db.take_pending_writes(),
        vec![StoreWrite::Slot(0, stored(1, "Mint", 5)), StoreWrite::PlantCount(1)]
    );
    assert_eq!(reply.state.plants.len(), 1);
    let p = &reply.state.plants[0];
    assert_eq!(p.id, 1);
    assert_eq!(p.name, "Mint");
    assert_eq!(p.connection, Connector::GPIO(5));
    assert_eq!(p.measured_moisture.measured_voltage, Some(2500));
    assert_eq!(db.get_plants()[0].measured_values.to_vec(), vec![2000, 3000]);
    assert_eq!(db.next_id(), 2);
}

#[test]
fn delete_last_only_shrinks_count() {
    let mut db = empty_db();
    assert!(db.create_plant("Basil".to_string(), Connector::GPIO(4)).is_ok());
    assert!(db.create_plant("Mint".to_string(), Connector::GPIO(5)).is_ok());
    db.take_pending_writes();
    assert!(db.delete_plant(1).is_ok());
    assert_eq!(db.take_pending_writes(), vec![StoreWrite::PlantCount(1)]);
    assert_eq!(db.get_plants().len(), 1);
    assert_eq!(db.get_plants()[0].info.id, 0);
}

#[test]
fn delete_unknown_id_is_bad_request() {
    let mut db = empty_db();
    assert!(db.create_plant("Basil".to_string(), Connector::GPIO(4)).is_ok());
    db.take_pending_writes();
    let reply = delete_plant(&mut db, request(9, "", 0));
    assert_eq!(reply.status, ReplyStatus::Failure(ErrStatus::BadRequest));
    assert_eq!(reply.state.plants.len(), 1);
    assert_eq!(reply.state.plants[0].id, 0);
    assert_eq!(db.take_pending_writes(), vec![]);
    assert!(db.delete_plant(9).is_err());
}

#[test]
fn create_with_too_long_name_is_bad_request() {
    let mut db = empty_db();
    let long = "x".repeat(65);
    let reply = create_plant(&mut db, request(0, &long, 4));
    assert_eq!(reply.status, ReplyStatus::Failure(ErrStatus::BadRequest));
    assert_eq!(reply.state.plants.len(), 0);
    assert_eq!(db.next_id(), 0);
    assert_eq!(db.take_pending_writes(), vec![]);
    let longest = "x".repeat(64);
    assert!(db.create_plant(longest, Connector::GPIO(4)).is_ok());
}

#[test]
fn create_fails_when_ids_are_exhausted() {
    let mut db = PlantDB::new(Some(u16::MAX), Some(0), &vec![]);
    assert!(db.create_plant("Basil".to_string(), Connector::GPIO(4)).is_err());
    assert_eq!(db.next_id(), u16::MAX);
    let mut db = PlantDB::new(Some(u16::MAX - 1), Some(0), &vec![]);
    assert!(db.create_plant("Basil".to_string(), Connector::GPIO(4)).is_ok());
    assert_eq!(db.get_plants()[0].info.id, u16::MAX - 1);
    assert!(db.create_plant("Mint".to_string(), Connector::GPIO(4)).is_err());
}

#[test]
fn ids_stay_unique_over_many_operations() {
    let mut db = empty_db();
    for i in 0..10u16 {
        assert!(db.create_plant(format!("p{}", i), Connector::GPIO(i as u8)).is_ok());
    }
    assert!(db.delete_plant(3).is_ok());
    assert!(db.delete_plant(0).is_ok());
    assert!(db.create_plant("late".to_string(), Connector::GPIO(1)).is_ok());
    let ids: Vec<u16> = db.get_plants().iter().map(|p| p.info.id).collect();
    assert_eq!(ids.len(), 9);
    for (i, a) in ids.iter().enumerate() {
        for b in ids.iter().skip(i + 1) {
            assert_ne!(a, b);
        }
    }
    assert!(ids.contains(&10));
    assert!(!ids.contains(&3));
    assert!(!ids.contains(&0));
    let writes = db.take_pending_writes();
    assert_eq!(writes.last(), Some(&StoreWrite::PlantCount(9)));
}

#[test]
fn update_rewrites_slot_in_place() {
    let mut db = empty_db();
    assert!(db.create_plant("Basil".to_string(), Connector::GPIO(4)).is_ok());
    assert!(db.create_plant("Mint".to_string(), Connector::GPIO(5)).is_ok());
    db.take_pending_writes();
    assert!(db.update_plant(1, "Sage".to_string(), Connector::GPIO(6)).is_ok());
    assert_eq!(db.take_pending_writes(), vec![StoreWrite::Slot(1, stored(1, "Sage", 6))]);
    assert_eq!(db.get_plants()[1].info.name, "Sage");
    assert!(db.update_plant(7, "Sage".to_string(), Connector::GPIO(6)).is_err());
}

#[test]
fn sampling_skips_failed_reads() {
    let mut db = empty_db();
    assert!(db.create_plant("Basil".to_string(), Connector::GPIO(4)).is_ok());
    assert!(db.create_plant("Mint".to_string(), Connector::GPIO(5)).is_ok());
    assert_eq!(db.connectors(), vec![Connector::GPIO(4), Connector::GPIO(5)]);
    db.record_samples(&vec![Some(400), None]);
    let state = db.board_state();
    assert_eq!(state.plants[0].measured_moisture.measured_voltage, Some(400));
    assert_eq!(state.plants[0].measured_moisture.calulated_moisture(), CalculatedMoisture::Wet);
    assert_eq!(state.plants[1].measured_moisture.measured_voltage, None);
}

#[test]
fn load_heals_missing_counters() {
    let mut db = PlantDB::new(None, None, &vec![]);
    assert_eq!(db.next_id(), 0);
    assert_eq!(db.get_plants().len(), 0);
    assert_eq!(db.get_name(), "Board1");
    assert_eq!(db.take_pending_writes(), vec![StoreWrite::NextId(0), StoreWrite::PlantCount(0)]);
}

#[test]
fn load_reads_records_and_skips_bad_slots() {
    let slots = vec![Some(stored(2, "Basil", 4)), None, Some(vec![0xff]), Some(stored(5, "Mint", 5))];
    let mut db = PlantDB::new(Some(6), Some(4), &slots);
    assert_eq!(db.get_plants().len(), 2);
    assert_eq!(db.get_plants()[0].info.id, 2);
    assert_eq!(db.get_plants()[1].info.name, "Mint");
    assert_eq!(db.get_plants()[1].measured_values.len(), 0);
    assert_eq!(db.next_id(), 6);
    assert_eq!(db.take_pending_writes(), vec![]);
}

#[test]
fn load_moves_counter_past_stored_ids_and_drops_duplicates() {
    let slots = vec![Some(stored(4, "Basil", 4)), Some(stored(4, "Copy", 4)), Some(stored(9, "Mint", 5))];
    let mut db = PlantDB::new(Some(3), Some(3), &slots);
    assert_eq!(db.get_plants().len(), 2);
    assert_eq!(db.get_plants()[0].info.name, "Basil");
    assert_eq!(db.next_id(), 10);
    assert_eq!(db.take_pending_writes(), vec![StoreWrite::NextId(10)]);
    assert!(db.create_plant("New".to_string(), Connector::GPIO(1)).is_ok());
    assert_eq!(db.get_plants()[2].info.id, 10);
}

#[test]
fn create_with_multibyte_name_at_the_limit() {
    let mut db = empty_db();
    let name = "é".repeat(32);
    assert_eq!(name.len(), 64);
    assert!(db.create_plant(name.clone(), Connector::GPIO(4)).is_ok());
    assert!(db.create_plant("é".repeat(33), Connector::GPIO(4)).is_err());
    assert_eq!(db.get_plants()[0].info.name, name);
}

#[test]
fn update_existing_plant_succeeds() {
    let mut db = PlantDB::new(Some(400), Some(0), &vec![]);
    assert!(db.create_plant("Basil".to_string(), Connector::GPIO(4)).is_ok());
    assert!(db.update_plant(400, "x".repeat(64), Connector::GPIO(9)).is_ok());
    assert!(db.update_plant(400, "x".repeat(65), Connector::GPIO(9)).is_err());
    assert_eq!(db.get_plants()[0].info.connection, Connector::GPIO(9));
}

#[test]
fn load_keeps_slot_order() {
    let slots = vec![Some(stored(7, "C", 1)), Some(stored(3, "A", 2)), Some(stored(5, "B", 3))];
    let db = PlantDB::new(Some(8), Some(3), &slots);
    let ids: Vec<u16> = db.get_plants().iter().map(|p| p.info.id).collect();
    assert_eq!(ids, vec![7, 3, 5]);
}

#[test]
fn load_reads_record_with_trailing_bytes() {
    let mut bytes = stored(2, "Basil", 4);
    bytes.extend_from_slice(&[0, 0, 0]);
    let mut db = PlantDB::new(Some(3), Some(2), &vec![Some(bytes), Some(stored(1, "Mint", 5))]);
    assert_eq!(db.get_plants().len(), 2);
    db.take_pending_writes();
    assert!(db.delete_plant(2).is_ok());
    assert_eq!(
        db.take_pending_writes(),
        vec![StoreWrite::Slot(0, stored(1, "Mint", 5)), StoreWrite::PlantCount(1)]
    );
}

#[test]
fn record_with_long_varints_is_read_and_stored_shortest() {
    let bytes = vec![0x80, 0x00, 0x00, 0x05, 0x00];
    let d = PlantData::from_stored(&bytes).unwrap();
    assert_eq!(d.id, 0);
    assert_eq!(d.connection, Connector::GPIO(5));
    assert_eq!(d.name, "");
    let mut db = PlantDB::new(Some(1), Some(2), &vec![Some(bytes), Some(stored(1, "Mint", 5))]);
    assert_eq!(db.get_plants().len(), 2);
    db.take_pending_writes();
    assert!(db.delete_plant(1).is_ok());
    assert!(db.delete_plant(0).is_ok());
    assert_eq!(db.take_pending_writes(), vec![StoreWrite::PlantCount(1), StoreWrite::PlantCount(0)]);
}

#[test]
fn moved_record_is_rewritten_in_shortest_form() {
    let long = vec![0x80, 0x00, 0x00, 0x05, 0x00];
    let mut db = PlantDB::new(Some(2), Some(2), &vec![Some(stored(1, "Mint", 5)), Some(long)]);
    db.take_pending_writes();
    assert!(db.delete_plant(1).is_ok());
    assert_eq!(
        db.take_pending_writes(),
        vec![StoreWrite::Slot(0, vec![0x00, 0x00, 0x05, 0x00]), StoreWrite::PlantCount(1)]
    );
}

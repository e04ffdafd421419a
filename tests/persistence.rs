use std::collections::HashMap;

use plant_esp32::common::Connector;
use plant_esp32::plant_db::{PlantDB, StoreWrite};
use plant_esp32::record::PlantData;

#[derive(Default)]
struct Flash {
    next_id: Option<u16>,
    plant_count: Option<u16>,
    slots: HashMap<u16, Vec<u8>>,
}

impl Flash {
    fn apply(&mut self, db: &mut PlantDB) {
        for w in db.take_pending_writes() {
            match w {
                StoreWrite::NextId(n) => self.next_id = Some(n),
                StoreWrite::PlantCount(n) => self.plant_count = Some(n),
                StoreWrite::Slot(k, b) => {
                    self.slots.insert(k, b);
                }
            }
        }
    }

    fn reload(&self) -> PlantDB {
        let count = self.plant_count.unwrap_or(0);
        let slots: Vec<Option<Vec<u8>>> = (0..count).map(|k| self.slots.get(&k).cloned()).collect();
        PlantDB::new(self.next_id, self.plant_count, &slots)
    }
}

fn assert_consistent(db: &PlantDB, flash: &Flash) {
    assert_eq!(flash.plant_count, Some(db.get_plants().len() as u16));
    assert_eq!(flash.next_id, Some(db.next_id()));
    let ids: Vec<u16> = db.get_plants().iter().map(|p| p.info.id).collect();
    for (i, a) in ids.iter().enumerate() {
        assert!(*a < db.next_id());
        for b in ids.iter().skip(i + 1) {
            assert_ne!(a, b);
        }
    }
    for (k, p) in db.get_plants().iter().enumerate() {
        let bytes = flash.slots.get(&(k as u16)).unwrap();
        let stored = PlantData::from_stored(bytes).unwrap();
        assert_eq!(stored.id, p.info.id);
        assert_eq!(stored.name, p.info.name);
        assert_eq!(stored.connection, p.info.connection);
    }
}

#[test]
fn persisted_count_matches_after_each_operation() {
    let mut flash = Flash::default();
    let mut db = flash.reload();
    flash.apply(&mut db);
    for i in 0..6u8 {
        assert!(db.create_plant(format!("plant {}", i), Connector::GPIO(i)).is_ok());
        flash.apply(&mut db);
        assert_consistent(&db, &flash);
    }
    for id in [2u16, 5, 0, 9, 3] {
        let _ = db.delete_plant(id);
        flash.apply(&mut db);
        assert_consistent(&db, &flash);
    }
    assert!(db.create_plant("again".to_string(), Connector::GPIO(1)).is_ok());
    flash.apply(&mut db);
    assert_consistent(&db, &flash);
    assert_eq!(db.get_plants().last().unwrap().info.id, 6);
}

#[test]
fn registry_survives_restart() {
    let mut flash = Flash::default();
    let mut db = flash.reload();
    flash.apply(&mut db);
    assert!(db.create_plant("Basil".to_string(), Connector::GPIO(4)).is_ok());
    assert!(db.create_plant("Mint".to_string(), Connector::GPIO(5)).is_ok());
    assert!(db.create_plant("Sage".to_string(), Connector::GPIO(6)).is_ok());
    assert!(db.delete_plant(0).is_ok());
    db.record_samples(&vec![Some(1000), Some(2000)]);
    flash.apply(&mut db);

    let mut again = flash.reload();
    flash.apply(&mut again);
    let names: Vec<String> = again.get_plants().iter().map(|p| p.info.name.clone()).collect();
    assert_eq!(names, vec!["Sage".to_string(), "Mint".to_string()]);
    assert_eq!(again.next_id(), 3);
    assert_eq!(again.get_plants()[0].measured_values.len(), 0);
    assert!(again.create_plant("Thyme".to_string(), Connector::GPIO(7)).is_ok());
    assert_eq!(again.get_plants()[2].info.id, 3);
}

use homeai::house::{
    default_indoor, default_property_id, default_unknown, DeviceFile, FloorFile, HouseFile,
    PropertyFile, RoomFile, SensorFile,
};

#[test]
fn house_file_rows_seed_two_floors_and_a_device() {
    let file = HouseFile {
        property: PropertyFile { id: default_property_id(), name: "Villa".into() },
        floor: vec![
            FloorFile { id: "floor-1".into(), name: "Ground".into() },
            FloorFile { id: "floor-2".into(), name: "Upper".into() },
        ],
        room: vec![RoomFile {
            id: "room-kitchen".into(),
            floor_id: "floor-1".into(),
            name: "Kitchen".into(),
            kind: default_indoor(),
        }],
        device: vec![DeviceFile {
            id: "light-kitchen".into(),
            room_id: "room-kitchen".into(),
            name: "Kitchen light".into(),
            kind: default_unknown(),
            protocol: Some("matter".into()),
        }],
        sensor: vec![SensorFile {
            id: "temp-1".into(),
            room_id: Some("room-kitchen".into()),
            device_id: None,
            kind: "temperature".into(),
        }],
    };
    let (property, floors, rooms, devices, sensors) = file.into_rows();
    assert_eq!(property.id, "home");
    assert_eq!(property.name, "Villa");
    assert_eq!(floors.len(), 2);
    assert!(floors.iter().all(|f| f.property_id == "home"));
    assert_eq!(floors[1].name, "Upper");
    assert_eq!(rooms[0].kind, "indoor");
    assert_eq!(rooms[0].floor_id, "floor-1");
    assert_eq!(devices[0].room_id, "room-kitchen");
    assert_eq!(devices[0].kind, "unknown");
    assert_eq!(devices[0].protocol.as_deref(), Some("matter"));
    assert_eq!(sensors[0].room_id.as_deref(), Some("room-kitchen"));
    assert_eq!(sensors[0].device_id, None);
}

#[test]
fn house_file_seeds_only_an_empty_house() {
    assert!(homeai::house::should_seed(true, 0));
    assert!(!homeai::house::should_seed(true, 1));
    assert!(!homeai::house::should_seed(false, 0));
}

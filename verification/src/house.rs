//! The house description file (`house.toml`): property, floors, rooms,
//! devices and sensors, and the rows it seeds the store with.

use vstd::prelude::*;

use crate::model::{Device, Floor, Property, Room, Sensor};

verus! {

/// Why the house file could not be used.
#[derive(Debug)]
pub enum HouseError {
    Io { path: String, message: String },
    Parse { path: String, message: String },
    /// Storing the rows failed; the text says why.
    Db(String),
}

#[derive(Debug, Clone)]
pub struct HouseFile {
    pub property: PropertyFile,
    pub floor: Vec<FloorFile>,
    pub room: Vec<RoomFile>,
    pub device: Vec<DeviceFile>,
    pub sensor: Vec<SensorFile>,
}

#[derive(Debug, Clone)]
pub struct PropertyFile {
    pub id: String,
    pub name: String,
}

#[derive(Debug, Clone)]
pub struct FloorFile {
    pub id: String,
    pub name: String,
}

#[derive(Debug, Clone)]
pub struct RoomFile {
    pub id: String,
    pub floor_id: String,
    pub name: String,
    pub kind: String,
}

#[derive(Debug, Clone)]
pub struct DeviceFile {
    pub id: String,
    pub room_id: String,
    pub name: String,
    pub kind: String,
    pub protocol: Option<String>,
}

#[derive(Debug, Clone)]
pub struct SensorFile {
    pub id: String,
    pub room_id: Option<String>,
    pub device_id: Option<String>,
    pub kind: String,
}

/// The property id when the file names none.
pub fn default_property_id() -> (r: String)
    ensures
        r@ == "home"@,
{
    String::from_str("home")
}

/// The room kind when the file names none.
pub fn default_indoor() -> (r: String)
    ensures
        r@ == "indoor"@,
{
    String::from_str("indoor")
}

/// The device kind when the file names none.
pub fn default_unknown() -> (r: String)
    ensures
        r@ == "unknown"@,
{
    String::from_str("unknown")
}

pub open spec fn opt_view(o: Option<String>) -> Option<Seq<char>> {
    match o {
        Some(s) => Some(s@),
        None => None,
    }
}

fn copy_opt(o: &Option<String>) -> (r: Option<String>)
    ensures
        opt_view(r) == opt_view(*o),
{
    match o {
        Some(s) => Some(s.clone()),
        None => None,
    }
}

/// The floor row for `f` on property `property_id`.
pub open spec fn floor_row(f: FloorFile, property_id: Seq<char>, row: Floor) -> bool {
    row.id@ == f.id@ && row.property_id@ == property_id && row.name@ == f.name@
}

pub open spec fn room_row(f: RoomFile, row: Room) -> bool {
    row.id@ == f.id@ && row.floor_id@ == f.floor_id@ && row.name@ == f.name@ && row.kind@ == f.kind@
}

pub open spec fn device_row(f: DeviceFile, row: Device) -> bool {
    &&& row.id@ == f.id@
    &&& row.room_id@ == f.room_id@
    &&& row.name@ == f.name@
    &&& row.kind@ == f.kind@
    &&& opt_view(row.protocol) == opt_view(f.protocol)
}

pub open spec fn sensor_row(f: SensorFile, row: Sensor) -> bool {
    &&& row.id@ == f.id@
    &&& opt_view(row.room_id) == opt_view(f.room_id)
    &&& opt_view(row.device_id) == opt_view(f.device_id)
    &&& row.kind@ == f.kind@
}

impl HouseFile {
    /// The rows the file describes: the property, then each floor on it, and
    /// the rooms, devices and sensors as listed, in file order.
    pub fn into_rows(self) -> (r: (Property, Vec<Floor>, Vec<Room>, Vec<Device>, Vec<Sensor>))
        ensures
            r.0.id@ == self.property.id@,
            r.0.name@ == self.property.name@,
            r.1.len() == self.floor.len(),
            forall|i: int| 0 <= i < r.1.len() ==> floor_row(self.floor[i], self.property.id@, #[trigger] r.1[i]),
            r.2.len() == self.room.len(),
            forall|i: int| 0 <= i < r.2.len() ==> room_row(self.room[i], #[trigger] r.2[i]),
            r.3.len() == self.device.len(),
            forall|i: int| 0 <= i < r.3.len() ==> device_row(self.device[i], #[trigger] r.3[i]),
            r.4.len() == self.sensor.len(),
            forall|i: int| 0 <= i < r.4.len() ==> sensor_row(self.sensor[i], #[trigger] r.4[i]),
    {
        let property = Property { id: self.property.id.clone(), name: self.property.name.clone() };
        let mut floors: Vec<Floor> = Vec::new();
        let mut i: usize = 0;
        while i < self.floor.len()
            invariant
                i <= self.floor.len(),
                floors.len() == i,
                property.id@ == self.property.id@,
                forall|j: int| 0 <= j < i ==> floor_row(self.floor[j], self.property.id@, #[trigger] floors[j]),
            decreases self.floor.len() - i,
        {
            let f = &self.floor[i];
            floors.push(Floor { id: f.id.clone(), property_id: property.id.clone(), name: f.name.clone() });
            i = i + 1;
        }
        let mut rooms: Vec<Room> = Vec::new();
        let mut i: usize = 0;
        while i < self.room.len()
            invariant
                i <= self.room.len(),
                rooms.len() == i,
                forall|j: int| 0 <= j < i ==> room_row(self.room[j], #[trigger] rooms[j]),
            decreases self.room.len() - i,
        {
            let f = &self.room[i];
            rooms.push(Room { id: f.id.clone(), floor_id: f.floor_id.clone(), name: f.name.clone(), kind: f.kind.clone() });
            i = i + 1;
        }
        let mut devices: Vec<Device> = Vec::new();
        let mut i: usize = 0;
        while i < self.device.len()
            invariant
                i <= self.device.len(),
                devices.len() == i,
                forall|j: int| 0 <= j < i ==> device_row(self.device[j], #[trigger] devices[j]),
            decreases self.device.len() - i,
        {
            let f = &self.device[i];
            devices.push(Device {
                id: f.id.clone(),
                room_id: f.room_id.clone(),
                name: f.name.clone(),
                kind: f.kind.clone(),
                protocol: copy_opt(&f.protocol),
            });
            i = i + 1;
        }
        let mut sensors: Vec<Sensor> = Vec::new();
        let mut i: usize = 0;
        while i < self.sensor.len()
            invariant
                i <= self.sensor.len(),
                sensors.len() == i,
                forall|j: int| 0 <= j < i ==> sensor_row(self.sensor[j], #[trigger] sensors[j]),
            decreases self.sensor.len() - i,
        {
            let f = &self.sensor[i];
            sensors.push(Sensor {
                id: f.id.clone(),
                room_id: copy_opt(&f.room_id),
                device_id: copy_opt(&f.device_id),
                kind: f.kind.clone(),
            });
            i = i + 1;
        }
        (property, floors, rooms, devices, sensors)
    }
}

/// Whether the house file seeds the database: only when the file exists
/// and no property row is stored yet, so seeding happens once.
pub fn should_seed(file_present: bool, property_rows: u64) -> (r: bool)
    ensures
        r == (file_present && property_rows == 0),
{
    file_present && property_rows == 0
}

} // verus!

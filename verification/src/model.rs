//! Rows of the local store: the house structure, people and device state.

use vstd::prelude::*;

verus! {

#[derive(Debug, Clone, PartialEq, Eq)]
pub struct Property {
    pub id: String,
    pub name: String,
}

#[derive(Debug, Clone, PartialEq, Eq)]
pub struct Floor {
    pub id: String,
    pub property_id: String,
    pub name: String,
}

/// A room or any other zone (`kind` tells indoor room, garage, garden, ...).
#[derive(Debug, Clone, PartialEq, Eq)]
pub struct Room {
    pub id: String,
    pub floor_id: String,
    pub name: String,
    pub kind: String,
}

#[derive(Debug, Clone, PartialEq, Eq)]
pub struct Device {
    pub id: String,
    pub room_id: String,
    pub name: String,
    pub kind: String,
    pub protocol: Option<String>,
}

/// A sensor attached to a room, a device, or both.
#[derive(Debug, Clone, PartialEq, Eq)]
pub struct Sensor {
    pub id: String,
    pub room_id: Option<String>,
    pub device_id: Option<String>,
    pub kind: String,
}

#[derive(Debug, Clone, PartialEq, Eq)]
pub struct Person {
    pub id: String,
    pub name: String,
    pub kind: String,
}

#[derive(Debug, Clone, PartialEq, Eq)]
pub struct DeviceState {
    pub device_id: String,
    pub state_json: String,
    pub updated_ms: i64,
}

} // verus!

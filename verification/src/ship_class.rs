//! The viewer's side of ship types: the categories it receives from the ship registry, the
//! model class each is drawn with, and the label shown for each.
use vstd::prelude::*;

use crate::text::{decimal, push_decimal, push_str, string_from_chars};

verus! {

/// The ship type categories as the viewer receives them from the ship registry.
#[derive(Debug, Clone, Copy, PartialEq, Eq, Hash, Structural)]
pub enum ReportedShipType {
    NotAvailable,
    Reserved,
    WingInGround,
    Fishing,
    Towing,
    TowingLarge,
    DredgingOrUnderwaterOps,
    DivingOps,
    MilitaryOps,
    Sailing,
    PleasureCraft,
    HighSpeedCraft,
    PilotVessel,
    SearchAndRescueVessel,
    Tug,
    PortTender,
    AntiPollutionEquipment,
    LawEnforcement,
    MedicalTransport,
    NoncombatantShip,
    Passenger,
    Cargo,
    Tanker,
    Other,
    Unknown(u8),
}

/// The model class a ship is drawn with.
#[derive(Debug, Clone, Copy, PartialEq, Eq, Hash, Structural)]
pub enum ShipClass {
    Default,
    Tug,
    Speedboat,
    Sailboat,
    Tanker,
    Military,
    Passenger,
    LawEnforcement,
    DredgingOrUnderwaterOps,
}

/// The model class for a reported ship type: towing and harbour craft are tugs, fast and
/// pleasure craft speedboats, a few categories have a model of their own, and everything
/// else, an unreported type too, uses the default model.
pub open spec fn ship_class_of(ship_type: Option<ReportedShipType>) -> ShipClass {
    match ship_type {
        Some(ReportedShipType::Tug) => ShipClass::Tug,
        Some(ReportedShipType::Towing) => ShipClass::Tug,
        Some(ReportedShipType::TowingLarge) => ShipClass::Tug,
        Some(ReportedShipType::PortTender) => ShipClass::Tug,
        Some(ReportedShipType::HighSpeedCraft) => ShipClass::Speedboat,
        Some(ReportedShipType::PleasureCraft) => ShipClass::Speedboat,
        Some(ReportedShipType::Sailing) => ShipClass::Sailboat,
        Some(ReportedShipType::Tanker) => ShipClass::Tanker,
        Some(ReportedShipType::MilitaryOps) => ShipClass::Military,
        Some(ReportedShipType::Passenger) => ShipClass::Passenger,
        Some(ReportedShipType::LawEnforcement) => ShipClass::LawEnforcement,
        Some(ReportedShipType::DredgingOrUnderwaterOps) => ShipClass::DredgingOrUnderwaterOps,
        _ => ShipClass::Default,
    }
}

impl ShipClass {
    /// The model class for a reported ship type.
    pub fn from_major_ais_type(ship_type: Option<&ReportedShipType>) -> (r: ShipClass)
        ensures
            r == ship_class_of(
                match ship_type {
                    Some(t) => Some(*t),
                    None => None,
                },
            ),
    {
        match ship_type {
            Some(ReportedShipType::Tug)
            | Some(ReportedShipType::Towing)
            | Some(ReportedShipType::TowingLarge)
            | Some(ReportedShipType::PortTender) => ShipClass::Tug,
            Some(ReportedShipType::HighSpeedCraft) | Some(ReportedShipType::PleasureCraft) => {
                ShipClass::Speedboat
            },
            Some(ReportedShipType::Sailing) => ShipClass::Sailboat,
            Some(ReportedShipType::Tanker) => ShipClass::Tanker,
            Some(ReportedShipType::MilitaryOps) => ShipClass::Military,
            Some(ReportedShipType::Passenger) => ShipClass::Passenger,
            Some(ReportedShipType::LawEnforcement) => ShipClass::LawEnforcement,
            Some(ReportedShipType::DredgingOrUnderwaterOps) => ShipClass::DredgingOrUnderwaterOps,
            _ => ShipClass::Default,
        }
    }
}

/// The model file each class is drawn with.
pub open spec fn scene_path_of(class: ShipClass) -> Seq<char> {
    match class {
        ShipClass::Default => "models/container_ship.glb"@,
        ShipClass::Tug => "models/tugboat.glb"@,
        ShipClass::Speedboat => "models/speedboat.glb"@,
        ShipClass::Sailboat => "models/sail_boat.obj"@,
        ShipClass::Tanker => "models/oil_tanker.obj"@,
        ShipClass::Military => "models/frigate.obj"@,
        ShipClass::Passenger => "models/sydney_emerald-class_low_poly.glb"@,
        ShipClass::LawEnforcement => "models/police_boat.glb"@,
        ShipClass::DredgingOrUnderwaterOps => "models/dredge.glb"@,
    }
}

impl ShipClass {
    /// The model file this class is drawn with; its placement is the viewer's.
    pub fn scene_path(self) -> (r: &'static str)
        ensures
            r@ == scene_path_of(self),
    {
        match self {
            ShipClass::Default => "models/container_ship.glb",
            ShipClass::Tug => "models/tugboat.glb",
            ShipClass::Speedboat => "models/speedboat.glb",
            ShipClass::Sailboat => "models/sail_boat.obj",
            ShipClass::Tanker => "models/oil_tanker.obj",
            ShipClass::Military => "models/frigate.obj",
            ShipClass::Passenger => "models/sydney_emerald-class_low_poly.glb",
            ShipClass::LawEnforcement => "models/police_boat.glb",
            ShipClass::DredgingOrUnderwaterOps => "models/dredge.glb",
        }
    }
}

/// The name given to the demo ship of each class.
pub open spec fn demo_ship_name_of(class: ShipClass) -> Seq<char> {
    match class {
        ShipClass::Default => "Default Demo Ship"@,
        ShipClass::Tug => "Tug Demo Ship"@,
        ShipClass::Speedboat => "Speedboat Demo Ship"@,
        ShipClass::Sailboat => "Sailboat Demo Ship"@,
        ShipClass::Tanker => "Tanker Demo Ship"@,
        ShipClass::Military => "Military Demo Ship"@,
        ShipClass::Passenger => "Passenger Demo Ship"@,
        ShipClass::LawEnforcement => "Law Enforcement Demo Ship"@,
        ShipClass::DredgingOrUnderwaterOps => "Dredging Demo Ship"@,
    }
}

/// The name of the demo ship shown for a class.
pub fn demo_ship_name(class: ShipClass) -> (r: &'static str)
    ensures
        r@ == demo_ship_name_of(class),
{
    match class {
        ShipClass::Default => "Default Demo Ship",
        ShipClass::Tug => "Tug Demo Ship",
        ShipClass::Speedboat => "Speedboat Demo Ship",
        ShipClass::Sailboat => "Sailboat Demo Ship",
        ShipClass::Tanker => "Tanker Demo Ship",
        ShipClass::Military => "Military Demo Ship",
        ShipClass::Passenger => "Passenger Demo Ship",
        ShipClass::LawEnforcement => "Law Enforcement Demo Ship",
        ShipClass::DredgingOrUnderwaterOps => "Dredging Demo Ship",
    }
}

/// The label of a known ship type; `None` for an unknown code, whose label carries the code.
pub open spec fn known_type_label(t: ReportedShipType) -> Option<Seq<char>> {
    match t {
        ReportedShipType::NotAvailable => Some("Not Available"@),
        ReportedShipType::Reserved => Some("Reserved"@),
        ReportedShipType::WingInGround => Some("Wing In Ground"@),
        ReportedShipType::Fishing => Some("Fishing"@),
        ReportedShipType::Towing => Some("Towing"@),
        ReportedShipType::TowingLarge => Some("Towing Large"@),
        ReportedShipType::DredgingOrUnderwaterOps => Some("Dredging or Underwater Ops"@),
        ReportedShipType::DivingOps => Some("Diving Ops"@),
        ReportedShipType::MilitaryOps => Some("Military Ops"@),
        ReportedShipType::Sailing => Some("Sailing"@),
        ReportedShipType::PleasureCraft => Some("Pleasure Craft"@),
        ReportedShipType::HighSpeedCraft => Some("High Speed Craft"@),
        ReportedShipType::PilotVessel => Some("Pilot Vessel"@),
        ReportedShipType::SearchAndRescueVessel => Some("Search and Rescue Vessel"@),
        ReportedShipType::Tug => Some("Tug"@),
        ReportedShipType::PortTender => Some("Port Tender"@),
        ReportedShipType::AntiPollutionEquipment => Some("Anti-Pollution Equipment"@),
        ReportedShipType::LawEnforcement => Some("Law Enforcement"@),
        ReportedShipType::MedicalTransport => Some("Medical Transport"@),
        ReportedShipType::NoncombatantShip => Some("Noncombatant Ship"@),
        ReportedShipType::Passenger => Some("Passenger"@),
        ReportedShipType::Cargo => Some("Cargo"@),
        ReportedShipType::Tanker => Some("Tanker"@),
        ReportedShipType::Other => Some("Other"@),
        ReportedShipType::Unknown(_) => None,
    }
}

/// The label shown for a ship's type: the category's name, `Unknown (<code>)` for an unknown
/// code, and `-` where no type was reported.
pub open spec fn ship_type_label_of(value: Option<ReportedShipType>) -> Seq<char> {
    match value {
        None => "-"@,
        Some(ReportedShipType::Unknown(code)) => "Unknown ("@ + decimal(code as nat) + ")"@,
        Some(t) => known_type_label(t).unwrap(),
    }
}

fn known_label(t: &ReportedShipType) -> (r: &'static str)
    requires
        known_type_label(*t) is Some,
    ensures
        known_type_label(*t) == Some(r@),
{
    match t {
        ReportedShipType::NotAvailable => "Not Available",
        ReportedShipType::Reserved => "Reserved",
        ReportedShipType::WingInGround => "Wing In Ground",
        ReportedShipType::Fishing => "Fishing",
        ReportedShipType::Towing => "Towing",
        ReportedShipType::TowingLarge => "Towing Large",
        ReportedShipType::DredgingOrUnderwaterOps => "Dredging or Underwater Ops",
        ReportedShipType::DivingOps => "Diving Ops",
        ReportedShipType::MilitaryOps => "Military Ops",
        ReportedShipType::Sailing => "Sailing",
        ReportedShipType::PleasureCraft => "Pleasure Craft",
        ReportedShipType::HighSpeedCraft => "High Speed Craft",
        ReportedShipType::PilotVessel => "Pilot Vessel",
        ReportedShipType::SearchAndRescueVessel => "Search and Rescue Vessel",
        ReportedShipType::Tug => "Tug",
        ReportedShipType::PortTender => "Port Tender",
        ReportedShipType::AntiPollutionEquipment => "Anti-Pollution Equipment",
        ReportedShipType::LawEnforcement => "Law Enforcement",
        ReportedShipType::MedicalTransport => "Medical Transport",
        ReportedShipType::NoncombatantShip => "Noncombatant Ship",
        ReportedShipType::Passenger => "Passenger",
        ReportedShipType::Cargo => "Cargo",
        ReportedShipType::Tanker => "Tanker",
        ReportedShipType::Other => "Other",
        ReportedShipType::Unknown(_) => "Unknown",
    }
}

/// The label shown for a ship's type in the ship information panel.
pub fn format_ship_type(value: Option<&ReportedShipType>) -> (r: String)
    ensures
        r@ == ship_type_label_of(
            match value {
                Some(t) => Some(*t),
                None => None,
            },
        ),
{
    let mut out: Vec<char> = Vec::new();
    match value {
        None => push_str(&mut out, "-"),
        Some(ReportedShipType::Unknown(code)) => {
            push_str(&mut out, "Unknown (");
            push_decimal(&mut out, *code as u64);
            push_str(&mut out, ")");
        },
        Some(t) => push_str(&mut out, known_label(t)),
    }
    assert(out@ =~= ship_type_label_of(
        match value {
            Some(t) => Some(*t),
            None => None,
        },
    ));
    string_from_chars(out.as_slice())
}

} // verus!

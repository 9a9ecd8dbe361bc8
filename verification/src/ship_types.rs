//! The broad AIS ship categories and their descriptions.
use vstd::prelude::*;

verus! {

/// The broad category of an AIS ship type code.
#[derive(Debug, Clone, Copy, PartialEq, Eq, Hash, Structural)]
pub enum MajorAisShipType {
    NotAvailable,
    Reserved,
    WingInGround,
    FishingOrService,
    HighSpeedCraft,
    SpecialCraft,
    Passenger,
    Cargo,
    Tanker,
    Other,
    Unknown(u8),
}

/// The category of an AIS ship type code: code 0 is not available, 1 to 19 are reserved,
/// each following block of ten up to 99 is one category, and 100 and above are unknown.
pub open spec fn major_ship_type_of(code: u8) -> MajorAisShipType {
    if code == 0 {
        MajorAisShipType::NotAvailable
    } else if code <= 19 {
        MajorAisShipType::Reserved
    } else if code <= 29 {
        MajorAisShipType::WingInGround
    } else if code <= 39 {
        MajorAisShipType::FishingOrService
    } else if code <= 49 {
        MajorAisShipType::HighSpeedCraft
    } else if code <= 59 {
        MajorAisShipType::SpecialCraft
    } else if code <= 69 {
        MajorAisShipType::Passenger
    } else if code <= 79 {
        MajorAisShipType::Cargo
    } else if code <= 89 {
        MajorAisShipType::Tanker
    } else if code <= 99 {
        MajorAisShipType::Other
    } else {
        MajorAisShipType::Unknown(code)
    }
}

impl From<u8> for MajorAisShipType {
    fn from(code: u8) -> (r: Self) {
        if code == 0 {
            MajorAisShipType::NotAvailable
        } else if code <= 19 {
            MajorAisShipType::Reserved
        } else if code <= 29 {
            MajorAisShipType::WingInGround
        } else if code <= 39 {
            MajorAisShipType::FishingOrService
        } else if code <= 49 {
            MajorAisShipType::HighSpeedCraft
        } else if code <= 59 {
            MajorAisShipType::SpecialCraft
        } else if code <= 69 {
            MajorAisShipType::Passenger
        } else if code <= 79 {
            MajorAisShipType::Cargo
        } else if code <= 89 {
            MajorAisShipType::Tanker
        } else if code <= 99 {
            MajorAisShipType::Other
        } else {
            MajorAisShipType::Unknown(code)
        }
    }
}

impl vstd::std_specs::convert::FromSpecImpl<u8> for MajorAisShipType {
    open spec fn obeys_from_spec() -> bool {
        true
    }

    open spec fn from_spec(v: u8) -> MajorAisShipType {
        major_ship_type_of(v)
    }
}

/// The long description of a category.
pub open spec fn describe_of(t: MajorAisShipType) -> Seq<char> {
    match t {
        MajorAisShipType::NotAvailable => "Not available or no ship type reported"@,
        MajorAisShipType::Reserved => "Reserved AIS ship type code"@,
        MajorAisShipType::WingInGround => "Wing in ground craft or search and rescue aircraft"@,
        MajorAisShipType::FishingOrService => "Fishing, towing, dredging, diving, military, sailing, or pleasure craft"@,
        MajorAisShipType::HighSpeedCraft => "High-speed craft"@,
        MajorAisShipType::SpecialCraft => "Special craft such as pilot vessel, SAR vessel, tug, port tender, law enforcement, or medical transport"@,
        MajorAisShipType::Passenger => "Passenger vessel"@,
        MajorAisShipType::Cargo => "Cargo vessel"@,
        MajorAisShipType::Tanker => "Tanker"@,
        MajorAisShipType::Other => "Other ship or cargo type"@,
        MajorAisShipType::Unknown(_) => "Unknown AIS ship type code"@,
    }
}

/// The short description of a category.
pub open spec fn short_description_of(t: MajorAisShipType) -> Seq<char> {
    match t {
        MajorAisShipType::NotAvailable => "Not available"@,
        MajorAisShipType::Reserved => "Reserved"@,
        MajorAisShipType::WingInGround => "WIG / SAR aircraft"@,
        MajorAisShipType::FishingOrService => "Fishing / service"@,
        MajorAisShipType::HighSpeedCraft => "High-speed craft"@,
        MajorAisShipType::SpecialCraft => "Special craft"@,
        MajorAisShipType::Passenger => "Passenger"@,
        MajorAisShipType::Cargo => "Cargo"@,
        MajorAisShipType::Tanker => "Tanker"@,
        MajorAisShipType::Other => "Other"@,
        MajorAisShipType::Unknown(_) => "Unknown"@,
    }
}

impl MajorAisShipType {
    /// A sentence describing the category.
    pub fn describe(&self) -> (r: &'static str)
        ensures
            r@ == describe_of(*self),
    {
        match self {
            Self::NotAvailable => "Not available or no ship type reported",
            Self::Reserved => "Reserved AIS ship type code",
            Self::WingInGround => "Wing in ground craft or search and rescue aircraft",
            Self::FishingOrService => "Fishing, towing, dredging, diving, military, sailing, or pleasure craft",
            Self::HighSpeedCraft => "High-speed craft",
            Self::SpecialCraft => "Special craft such as pilot vessel, SAR vessel, tug, port tender, law enforcement, or medical transport",
            Self::Passenger => "Passenger vessel",
            Self::Cargo => "Cargo vessel",
            Self::Tanker => "Tanker",
            Self::Other => "Other ship or cargo type",
            Self::Unknown(_) => "Unknown AIS ship type code",
        }
    }

    /// A label of a few words for the category.
    pub fn short_description(&self) -> (r: &'static str)
        ensures
            r@ == short_description_of(*self),
    {
        match self {
            Self::NotAvailable => "Not available",
            Self::Reserved => "Reserved",
            Self::WingInGround => "WIG / SAR aircraft",
            Self::FishingOrService => "Fishing / service",
            Self::HighSpeedCraft => "High-speed craft",
            Self::SpecialCraft => "Special craft",
            Self::Passenger => "Passenger",
            Self::Cargo => "Cargo",
            Self::Tanker => "Tanker",
            Self::Other => "Other",
            Self::Unknown(_) => "Unknown",
        }
    }
}

} // verus!

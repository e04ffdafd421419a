//! Types exchanged between the node and its viewers, and the moisture
//! classifier.

use vstd::prelude::*;

verus! {

/// Kind of soil a plant stands in.
#[derive(Clone, Copy, Debug, PartialEq, Eq, Structural, Hash)]
pub enum SoilType {
    PottingSoil,
}

impl Default for SoilType {
    fn default() -> (r: SoilType)
        ensures
            r == SoilType::PottingSoil,
    {
        SoilType::PottingSoil
    }
}

/// Qualitative moisture category derived from a measured voltage.
#[derive(Clone, Copy, Debug, PartialEq, Eq, Structural, Hash)]
pub enum CalculatedMoisture {
    Unknown,
    VeryDry,
    Dry,
    Perfect,
    Moist,
    Wet,
}

/// Voltage (in millivolts) below which the soil counts as wet.
pub const WET_BELOW: u32 = 500;

/// Voltage below which the soil counts as moist.
pub const MOIST_BELOW: u32 = 1000;

/// Voltage below which the soil counts as perfect.
pub const PERFECT_BELOW: u32 = 1500;

/// Voltage below which the soil counts as dry; at or above it, very dry.
pub const DRY_BELOW: u32 = 2500;

/// Category of a (possibly absent) voltage reading in millivolts.
pub open spec fn classify(voltage: Option<int>) -> CalculatedMoisture {
    match voltage {
        None => CalculatedMoisture::Unknown,
        Some(v) => if v < WET_BELOW {
            CalculatedMoisture::Wet
        } else if v < MOIST_BELOW {
            CalculatedMoisture::Moist
        } else if v < PERFECT_BELOW {
            CalculatedMoisture::Perfect
        } else if v < DRY_BELOW {
            CalculatedMoisture::Dry
        } else {
            CalculatedMoisture::VeryDry
        },
    }
}

impl CalculatedMoisture {
    /// Human-readable label of the category.
    pub fn label(&self) -> (r: &'static str)
        ensures
            r@ == label_of(*self),
    {
        match self {
            CalculatedMoisture::Unknown => "Unknown",
            CalculatedMoisture::VeryDry => "Very dry",
            CalculatedMoisture::Dry => "Dry",
            CalculatedMoisture::Perfect => "Perfect",
            CalculatedMoisture::Moist => "Moist",
            CalculatedMoisture::Wet => "Wet",
        }
    }
}

/// Label text of each category.
pub open spec fn label_of(c: CalculatedMoisture) -> Seq<char> {
    match c {
        CalculatedMoisture::Unknown => "Unknown"@,
        CalculatedMoisture::VeryDry => "Very dry"@,
        CalculatedMoisture::Dry => "Dry"@,
        CalculatedMoisture::Perfect => "Perfect"@,
        CalculatedMoisture::Moist => "Moist"@,
        CalculatedMoisture::Wet => "Wet"@,
    }
}

/// Reported moisture of one plant. Voltages are in millivolts; the measured
/// voltage is the mean of the plant's recent samples, rounded down.
#[derive(Clone, Copy, Debug, PartialEq, Eq, Structural)]
pub struct Moisture {
    pub measured_voltage: Option<u32>,
    pub pot_volume: Option<u32>,
    pub soil: SoilType,
}

impl Default for Moisture {
    fn default() -> (r: Moisture)
        ensures
            r == (Moisture { measured_voltage: None, pot_volume: None, soil: SoilType::PottingSoil }),
    {
        Moisture { measured_voltage: None, pot_volume: None, soil: SoilType::PottingSoil }
    }
}

/// Widens an optional voltage to a mathematical integer.
pub open spec fn voltage_int(v: Option<u32>) -> Option<int> {
    match v {
        None => None,
        Some(x) => Some(x as int),
    }
}

impl Moisture {
    /// Classifies the measured voltage.
    pub fn calulated_moisture(&self) -> (r: CalculatedMoisture)
        ensures
            r == classify(voltage_int(self.measured_voltage)),
    {
        match self.measured_voltage {
            None => CalculatedMoisture::Unknown,
            Some(voltage) => {
                if voltage < WET_BELOW {
                    CalculatedMoisture::Wet
                } else if voltage < MOIST_BELOW {
                    CalculatedMoisture::Moist
                } else if voltage < PERFECT_BELOW {
                    CalculatedMoisture::Perfect
                } else if voltage < DRY_BELOW {
                    CalculatedMoisture::Dry
                } else {
                    CalculatedMoisture::VeryDry
                }
            },
        }
    }
}

/// How a plant's sensor is attached to the board.
#[derive(Clone, Copy, Debug, PartialEq, Eq, Structural, Hash)]
pub enum Connector {
    GPIO(u8),
}

/// Pin that a freshly configured connector uses.
pub const DEFAULT_GPIO_PIN: u8 = 32;

impl Default for Connector {
    fn default() -> (r: Connector)
        ensures
            r == Connector::GPIO(DEFAULT_GPIO_PIN),
    {
        Connector::GPIO(DEFAULT_GPIO_PIN)
    }
}

/// One plant as a viewer sees it.
#[derive(Clone, Debug, PartialEq)]
pub struct PlantInfo {
    pub id: u16,
    pub name: String,
    pub measured_moisture: Moisture,
    pub connection: Connector,
}

impl Default for PlantInfo {
    fn default() -> (r: PlantInfo)
        ensures
            r.id == 0,
            r.name@ == Seq::<char>::empty(),
            r.measured_moisture.measured_voltage is None,
            r.measured_moisture.pot_volume is None,
            r.connection == Connector::GPIO(DEFAULT_GPIO_PIN),
    {
        PlantInfo {
            id: 0,
            name: String::new(),
            measured_moisture: Moisture::default(),
            connection: Connector::default(),
        }
    }
}

/// Name of the board and every plant on it.
#[derive(Clone, Debug, PartialEq)]
pub struct BoardState {
    pub name: String,
    pub plants: Vec<PlantInfo>,
}

/// Outcome of a request that succeeded.
#[derive(Clone, Copy, Debug, PartialEq, Eq, Structural)]
pub enum OkStatus {
    Empty,
    Created,
    Deleted,
}

/// Outcome of a request that was refused.
#[derive(Clone, Copy, Debug, PartialEq, Eq, Structural)]
pub enum ErrStatus {
    BadRequest,
}

/// Status part of every reply.
#[derive(Clone, Copy, Debug, PartialEq, Eq, Structural)]
pub enum ReplyStatus {
    Success(OkStatus),
    Failure(ErrStatus),
}

/// Reply to every control-plane request: a status and the current state.
#[derive(Clone, Debug, PartialEq)]
pub struct Reply {
    pub status: ReplyStatus,
    pub state: BoardState,
}

} // verus!

//! The library's error taxonomy.
//!
//! Configuration faults, source-framing faults, field-level format faults,
//! store lookup faults and simulation faults are kept apart so that a caller
//! can react to each kind differently.

use vstd::prelude::*;

verus! {

#[derive(Debug, Clone)]
pub enum EngineError {
    /// Invalid static setup, such as a non-positive indicator period.
    ConfigError(String),
    /// The source could not be read as a structured table at all.
    CsvSystemError(String),
    /// The source could not be opened or read.
    IoError(String),
    /// One field failed decimal, date or time parsing, or a mandatory
    /// column was absent from a record.
    CsvDataFormatError(String),
    /// A query referenced a series that does not exist.
    MarketDataError(String),
    /// An indicator could not be computed.
    IndicatorError(String),
    /// A trade could not be simulated.
    SimulationError(String),
    /// Any other internal processing fault.
    ProcessingError(String),
}

impl EngineError {
    /// The human-readable rendering of the error, category prefix included.
    pub open spec fn message_spec(self) -> Seq<char> {
        match self {
            EngineError::ConfigError(m) => "Configuration error: "@ + m@,
            EngineError::CsvSystemError(m) => "CSV parsing system error: "@ + m@,
            EngineError::IoError(m) => "I/O error: "@ + m@,
            EngineError::CsvDataFormatError(m) => "CSV data format error: "@ + m@,
            EngineError::MarketDataError(m) => "Market data store error: "@ + m@,
            EngineError::IndicatorError(m) => "Indicator calculation error: "@ + m@,
            EngineError::SimulationError(m) => "Trade simulation error: "@ + m@,
            EngineError::ProcessingError(m) => "Internal processing error: "@ + m@,
        }
    }

    /// The detail string alone, without the category prefix.
    pub open spec fn detail_spec(self) -> Seq<char> {
        match self {
            EngineError::ConfigError(m) => m@,
            EngineError::CsvSystemError(m) => m@,
            EngineError::IoError(m) => m@,
            EngineError::CsvDataFormatError(m) => m@,
            EngineError::MarketDataError(m) => m@,
            EngineError::IndicatorError(m) => m@,
            EngineError::SimulationError(m) => m@,
            EngineError::ProcessingError(m) => m@,
        }
    }

    /// Renders the error with its category prefix.
    pub fn message(&self) -> (r: String)
        ensures
            r@ == self.message_spec(),
    {
        match self {
            EngineError::ConfigError(m) => {
                let mut s = String::from_str("Configuration error: ");
                s.append(m.as_str());
                s
            },
            EngineError::CsvSystemError(m) => {
                let mut s = String::from_str("CSV parsing system error: ");
                s.append(m.as_str());
                s
            },
            EngineError::IoError(m) => {
                let mut s = String::from_str("I/O error: ");
                s.append(m.as_str());
                s
            },
            EngineError::CsvDataFormatError(m) => {
                let mut s = String::from_str("CSV data format error: ");
                s.append(m.as_str());
                s
            },
            EngineError::MarketDataError(m) => {
                let mut s = String::from_str("Market data store error: ");
                s.append(m.as_str());
                s
            },
            EngineError::IndicatorError(m) => {
                let mut s = String::from_str("Indicator calculation error: ");
                s.append(m.as_str());
                s
            },
            EngineError::SimulationError(m) => {
                let mut s = String::from_str("Trade simulation error: ");
                s.append(m.as_str());
                s
            },
            EngineError::ProcessingError(m) => {
                let mut s = String::from_str("Internal processing error: ");
                s.append(m.as_str());
                s
            },
        }
    }
}

} // verus!

use vstd::prelude::*;

verus! {

/// Why a scan did not produce a result. Every kind ends the scan that met it.
#[derive(Debug)]
pub enum ToolError {
    /// The pattern's size breaks the pattern's rule; nothing else was done.
    InvalidSizeError,
    /// The pattern covers no cell of the world around the agent.
    EmptyCoordinates,
    /// The agent's energy did not cover the disclosure.
    NotEnoughEnergy,
    /// The map service allows no further disclosures.
    NoMoreDiscovery,
    /// Any other failure, with its description.
    Other(String),
}

/// The text that describes an error.
pub open spec fn error_message(e: ToolError) -> Seq<char> {
    match e {
        ToolError::InvalidSizeError => "Invalid Size"@,
        ToolError::EmptyCoordinates => "Empty Coordinates"@,
        ToolError::NotEnoughEnergy => "Not Enough Energy"@,
        ToolError::NoMoreDiscovery => "No More Discovery"@,
        ToolError::Other(message) => message@,
    }
}

impl ToolError {
    /// The description of the error: a fixed text for each kind, and the
    /// carried description for `Other`.
    pub fn to_string(&self) -> (r: String)
        ensures
            r@ == error_message(*self),
    {
        match self {
            ToolError::InvalidSizeError => String::from_str("Invalid Size"),
            ToolError::EmptyCoordinates => String::from_str("Empty Coordinates"),
            ToolError::NotEnoughEnergy => String::from_str("Not Enough Energy"),
            ToolError::NoMoreDiscovery => String::from_str("No More Discovery"),
            ToolError::Other(message) => message.clone(),
        }
    }
}

} // verus!

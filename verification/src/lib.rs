//! monban — a gate that enforces, by machine, the contract made with an agent:
//! no completion claim passes without the evidence the contract names.

pub mod claim;
pub mod contract;
pub mod gate;
pub mod jsondoc;
pub mod mcp;
pub mod otel;
pub mod text;
pub mod tomldoc;
pub mod workspace;

use vstd::prelude::*;

verus! {

/// The actor name under which monban writes to the ledger. It can never declare.
pub const GATE_ACTOR: &'static str = "agent:monban";

/// What can go wrong in monban's core.
#[derive(Debug, Clone)]
pub enum MonbanError {
    /// The contract file could not be read (the reader's message).
    Io(String),
    /// The contract file is not TOML (the parser's message).
    Parse(String),
    /// The contract breaks a rule of its format.
    Invalid(String),
    /// No seki of that name.
    SekiNotFound(String),
}

impl MonbanError {
    /// The words each kind of error is reported with.
    pub open spec fn message_spec(&self) -> Seq<char> {
        match self {
            MonbanError::Io(m) => "契約を読めない: "@ + m@,
            MonbanError::Parse(m) => "契約の解析に失敗: "@ + m@,
            MonbanError::Invalid(m) => "契約違反: "@ + m@,
            MonbanError::SekiNotFound(m) => "関が見つからない: "@ + m@,
        }
    }

    /// The error as one line of text.
    pub fn message(&self) -> (res: String)
        ensures
            res@ == self.message_spec(),
    {
        match self {
            MonbanError::Io(m) => crate::text::join2("契約を読めない: ", m.as_str()),
            MonbanError::Parse(m) => crate::text::join2("契約の解析に失敗: ", m.as_str()),
            MonbanError::Invalid(m) => crate::text::join2("契約違反: ", m.as_str()),
            MonbanError::SekiNotFound(m) => crate::text::join2("関が見つからない: ", m.as_str()),
        }
    }
}

} // verus!

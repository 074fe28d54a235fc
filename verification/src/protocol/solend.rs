//! Solend.
//!
//! Registered for the dashboard; its parsers wait for the byte offsets of
//! live Reserve and Obligation accounts to be verified. Solend's account
//! model is closer to Kamino's (Reserves + Obligations) but its fraction
//! representation differs and its oracles are Pyth and Switchboard, as
//! MarginFi's are.

use crate::anchor::anchor_disc;
use crate::base58::{address_of, parse_pubkey};
use crate::bytes::LayoutError;
use crate::protocol::{
    BankBook, BankReading, ImplStatus, LendingProtocol, PositionReading,
};
use crate::pubkey::Pubkey;
use crate::types::{BankConfig, RawPosition};
use vstd::prelude::*;

verus! {

/// The Solend program.
#[derive(Clone, Copy, PartialEq, Eq, Structural, Debug)]
pub struct Solend {
    pub program_id: Pubkey,
}

impl Solend {
    /// The program at its address, where the address can be read.
    pub fn new() -> (out: Option<Solend>)
        ensures
            out == match address_of("So1endDq2YkqhipRh3WViPa8hdiSpxWy6z3Z6tMCpAo"@) {
                Some(program_id) => Some(Solend { program_id }),
                None => None,
            },
    {
        match parse_pubkey("So1endDq2YkqhipRh3WViPa8hdiSpxWy6z3Z6tMCpAo") {
            Some(program_id) => Some(Solend { program_id }),
            None => None,
        }
    }
}

impl LendingProtocol for Solend {
    open spec fn label(&self) -> Seq<char> {
        "solend"@
    }

    open spec fn readiness(&self) -> ImplStatus {
        ImplStatus::Pending
    }

    open spec fn bank_type(&self) -> Seq<char> {
        "Reserve"@
    }

    open spec fn position_type(&self) -> Seq<char> {
        "Obligation"@
    }

    open spec fn reads_positions(&self, markets: Map<u16, Pubkey>) -> bool {
        false
    }

    open spec fn bank_of(&self, address: Pubkey, data: Seq<u8>) -> BankReading {
        Err(LayoutError::Unverified)
    }

    open spec fn position_of(
        &self,
        address: Pubkey,
        data: Seq<u8>,
        banks: Map<Pubkey, BankConfig>,
        markets: Map<u16, Pubkey>,
    ) -> PositionReading {
        Err(LayoutError::Unverified)
    }

    fn name(&self) -> &'static str {
        "solend"
    }

    fn status(&self) -> ImplStatus {
        ImplStatus::Pending
    }

    fn bank_disc(&self) -> [u8; 8] {
        anchor_disc("Reserve")
    }

    fn position_disc(&self) -> [u8; 8] {
        anchor_disc("Obligation")
    }

    fn wants_positions(&self, book: &BankBook) -> bool {
        false
    }

    fn read_bank(&self, address: &Pubkey, data: &[u8]) -> BankReading {
        Err(LayoutError::Unverified)
    }

    fn read_position(&self, address: &Pubkey, data: &[u8], book: &BankBook) -> Result<
        Option<RawPosition>,
        LayoutError,
    > {
        Err(LayoutError::Unverified)
    }
}

} // verus!

//! Decisions of a liquidation scanner for Solana lending protocols.
//!
//! The accounts of lending protocols and of price oracles are read from their
//! bytes ([`protocol`], [`oracle`]), positions are priced and judged
//! ([`pricing`], [`health`], [`scanner`]), prices that do not agree are found
//! ([`divergence`]), liquidations are decided on and written down
//! ([`liquidator`]), and what a dashboard shows of all this is settled
//! ([`tui`], [`view`]).

pub mod anchor;
pub mod base58;
pub mod bytes;
pub mod config;
pub mod divergence;
pub mod double;
pub mod health;
pub mod keymap;
pub mod liquidator;
pub mod oracle;
pub mod pricing;
pub mod protocol;
pub mod pubkey;
pub mod ranking;
pub mod rpc;
pub mod scanner;
pub mod tally;
pub mod text;
pub mod tui;
pub mod types;
pub mod view;

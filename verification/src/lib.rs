//! ucp: a copy tool in the spirit of scp that moves file bytes over UDT, with
//! the rcp wire protocol and an authenticated-encryption framing layer.

pub mod agreement;
pub mod cli;
pub mod crypto;
pub mod frames;
pub mod numeral;
pub mod rcp;
pub mod text;
pub mod transfer;

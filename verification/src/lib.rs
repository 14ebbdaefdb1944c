//! LIMA: wire formats, frame parsing and decryption, and the state logic of the
//! gateway and client consoles, with their contracts.

pub mod adv;
pub mod crypto;
pub mod display;
pub mod frames;
pub mod gateway;
pub mod hciconfig;
pub mod psk;
pub mod text;
pub mod wire;

//! A runtime for Starstream contracts: WebAssembly components whose exported
//! `utxo` resources are minted, driven through their ABI methods and saved as
//! `storage` records.

pub mod builtin;
pub mod cardano;
pub mod cause;
pub mod codec;
pub mod contract;
pub mod decode;
pub mod discovery;
pub mod error;
pub mod host;
pub mod http;
pub mod json;
pub mod link;
pub mod linker;
pub mod log;
pub mod messages;
pub mod platform;
pub mod reflect;
pub mod roundtrip;
pub mod running;
pub mod serve;
pub mod session;
pub mod text;
pub mod types;
pub mod utxo;
pub mod val;
pub mod value;
pub mod wave;
pub mod wire;
pub mod wit;

//! Core of the mflash v4 flashcard format: the deck model, its `deck.pb`
//! wire encoding, the rows it is stored as in a workspace database, and the
//! decisions taken while packing, unpacking and optimising a workspace.
use vstd::prelude::*;

pub mod codec;
pub mod db;
pub mod importer;
pub mod optimizer;
pub mod pb;
pub mod roundtrip;
pub mod schema;
pub mod varint;
pub mod wire;
pub mod workspace;

//! Reading and writing the `deck.pb` file of a workspace.
use vstd::prelude::*;
use crate::pb::Deck;
use crate::codec::{decode_deck, encode_deck, decode_deck_bytes, deck_bytes};

verus! {

/// Name of the deck file inside a workspace directory.
pub const DECK_FILE: &'static str = "deck.pb";

/// Why a workspace's deck could not be read.
#[derive(Debug, Clone, Copy, PartialEq, Eq)]
pub enum SchemaError {
    /// The workspace holds no `deck.pb`: it is not a valid v4 deck.
    MissingDeckFile,
    /// `deck.pb` is not the encoding of a deck.
    InvalidDeck,
}

/// The deck of a workspace, given the contents of its `deck.pb` file, or
/// `None` where the workspace has no such file.
pub fn read_deck(contents: Option<&[u8]>) -> (res: Result<Deck, SchemaError>)
    ensures
        match contents {
            None => res == Err::<Deck, SchemaError>(SchemaError::MissingDeckFile),
            Some(bytes) => match decode_deck_bytes(bytes@) {
                Some(d) => res matches Ok(deck) && deck@ == d,
                None => res == Err::<Deck, SchemaError>(SchemaError::InvalidDeck),
            },
        },
{
    match contents {
        None => Err(SchemaError::MissingDeckFile),
        Some(bytes) => match decode_deck(bytes) {
            Ok(deck) => Ok(deck),
            Err(_) => Err(SchemaError::InvalidDeck),
        },
    }
}

/// The contents of the `deck.pb` file that holds `deck`; reading them back
/// gives the same deck.
pub fn write_deck(deck: &Deck) -> (res: Vec<u8>)
    ensures
        res@ == deck_bytes(deck@),
        decode_deck_bytes(res@) == Some(deck@),
{
    encode_deck(deck)
}

} // verus!

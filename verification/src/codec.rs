//! The `deck.pb` encoding of a deck, as the protobuf message
//!
//! ```text
//! message Card { string id = 1; CardKind kind = 2; optional string term = 3;
//!                optional string definition = 4; optional string prompt = 5;
//!                optional string answer = 6; }
//! message Deck { string id = 1; string title = 2; uint32 version = 3;
//!                optional string default_term_lang = 4;
//!                optional string default_def_lang = 5; string format = 6;
//!                repeated Card cards = 7; }
//! ```
//!
//! Encoding writes the fields in field-number order and leaves out plain
//! fields at their default; decoding accepts fields in any order, keeps the
//! last value of a repeated scalar, and skips fields it does not know.
use vstd::prelude::*;
use crate::pb::{Card, CardView, Deck, DeckView, empty_card, empty_deck, card_views, opt_text};
use crate::varint::{varint_bytes, varint_decode, two_pow_64, lemma_varint_decode_u64, read_varint, write_varint};
use crate::wire::{key_bytes, parse_key, parse_string, string_field_bytes, skip_field, lemma_skip_bounds, read_key, read_string, write_key, write_string_field, skip_value, skip_top_level_field, prost_skip_rest, WIRE_LEN, WIRE_VARINT};

verus! {

/// How many levels of nesting decoding may enter, counting the deck itself.
pub const RECURSION_LIMIT: u32 = 100;

/// A text field, left out when the text is empty.
pub open spec fn text_field(tag: nat, text: Seq<char>) -> Seq<u8> {
    if text.len() == 0 {
        Seq::empty()
    } else {
        string_field_bytes(tag, text)
    }
}

/// An optional text field, written whenever it is present.
pub open spec fn optional_text_field(tag: nat, text: Option<Seq<char>>) -> Seq<u8> {
    match text {
        Some(t) => string_field_bytes(tag, t),
        None => Seq::empty(),
    }
}

/// A varint field, left out when the value is zero.
pub open spec fn varint_field(tag: nat, value: nat) -> Seq<u8> {
    if value == 0 {
        Seq::empty()
    } else {
        key_bytes(tag, 0) + varint_bytes(value)
    }
}

/// The varint that carries a card kind: its two's complement on 64 bits.
pub open spec fn kind_wire_value(kind: i32) -> nat {
    (kind as u64) as nat
}

/// The encoding of a card.
pub open spec fn card_bytes(c: CardView) -> Seq<u8> {
    text_field(1, c.id) + varint_field(2, kind_wire_value(c.kind)) + optional_text_field(3, c.term)
        + optional_text_field(4, c.definition) + optional_text_field(5, c.prompt)
        + optional_text_field(6, c.answer)
}

/// A card as a length-delimited entry of the deck's card field.
pub open spec fn card_entry_bytes(c: CardView) -> Seq<u8> {
    key_bytes(7, 2) + varint_bytes(card_bytes(c).len()) + card_bytes(c)
}

/// The entries of a sequence of cards, in order.
pub open spec fn cards_bytes(cs: Seq<CardView>) -> Seq<u8>
    decreases cs.len(),
{
    if cs.len() == 0 {
        Seq::empty()
    } else {
        card_entry_bytes(cs[0]) + cards_bytes(cs.drop_first())
    }
}

/// The encoding of a deck: the contents of a `deck.pb` file.
pub open spec fn deck_bytes(d: DeckView) -> Seq<u8> {
    text_field(1, d.id) + text_field(2, d.title) + varint_field(3, d.version as nat)
        + optional_text_field(4, d.default_term_lang) + optional_text_field(5, d.default_def_lang)
        + text_field(6, d.format) + cards_bytes(d.cards)
}

/// Decoding of one card field, given its number and wire type, from the
/// bytes after its key: the updated card and the bytes the value takes.
pub open spec fn merge_card_field(tag: nat, wire_type: nat, s: Seq<u8>, c: CardView, budget: nat) -> Option<
    (CardView, nat),
> {
    if tag == 1 {
        match parse_string(wire_type, s) {
            Some((t, n)) => Some((CardView { id: t, ..c }, n)),
            None => None,
        }
    } else if tag == 2 {
        if wire_type != 0 {
            None
        } else {
            match varint_decode(s) {
                Some((v, n)) => Some((CardView { kind: (v as u64) as i32, ..c }, n)),
                None => None,
            }
        }
    } else if tag == 3 {
        match parse_string(wire_type, s) {
            Some((t, n)) => Some((CardView { term: Some(t), ..c }, n)),
            None => None,
        }
    } else if tag == 4 {
        match parse_string(wire_type, s) {
            Some((t, n)) => Some((CardView { definition: Some(t), ..c }, n)),
            None => None,
        }
    } else if tag == 5 {
        match parse_string(wire_type, s) {
            Some((t, n)) => Some((CardView { prompt: Some(t), ..c }, n)),
            None => None,
        }
    } else if tag == 6 {
        match parse_string(wire_type, s) {
            Some((t, n)) => Some((CardView { answer: Some(t), ..c }, n)),
            None => None,
        }
    } else {
        match skip_field(wire_type, tag, s, budget) {
            Some(n) => Some((c, n)),
            None => None,
        }
    }
}

/// What `merge_card_field` reads lies within its input.
pub proof fn lemma_merge_card_field_bound(tag: nat, wire_type: nat, s: Seq<u8>, c: CardView, budget: nat)
    ensures
        merge_card_field(tag, wire_type, s, c, budget) matches Some((_, n)) ==> n <= s.len(),
{
    lemma_varint_decode_u64(s);
    lemma_skip_bounds(wire_type, tag, s, budget);
}

/// Decoding of card fields from the front of `s` until `limit` bytes remain,
/// starting from card `c`. `None` where a field is malformed or the last field
/// runs past the limit.
pub open spec fn card_fields(s: Seq<u8>, limit: nat, c: CardView, budget: nat) -> Option<CardView>
    decreases s.len(),
{
    if s.len() > limit {
        match parse_key(s) {
            None => None,
            Some((t, w, n)) => {
                proof {
                    lemma_varint_decode_u64(s);
                }
                match merge_card_field(t, w, s.skip(n as int), c, budget) {
                    None => None,
                    Some((c2, m)) => {
                        proof {
                            lemma_merge_card_field_bound(t, w, s.skip(n as int), c, budget);
                        }
                        card_fields(s.skip((n + m) as int), limit, c2, budget)
                    },
                }
            },
        }
    } else if s.len() == limit {
        Some(c)
    } else {
        None
    }
}

/// Decoding of a card entry's value (what follows its key) at the front of
/// `s`: the card and the bytes it takes. `budget` is the nesting the deck may
/// still enter.
pub open spec fn card_message(wire_type: nat, s: Seq<u8>, budget: nat) -> Option<(CardView, nat)> {
    if wire_type != 2 || budget == 0 {
        None
    } else {
        match varint_decode(s) {
            None => None,
            Some((len, n)) => if len > s.len() - n {
                None
            } else {
                match card_fields(s.skip(n as int), (s.len() - n - len) as nat, empty_card(), (budget - 1) as nat) {
                    Some(c) => Some((c, n + len)),
                    None => None,
                }
            },
        }
    }
}

/// Decoding of one deck field from the bytes after its key. A field the deck
/// does not know is skipped as prost skips it for a message decoded at the
/// top.
pub open spec fn merge_deck_field(tag: nat, wire_type: nat, s: Seq<u8>, d: DeckView) -> Option<(DeckView, nat)> {
    if tag == 1 {
        match parse_string(wire_type, s) {
            Some((t, n)) => Some((DeckView { id: t, ..d }, n)),
            None => None,
        }
    } else if tag == 2 {
        match parse_string(wire_type, s) {
            Some((t, n)) => Some((DeckView { title: t, ..d }, n)),
            None => None,
        }
    } else if tag == 3 {
        if wire_type != 0 {
            None
        } else {
            match varint_decode(s) {
                Some((v, n)) => Some((DeckView { version: (v as u64) as u32, ..d }, n)),
                None => None,
            }
        }
    } else if tag == 4 {
        match parse_string(wire_type, s) {
            Some((t, n)) => Some((DeckView { default_term_lang: Some(t), ..d }, n)),
            None => None,
        }
    } else if tag == 5 {
        match parse_string(wire_type, s) {
            Some((t, n)) => Some((DeckView { default_def_lang: Some(t), ..d }, n)),
            None => None,
        }
    } else if tag == 6 {
        match parse_string(wire_type, s) {
            Some((t, n)) => Some((DeckView { format: t, ..d }, n)),
            None => None,
        }
    } else if tag == 7 {
        match card_message(wire_type, s, RECURSION_LIMIT as nat) {
            Some((c, n)) => Some((DeckView { cards: d.cards.push(c), ..d }, n)),
            None => None,
        }
    } else {
        match prost_skip_rest(wire_type, tag, s) {
            Some(r) => if r <= s.len() {
                Some((d, (s.len() - r) as nat))
            } else {
                None
            },
            None => None,
        }
    }
}

/// What `card_message` and `merge_deck_field` read lies within their input.
pub proof fn lemma_merge_deck_field_bound(tag: nat, wire_type: nat, s: Seq<u8>, d: DeckView)
    ensures
        card_message(wire_type, s, RECURSION_LIMIT as nat) matches Some((_, n)) ==> n <= s.len(),
        merge_deck_field(tag, wire_type, s, d) matches Some((_, n)) ==> n <= s.len(),
{
    lemma_varint_decode_u64(s);
}

/// Decoding of deck fields from the front of `s` to its end, starting from
/// deck `d`.
pub open spec fn deck_fields(s: Seq<u8>, d: DeckView) -> Option<DeckView>
    decreases s.len(),
{
    if s.len() == 0 {
        Some(d)
    } else {
        match parse_key(s) {
            None => None,
            Some((t, w, n)) => {
                proof {
                    lemma_varint_decode_u64(s);
                }
                match merge_deck_field(t, w, s.skip(n as int), d) {
                    None => None,
                    Some((d2, m)) => {
                        proof {
                            lemma_merge_deck_field_bound(t, w, s.skip(n as int), d);
                        }
                        deck_fields(s.skip((n + m) as int), d2)
                    },
                }
            },
        }
    }
}

/// The deck that the bytes of a `deck.pb` file hold, if they are a valid
/// encoding of one.
pub open spec fn decode_deck_bytes(s: Seq<u8>) -> Option<DeckView> {
    deck_fields(s, empty_deck())
}

/// The bytes are not the encoding of a deck.
#[derive(Debug, Clone, Copy, PartialEq, Eq)]
pub struct MalformedDeck;

/// Decodes the value of card field `tag` from the front of `s` into `card`.
fn merge_card_value(tag: u32, wire_type: u8, s: &[u8], card: &mut Card, budget: u32) -> (res: Option<usize>)
    ensures
        match merge_card_field(tag as nat, wire_type as nat, s@, old(card)@, budget as nat) {
            Some((c, n)) => res == Some(n as usize) && final(card)@ == c && n <= s@.len(),
            None => res is None,
        },
{
    proof {
        lemma_merge_card_field_bound(tag as nat, wire_type as nat, s@, card@, budget as nat);
    }
    if tag == 1 {
        match read_string(wire_type, s) {
            Some((t, n)) => {
                card.id = t;
                Some(n)
            },
            None => None,
        }
    } else if tag == 2 {
        if wire_type != WIRE_VARINT {
            None
        } else {
            match read_varint(s) {
                Some((v, n)) => {
                    card.kind = v as i32;
                    Some(n)
                },
                None => None,
            }
        }
    } else if tag == 3 {
        match read_string(wire_type, s) {
            Some((t, n)) => {
                card.term = Some(t);
                Some(n)
            },
            None => None,
        }
    } else if tag == 4 {
        match read_string(wire_type, s) {
            Some((t, n)) => {
                card.definition = Some(t);
                Some(n)
            },
            None => None,
        }
    } else if tag == 5 {
        match read_string(wire_type, s) {
            Some((t, n)) => {
                card.prompt = Some(t);
                Some(n)
            },
            None => None,
        }
    } else if tag == 6 {
        match read_string(wire_type, s) {
            Some((t, n)) => {
                card.answer = Some(t);
                Some(n)
            },
            None => None,
        }
    } else {
        skip_value(wire_type, tag, s, budget)
    }
}

/// Decodes a card entry's value from the front of `s`: the card and the
/// number of bytes it takes.
fn read_card_message(wire_type: u8, s: &[u8], budget: u32) -> (res: Option<(Card, usize)>)
    ensures
        match card_message(wire_type as nat, s@, budget as nat) {
            Some((c, n)) => res matches Some((card, m)) && card@ == c && m == n && n <= s@.len(),
            None => res is None,
        },
{
    if wire_type != WIRE_LEN || budget == 0 {
        return None;
    }
    let (len, n) = match read_varint(s) {
        Some(r) => r,
        None => {
            return None;
        },
    };
    if len > (s.len() - n) as u64 {
        return None;
    }
    let len = len as usize;
    let limit = s.len() - n - len;
    let inner = budget - 1;
    let mut card = Card::new();
    let mut pos = n;
    assert(s@.skip(n as int) =~= s@.skip(pos as int));
    assert(card_message(wire_type as nat, s@, budget as nat) == match card_fields(
        s@.skip(n as int),
        limit as nat,
        empty_card(),
        inner as nat,
    ) {
        Some(c) => Some((c, (n + len) as nat)),
        None => None,
    });
    loop
        invariant
            n <= pos <= s@.len(),
            limit == s@.len() - n - len,
            card_message(wire_type as nat, s@, budget as nat) == match card_fields(
                s@.skip(n as int),
                limit as nat,
                empty_card(),
                inner as nat,
            ) {
                Some(c) => Some((c, (n + len) as nat)),
                None => None,
            },
            card_fields(s@.skip(n as int), limit as nat, empty_card(), inner as nat) == card_fields(
                s@.skip(pos as int),
                limit as nat,
                card@,
                inner as nat,
            ),
        decreases s@.len() - pos,
    {
        if s.len() - pos > limit {
            let rest = vstd::slice::slice_subrange(s, pos, s.len());
            let (t, w, k) = match read_key(rest) {
                Some(r) => r,
                None => {
                    return None;
                },
            };
            let after = vstd::slice::slice_subrange(rest, k, rest.len());
            match merge_card_value(t, w, after, &mut card, inner) {
                Some(m) => {
                    assert(rest@.skip((k + m) as int) =~= s@.skip((pos + k + m) as int));
                    pos = pos + k + m;
                },
                None => {
                    return None;
                },
            }
        } else if s.len() - pos == limit {
            return Some((card, n + len));
        } else {
            return None;
        }
    }
}

/// Decodes the value of deck field `tag` from the front of `s` into `deck`.
fn merge_deck_value(tag: u32, wire_type: u8, s: &[u8], deck: &mut Deck) -> (res: Option<usize>)
    ensures
        match merge_deck_field(tag as nat, wire_type as nat, s@, old(deck)@) {
            Some((d, n)) => res == Some(n as usize) && final(deck)@ == d && n <= s@.len(),
            None => res is None,
        },
{
    proof {
        lemma_merge_deck_field_bound(tag as nat, wire_type as nat, s@, deck@);
    }
    if tag == 1 {
        match read_string(wire_type, s) {
            Some((t, n)) => {
                deck.id = t;
                Some(n)
            },
            None => None,
        }
    } else if tag == 2 {
        match read_string(wire_type, s) {
            Some((t, n)) => {
                deck.title = t;
                Some(n)
            },
            None => None,
        }
    } else if tag == 3 {
        if wire_type != WIRE_VARINT {
            None
        } else {
            match read_varint(s) {
                Some((v, n)) => {
                    deck.version = v as u32;
                    Some(n)
                },
                None => None,
            }
        }
    } else if tag == 4 {
        match read_string(wire_type, s) {
            Some((t, n)) => {
                deck.default_term_lang = Some(t);
                Some(n)
            },
            None => None,
        }
    } else if tag == 5 {
        match read_string(wire_type, s) {
            Some((t, n)) => {
                deck.default_def_lang = Some(t);
                Some(n)
            },
            None => None,
        }
    } else if tag == 6 {
        match read_string(wire_type, s) {
            Some((t, n)) => {
                deck.format = t;
                Some(n)
            },
            None => None,
        }
    } else if tag == 7 {
        match read_card_message(wire_type, s, RECURSION_LIMIT) {
            Some((card, n)) => {
                let ghost before = deck.cards@;
                deck.cards.push(card);
                assert(card_views(deck.cards@) =~= card_views(before).push(card@));
                Some(n)
            },
            None => None,
        }
    } else {
        match skip_top_level_field(wire_type, tag, s) {
            Some(rest) => Some(s.len() - rest),
            None => None,
        }
    }
}

/// Decodes the contents of a `deck.pb` file.
pub fn decode_deck(bytes: &[u8]) -> (res: Result<Deck, MalformedDeck>)
    ensures
        match decode_deck_bytes(bytes@) {
            Some(d) => res matches Ok(deck) && deck@ == d,
            None => res is Err,
        },
{
    let mut deck = Deck::new();
    let mut pos: usize = 0;
    assert(bytes@.skip(0) =~= bytes@);
    while pos < bytes.len()
        invariant
            pos <= bytes@.len(),
            decode_deck_bytes(bytes@) == deck_fields(bytes@.skip(pos as int), deck@),
        decreases bytes@.len() - pos,
    {
        let rest = vstd::slice::slice_subrange(bytes, pos, bytes.len());
        let (t, w, k) = match read_key(rest) {
            Some(r) => r,
            None => {
                return Err(MalformedDeck);
            },
        };
        let after = vstd::slice::slice_subrange(rest, k, rest.len());
        match merge_deck_value(t, w, after, &mut deck) {
            Some(m) => {
                assert(rest@.skip((k + m) as int) =~= bytes@.skip((pos + k + m) as int));
                pos = pos + k + m;
            },
            None => {
                return Err(MalformedDeck);
            },
        }
    }
    Ok(deck)
}

/// Appending a card appends its entry to the encoding of the cards.
pub proof fn lemma_cards_bytes_push(cs: Seq<CardView>, c: CardView)
    ensures
        cards_bytes(cs.push(c)) == cards_bytes(cs) + card_entry_bytes(c),
    decreases cs.len(),
{
    let e = card_entry_bytes(c);
    let p = cs.push(c);
    if cs.len() == 0 {
        assert(p.drop_first() =~= Seq::<CardView>::empty());
        assert(cards_bytes(p.drop_first()) == Seq::<u8>::empty());
        assert(p[0] == c);
        assert(cards_bytes(p) == e + Seq::<u8>::empty());
        assert(e + Seq::<u8>::empty() =~= e);
        assert(cards_bytes(cs) == Seq::<u8>::empty());
        assert(Seq::<u8>::empty() + e =~= e);
    } else {
        let t = cs.drop_first();
        lemma_cards_bytes_push(t, c);
        assert(p.drop_first() =~= t.push(c));
        assert(p[0] == cs[0]);
        assert(cards_bytes(p) == card_entry_bytes(cs[0]) + (cards_bytes(t) + e));
        vstd::seq_lib::lemma_concat_associative(card_entry_bytes(cs[0]), cards_bytes(t), e);
    }
}

/// Appends the text field `tag` unless `text` is empty.
fn write_text_field(tag: u32, text: &String, out: &mut Vec<u8>)
    requires
        1 <= tag <= crate::wire::MAX_TAG,
    ensures
        final(out)@ == old(out)@ + text_field(tag as nat, text@),
{
    if text.as_str().is_empty() {
        assert(out@ =~= out@ + Seq::<u8>::empty());
    } else {
        write_string_field(tag, text.as_str(), out);
    }
}

/// Appends the optional text field `tag` when it is present.
fn write_optional_text_field(tag: u32, text: &Option<String>, out: &mut Vec<u8>)
    requires
        1 <= tag <= crate::wire::MAX_TAG,
    ensures
        final(out)@ == old(out)@ + optional_text_field(tag as nat, opt_text(*text)),
{
    match text {
        Some(t) => write_string_field(tag, t.as_str(), out),
        None => {
            assert(out@ =~= out@ + Seq::<u8>::empty());
        },
    }
}

/// Appends the varint field `tag` unless `value` is zero.
fn write_varint_field(tag: u32, value: u64, out: &mut Vec<u8>)
    requires
        1 <= tag <= crate::wire::MAX_TAG,
    ensures
        final(out)@ == old(out)@ + varint_field(tag as nat, value as nat),
{
    if value == 0 {
        assert(out@ =~= out@ + Seq::<u8>::empty());
    } else {
        let ghost before = out@;
        write_key(tag, WIRE_VARINT, out);
        write_varint(value, out);
        assert(out@ =~= before + (key_bytes(tag as nat, 0) + varint_bytes(value as nat)));
    }
}

/// Appends the encoding of `card` to `out`.
pub fn encode_card(card: &Card, out: &mut Vec<u8>)
    ensures
        final(out)@ == old(out)@ + card_bytes(card@),
{
    let ghost before = out@;
    write_text_field(1, &card.id, out);
    write_varint_field(2, card.kind as u64, out);
    write_optional_text_field(3, &card.term, out);
    write_optional_text_field(4, &card.definition, out);
    write_optional_text_field(5, &card.prompt, out);
    write_optional_text_field(6, &card.answer, out);
    assert(out@ =~= before + card_bytes(card@));
}

/// Encodes `deck` as the contents of a `deck.pb` file.
pub fn encode_deck(deck: &Deck) -> (res: Vec<u8>)
    ensures
        res@ == deck_bytes(deck@),
        decode_deck_bytes(res@) == Some(deck@),
{
    let mut out: Vec<u8> = Vec::new();
    write_text_field(1, &deck.id, &mut out);
    write_text_field(2, &deck.title, &mut out);
    write_varint_field(3, deck.version as u64, &mut out);
    write_optional_text_field(4, &deck.default_term_lang, &mut out);
    write_optional_text_field(5, &deck.default_def_lang, &mut out);
    write_text_field(6, &deck.format, &mut out);
    let ghost head = out@;
    let ghost cards = card_views(deck.cards@);
    assert(cards.take(0) =~= Seq::<CardView>::empty());
    let n = deck.cards.len();
    let mut i: usize = 0;
    while i < n
        invariant
            i <= n,
            n == deck.cards@.len(),
            cards == card_views(deck.cards@),
            out@ == head + cards_bytes(cards.take(i as int)),
        decreases n - i,
    {
        let mut body: Vec<u8> = Vec::new();
        encode_card(&deck.cards[i], &mut body);
        assert(body@ =~= card_bytes(cards[i as int]));
        let ghost mid = out@;
        write_key(7, WIRE_LEN, &mut out);
        write_varint(body.len() as u64, &mut out);
        out.append(&mut body);
        proof {
            lemma_cards_bytes_push(cards.take(i as int), cards[i as int]);
            assert(cards.take(i + 1) =~= cards.take(i as int).push(cards[i as int]));
        }
        assert(out@ =~= head + cards_bytes(cards.take(i + 1)));
        i = i + 1;
    }
    assert(cards.take(n as int) =~= cards);
    assert(out@ =~= deck_bytes(deck@));
    let total = out.len();
    assert(total < two_pow_64());
    proof {
        crate::roundtrip::lemma_deck_roundtrip(deck@);
    }
    out
}

} // verus!

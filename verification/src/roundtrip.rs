//! What decoding gives back of an encoding: a deck written to `deck.pb` is
//! read back unchanged.
use vstd::prelude::*;
use vstd::utf8::*;
use crate::pb::{CardView, DeckView, empty_card, empty_deck};
use crate::varint::{varint_bytes, varint_decode, two_pow_64, lemma_varint_roundtrip_nat};
use crate::wire::{key_bytes, parse_key, parse_delimited, parse_string, string_field_bytes, skip_field};
use crate::codec::{
    text_field, optional_text_field, varint_field, kind_wire_value, card_bytes, card_entry_bytes,
    cards_bytes, deck_bytes, merge_card_field, card_fields, card_message, merge_deck_field,
    deck_fields, decode_deck_bytes,
};

verus! {

/// Regrouping a concatenation of seven pieces to the right.
pub proof fn lemma_concat7<A>(a: Seq<A>, b: Seq<A>, c: Seq<A>, d: Seq<A>, e: Seq<A>, f: Seq<A>, g: Seq<A>)
    ensures
        (((((a + b) + c) + d) + e) + f) + g == a + (b + (c + (d + (e + (f + g))))),
        (a + b + c + d + e + f + g).len() == a.len() + b.len() + c.len() + d.len() + e.len() + f.len() + g.len(),
{
    assert((((((a + b) + c) + d) + e) + f) + g =~= a + (b + (c + (d + (e + (f + g))))));
}

/// A key decodes to the field number and wire type it was made of.
pub proof fn lemma_key_roundtrip(tag: nat, wire_type: nat, rest: Seq<u8>)
    requires
        1 <= tag <= 0x1fff_ffff,
        wire_type <= 5,
    ensures
        parse_key(key_bytes(tag, wire_type) + rest) == Some((tag, wire_type, key_bytes(tag, wire_type).len())),
        1 <= key_bytes(tag, wire_type).len(),
{
    let k = tag * 8 + wire_type;
    assert(k / 8 == tag && k % 8 == wire_type) by (nonlinear_arith)
        requires
            k == tag * 8 + wire_type,
            wire_type < 8,
    ;
    lemma_varint_roundtrip_nat(k, rest);
}

/// A string field decodes to its text and takes exactly its bytes.
pub proof fn lemma_string_field_roundtrip(tag: nat, text: Seq<char>, rest: Seq<u8>)
    requires
        1 <= tag <= 0x1fff_ffff,
        string_field_bytes(tag, text).len() < two_pow_64(),
    ensures
        ({
            let f = string_field_bytes(tag, text);
            let k = key_bytes(tag, 2).len();
            &&& 1 <= k <= f.len()
            &&& parse_key(f + rest) == Some((tag, 2nat, k))
            &&& parse_string(2, (f + rest).skip(k as int)) == Some((text, (f.len() - k) as nat))
        }),
{
    let u = encode_utf8(text);
    let len = u.len();
    let key = key_bytes(tag, 2);
    let f = string_field_bytes(tag, text);
    let tail = varint_bytes(len) + u + rest;
    assert(f + rest =~= key + tail);
    lemma_key_roundtrip(tag, 2, tail);
    assert((f + rest).skip(key.len() as int) =~= tail);
    assert(tail =~= varint_bytes(len) + (u + rest));
    lemma_varint_roundtrip_nat(len, u + rest);
    let h = varint_bytes(len).len();
    assert(parse_delimited(tail) == Some((h, len)));
    assert(tail.subrange(h as int, (h + len) as int) =~= u);
    encode_utf8_valid_utf8(text);
    encode_utf8_decode_utf8(text);
}

/// A varint field with a nonzero value decodes to it.
pub proof fn lemma_varint_field_roundtrip(tag: nat, value: nat, rest: Seq<u8>)
    requires
        1 <= tag <= 0x1fff_ffff,
        0 < value < two_pow_64(),
    ensures
        ({
            let f = varint_field(tag, value);
            let k = key_bytes(tag, 0).len();
            &&& 1 <= k <= f.len()
            &&& parse_key(f + rest) == Some((tag, 0nat, k))
            &&& varint_decode((f + rest).skip(k as int)) == Some((value, (f.len() - k) as nat))
        }),
{
    let key = key_bytes(tag, 0);
    let f = varint_field(tag, value);
    let tail = varint_bytes(value) + rest;
    assert(f + rest =~= key + tail);
    lemma_key_roundtrip(tag, 0, tail);
    assert((f + rest).skip(key.len() as int) =~= tail);
    lemma_varint_roundtrip_nat(value, rest);
}

/// The wire value of a card kind reads back as the kind.
pub proof fn lemma_kind_roundtrip(kind: i32)
    ensures
        kind_wire_value(kind) < two_pow_64(),
        ((kind_wire_value(kind) as u64) as i32) == kind,
        kind_wire_value(kind) == 0 <==> kind == 0,
{
    assert(((kind as u64) as i32) == kind) by (bit_vector);
    assert((kind as u64) == 0 <==> kind == 0) by (bit_vector);
}

/// Reading one complete field at the front of the card bytes moves on to the
/// rest with the card that the field gives.
pub proof fn lemma_card_fields_step(
    f: Seq<u8>,
    t: Seq<u8>,
    limit: nat,
    c: CardView,
    budget: nat,
    tag: nat,
    wire_type: nat,
    k: nat,
)
    requires
        t.len() >= limit,
        1 <= k <= f.len(),
        parse_key(f + t) == Some((tag, wire_type, k)),
        merge_card_field(tag, wire_type, (f + t).skip(k as int), c, budget) matches Some((_, m)) && k + m
            == f.len(),
    ensures
        card_fields(f + t, limit, c, budget) == card_fields(
            t,
            limit,
            merge_card_field(tag, wire_type, (f + t).skip(k as int), c, budget).unwrap().0,
            budget,
        ),
{
    assert((f + t).skip(f.len() as int) =~= t);
}

/// Reading one complete field at the front of the deck bytes moves on to the
/// rest with the deck that the field gives.
pub proof fn lemma_deck_fields_step(f: Seq<u8>, t: Seq<u8>, d: DeckView, tag: nat, wire_type: nat, k: nat)
    requires
        1 <= k <= f.len(),
        parse_key(f + t) == Some((tag, wire_type, k)),
        merge_deck_field(tag, wire_type, (f + t).skip(k as int), d) matches Some((_, m)) && k + m == f.len(),
    ensures
        deck_fields(f + t, d) == deck_fields(t, merge_deck_field(tag, wire_type, (f + t).skip(k as int), d).unwrap().0),
{
    assert((f + t).skip(f.len() as int) =~= t);
}

/// The card with text field `tag` (1 for the id, 3 to 6 for the optional
/// texts) set to `text`.
pub open spec fn with_card_text(c: CardView, tag: nat, text: Seq<char>) -> CardView {
    if tag == 1 {
        CardView { id: text, ..c }
    } else if tag == 3 {
        CardView { term: Some(text), ..c }
    } else if tag == 4 {
        CardView { definition: Some(text), ..c }
    } else if tag == 5 {
        CardView { prompt: Some(text), ..c }
    } else {
        CardView { answer: Some(text), ..c }
    }
}

/// Reading a card's string field at the front of the card bytes sets that
/// field and moves on to the rest.
pub proof fn lemma_card_text_step(tag: nat, text: Seq<char>, t: Seq<u8>, limit: nat, c: CardView, budget: nat)
    requires
        tag == 1 || 3 <= tag <= 6,
        string_field_bytes(tag, text).len() < two_pow_64(),
        t.len() >= limit,
    ensures
        card_fields(string_field_bytes(tag, text) + t, limit, c, budget) == card_fields(
            t,
            limit,
            with_card_text(c, tag, text),
            budget,
        ),
{
    lemma_string_field_roundtrip(tag, text, t);
    lemma_card_fields_step(string_field_bytes(tag, text), t, limit, c, budget, tag, 2, key_bytes(tag, 2).len());
}

/// Reading a card's kind at the front of the card bytes sets the kind and
/// moves on to the rest.
pub proof fn lemma_card_kind_step(kind: i32, t: Seq<u8>, limit: nat, c: CardView, budget: nat)
    requires
        kind != 0,
        t.len() >= limit,
    ensures
        card_fields(varint_field(2, kind_wire_value(kind)) + t, limit, c, budget) == card_fields(
            t,
            limit,
            CardView { kind: kind, ..c },
            budget,
        ),
{
    lemma_kind_roundtrip(kind);
    lemma_varint_field_roundtrip(2, kind_wire_value(kind), t);
    lemma_card_fields_step(varint_field(2, kind_wire_value(kind)), t, limit, c, budget, 2, 0, key_bytes(2, 0).len());
}

/// An optional text field, present or not, leaves the card with that field
/// as given.
pub proof fn lemma_card_optional_step(
    tag: nat,
    text: Option<Seq<char>>,
    t: Seq<u8>,
    limit: nat,
    c: CardView,
    budget: nat,
)
    requires
        3 <= tag <= 6,
        optional_text_field(tag, text).len() < two_pow_64(),
        t.len() >= limit,
        text is None ==> c == with_card_text(c, tag, Seq::empty()) || (tag == 3 && c.term is None) || (tag
            == 4 && c.definition is None) || (tag == 5 && c.prompt is None) || (tag == 6 && c.answer is None),
    ensures
        text matches Some(x) ==> card_fields(optional_text_field(tag, text) + t, limit, c, budget)
            == card_fields(t, limit, with_card_text(c, tag, x), budget),
        text is None ==> optional_text_field(tag, text) + t == t,
{
    if let Some(x) = text {
        lemma_card_text_step(tag, x, t, limit, c, budget);
    } else {
        assert(optional_text_field(tag, text) + t =~= t);
    }
}

/// The encoding of a card, followed by anything, decodes back to the card
/// when decoding stops where the rest begins.
#[verifier::spinoff_prover]
pub proof fn lemma_card_roundtrip(c: CardView, rest: Seq<u8>, budget: nat)
    requires
        card_bytes(c).len() < two_pow_64(),
    ensures
        card_fields(card_bytes(c) + rest, rest.len(), empty_card(), budget) == Some(c),
{
    let limit = rest.len();
    let kw = kind_wire_value(c.kind);
    let f1 = text_field(1, c.id);
    let f2 = varint_field(2, kw);
    let f3 = optional_text_field(3, c.term);
    let f4 = optional_text_field(4, c.definition);
    let f5 = optional_text_field(5, c.prompt);
    let f6 = optional_text_field(6, c.answer);
    let t6 = f6 + rest;
    let t5 = f5 + t6;
    let t4 = f4 + t5;
    let t3 = f3 + t4;
    let t2 = f2 + t3;
    let t1 = f1 + t2;
    lemma_concat7(f1, f2, f3, f4, f5, f6, rest);
    assert(card_bytes(c) == f1 + f2 + f3 + f4 + f5 + f6);
    lemma_kind_roundtrip(c.kind);
    let a0 = empty_card();
    let a1 = CardView { id: c.id, ..a0 };
    let a2 = CardView { kind: c.kind, ..a1 };
    let a3 = CardView { term: c.term, ..a2 };
    let a4 = CardView { definition: c.definition, ..a3 };
    let a5 = CardView { prompt: c.prompt, ..a4 };
    let a6 = CardView { answer: c.answer, ..a5 };
    if c.id.len() == 0 {
        assert(c.id =~= Seq::<char>::empty());
        assert(t1 =~= t2);
    } else {
        lemma_card_text_step(1, c.id, t2, limit, a0, budget);
    }
    assert(card_fields(t1, limit, a0, budget) == card_fields(t2, limit, a1, budget));
    if kw == 0 {
        assert(t2 =~= t3);
    } else {
        lemma_card_kind_step(c.kind, t3, limit, a1, budget);
    }
    assert(card_fields(t2, limit, a1, budget) == card_fields(t3, limit, a2, budget));
    lemma_card_optional_step(3, c.term, t4, limit, a2, budget);
    assert(card_fields(t3, limit, a2, budget) == card_fields(t4, limit, a3, budget));
    lemma_card_optional_step(4, c.definition, t5, limit, a3, budget);
    assert(card_fields(t4, limit, a3, budget) == card_fields(t5, limit, a4, budget));
    lemma_card_optional_step(5, c.prompt, t6, limit, a4, budget);
    assert(card_fields(t5, limit, a4, budget) == card_fields(t6, limit, a5, budget));
    lemma_card_optional_step(6, c.answer, rest, limit, a5, budget);
    assert(card_fields(t6, limit, a5, budget) == card_fields(rest, limit, a6, budget));
    assert(a6 == c);
}

/// Skipping a prefix leaves what follows it.
pub proof fn lemma_skip_prefix<A>(a: Seq<A>, b: Seq<A>)
    ensures
        (a + b).skip(a.len() as int) == b,
{
    assert((a + b).skip(a.len() as int) =~= b);
}

/// Reading one card entry adds its card to the deck and moves on to the rest.
pub proof fn lemma_card_entry_step(c: CardView, after: Seq<u8>, d: DeckView)
    requires
        card_entry_bytes(c).len() < two_pow_64(),
    ensures
        deck_fields(card_entry_bytes(c) + after, d) == deck_fields(after, DeckView { cards: d.cards.push(c), ..d }),
{
    let cb = card_bytes(c);
    let len = cb.len();
    let key = key_bytes(7, 2);
    let vb = varint_bytes(len);
    let e0 = card_entry_bytes(c);
    let tail = vb + (cb + after);
    vstd::seq_lib::lemma_concat_associative(key, vb, cb);
    vstd::seq_lib::lemma_concat_associative(key + vb, cb, after);
    vstd::seq_lib::lemma_concat_associative(key, vb, cb + after);
    assert(e0 + after == key + tail);
    lemma_key_roundtrip(7, 2, tail);
    lemma_skip_prefix(key, tail);
    lemma_varint_roundtrip_nat(len, cb + after);
    let h = vb.len();
    lemma_skip_prefix(vb, cb + after);
    lemma_card_roundtrip(c, after, 99);
    assert(card_message(2, tail, 100) == Some((c, h + len)));
    let d2 = DeckView { cards: d.cards.push(c), ..d };
    assert(merge_deck_field(7, 2, tail, d) == Some((d2, h + len)));
    lemma_deck_fields_step(e0, after, d, 7, 2, key.len());
}

/// The card entries of `cs`, followed by anything, add those cards in order
/// to the deck being decoded and leave the rest to read.
pub proof fn lemma_cards_roundtrip(cs: Seq<CardView>, rest: Seq<u8>, d: DeckView)
    requires
        cards_bytes(cs).len() < two_pow_64(),
    ensures
        deck_fields(cards_bytes(cs) + rest, d) == deck_fields(rest, DeckView { cards: d.cards + cs, ..d }),
    decreases cs.len(),
{
    if cs.len() == 0 {
        assert(cards_bytes(cs) + rest =~= rest);
        assert(d.cards + cs =~= d.cards);
        assert(DeckView { cards: d.cards + cs, ..d } == d);
    } else {
        let c0 = cs[0];
        let tl = cs.drop_first();
        let e0 = card_entry_bytes(c0);
        let after = cards_bytes(tl) + rest;
        assert(cards_bytes(cs) == e0 + cards_bytes(tl));
        vstd::seq_lib::lemma_concat_associative(e0, cards_bytes(tl), rest);
        lemma_card_entry_step(c0, after, d);
        let d2 = DeckView { cards: d.cards.push(c0), ..d };
        lemma_cards_roundtrip(tl, rest, d2);
        assert(d.cards.push(c0) + tl =~= d.cards + cs);
    }
}

/// The deck with text field `tag` (1 id, 2 title, 4 and 5 the default
/// languages, 6 format) set to `text`.
pub open spec fn with_deck_text(d: DeckView, tag: nat, text: Seq<char>) -> DeckView {
    if tag == 1 {
        DeckView { id: text, ..d }
    } else if tag == 2 {
        DeckView { title: text, ..d }
    } else if tag == 4 {
        DeckView { default_term_lang: Some(text), ..d }
    } else if tag == 5 {
        DeckView { default_def_lang: Some(text), ..d }
    } else {
        DeckView { format: text, ..d }
    }
}

/// Reading a deck's string field sets that field and moves on to the rest.
pub proof fn lemma_deck_text_step(tag: nat, text: Seq<char>, t: Seq<u8>, d: DeckView)
    requires
        tag == 1 || tag == 2 || tag == 4 || tag == 5 || tag == 6,
        string_field_bytes(tag, text).len() < two_pow_64(),
    ensures
        deck_fields(string_field_bytes(tag, text) + t, d) == deck_fields(t, with_deck_text(d, tag, text)),
{
    lemma_string_field_roundtrip(tag, text, t);
    lemma_deck_fields_step(string_field_bytes(tag, text), t, d, tag, 2, key_bytes(tag, 2).len());
}

/// Reading a deck's version sets it and moves on to the rest.
pub proof fn lemma_deck_version_step(version: u32, t: Seq<u8>, d: DeckView)
    requires
        version != 0,
    ensures
        deck_fields(varint_field(3, version as nat) + t, d) == deck_fields(t, DeckView { version: version, ..d }),
{
    lemma_varint_field_roundtrip(3, version as nat, t);
    lemma_deck_fields_step(varint_field(3, version as nat), t, d, 3, 0, key_bytes(3, 0).len());
}

/// What a read gives back of a write: decoding the `deck.pb` encoding of a
/// deck gives the same deck, for every deck whose encoding is shorter than
/// 2^64 bytes (every deck that can be held in memory).
#[verifier::spinoff_prover]
pub proof fn lemma_deck_roundtrip(d: DeckView)
    requires
        deck_bytes(d).len() < two_pow_64(),
    ensures
        decode_deck_bytes(deck_bytes(d)) == Some(d),
{
    let f1 = text_field(1, d.id);
    let f2 = text_field(2, d.title);
    let f3 = varint_field(3, d.version as nat);
    let f4 = optional_text_field(4, d.default_term_lang);
    let f5 = optional_text_field(5, d.default_def_lang);
    let f6 = text_field(6, d.format);
    let g = cards_bytes(d.cards);
    let t6 = f6 + g;
    let t5 = f5 + t6;
    let t4 = f4 + t5;
    let t3 = f3 + t4;
    let t2 = f2 + t3;
    let t1 = f1 + t2;
    lemma_concat7(f1, f2, f3, f4, f5, f6, g);
    let a0 = empty_deck();
    let a1 = DeckView { id: d.id, ..a0 };
    let a2 = DeckView { title: d.title, ..a1 };
    let a3 = DeckView { version: d.version, ..a2 };
    let a4 = DeckView { default_term_lang: d.default_term_lang, ..a3 };
    let a5 = DeckView { default_def_lang: d.default_def_lang, ..a4 };
    let a6 = DeckView { format: d.format, ..a5 };
    if d.id.len() == 0 {
        assert(d.id =~= Seq::<char>::empty());
        assert(t1 =~= t2);
    } else {
        lemma_deck_text_step(1, d.id, t2, a0);
    }
    assert(deck_fields(t1, a0) == deck_fields(t2, a1));
    if d.title.len() == 0 {
        assert(d.title =~= Seq::<char>::empty());
        assert(t2 =~= t3);
    } else {
        lemma_deck_text_step(2, d.title, t3, a1);
    }
    assert(deck_fields(t2, a1) == deck_fields(t3, a2));
    if d.version == 0 {
        assert(t3 =~= t4);
    } else {
        lemma_deck_version_step(d.version, t4, a2);
    }
    assert(deck_fields(t3, a2) == deck_fields(t4, a3));
    if let Some(x) = d.default_term_lang {
        lemma_deck_text_step(4, x, t5, a3);
    } else {
        assert(t4 =~= t5);
    }
    assert(deck_fields(t4, a3) == deck_fields(t5, a4));
    if let Some(x) = d.default_def_lang {
        lemma_deck_text_step(5, x, t6, a4);
    } else {
        assert(t5 =~= t6);
    }
    assert(deck_fields(t5, a4) == deck_fields(t6, a5));
    if d.format.len() == 0 {
        assert(d.format =~= Seq::<char>::empty());
        assert(t6 =~= g);
    } else {
        lemma_deck_text_step(6, d.format, g, a5);
    }
    assert(deck_fields(t6, a5) == deck_fields(g, a6));
    lemma_cards_roundtrip(d.cards, Seq::empty(), a6);
    assert(g + Seq::<u8>::empty() =~= g);
    assert(a6.cards + d.cards =~= d.cards);
    let a7 = DeckView { cards: a6.cards + d.cards, ..a6 };
    assert(a7 == d);
    assert(deck_fields(Seq::<u8>::empty(), a7) == Some(a7));
}

/// A card field with a number the card does not know (above 6) and a
/// well-formed length-delimited value, as a newer writer may add, is passed
/// over: the card bytes decode as they would without it.
pub proof fn lemma_card_skips_unknown_delimited(
    tag: nat,
    payload: Seq<u8>,
    t: Seq<u8>,
    limit: nat,
    c: CardView,
    budget: nat,
)
    requires
        7 <= tag <= 0x1fff_ffff,
        budget >= 1,
        payload.len() < two_pow_64(),
        t.len() >= limit,
    ensures
        card_fields(key_bytes(tag, 2) + varint_bytes(payload.len()) + payload + t, limit, c, budget) == card_fields(
            t,
            limit,
            c,
            budget,
        ),
{
    let key = key_bytes(tag, 2);
    let f = key + varint_bytes(payload.len()) + payload;
    let rest = varint_bytes(payload.len()) + payload + t;
    assert(f + t =~= key + rest);
    lemma_key_roundtrip(tag, 2, rest);
    let k = key.len();
    assert((f + t).skip(k as int) =~= rest);
    assert(rest =~= varint_bytes(payload.len()) + (payload + t));
    lemma_varint_roundtrip_nat(payload.len(), payload + t);
    let h = varint_bytes(payload.len()).len();
    assert(parse_delimited(rest) == Some((h, payload.len())));
    assert(skip_field(2, tag, rest, budget) == Some(h + payload.len()));
    assert(merge_card_field(tag, 2, rest, c, budget) == Some((c, h + payload.len())));
    lemma_card_fields_step(f, t, limit, c, budget, tag, 2, k);
}

/// A card field with a number the card does not know (above 6) and a varint
/// value is passed over: the card bytes decode as they would without it.
pub proof fn lemma_card_skips_unknown_varint(tag: nat, value: nat, t: Seq<u8>, limit: nat, c: CardView, budget: nat)
    requires
        7 <= tag <= 0x1fff_ffff,
        budget >= 1,
        value < two_pow_64(),
        t.len() >= limit,
    ensures
        card_fields(key_bytes(tag, 0) + varint_bytes(value) + t, limit, c, budget) == card_fields(t, limit, c, budget),
{
    let key = key_bytes(tag, 0);
    let f = key + varint_bytes(value);
    let rest = varint_bytes(value) + t;
    assert(f + t =~= key + rest);
    lemma_key_roundtrip(tag, 0, rest);
    let k = key.len();
    assert((f + t).skip(k as int) =~= rest);
    lemma_varint_roundtrip_nat(value, t);
    assert(skip_field(0, tag, rest, budget) == Some(varint_bytes(value).len()));
    assert(merge_card_field(tag, 0, rest, c, budget) == Some((c, varint_bytes(value).len())));
    lemma_card_fields_step(f, t, limit, c, budget, tag, 0, k);
}

} // verus!

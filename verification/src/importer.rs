//! Building a deck from the records of a two-column CSV file (term,
//! definition), one basic card per record that has both columns.
use vstd::prelude::*;
use vstd::string::StringExecFns;
use vstd::utf8::*;
use crate::pb::{Card, CardView, Deck, DeckView, card_views, empty_deck};
use crate::wire::utf8_text;

verus! {

/// The kind of a basic term/definition card.
pub const BASIC_CARD_KIND: i32 = 1;

/// The decimal digit `d`.
pub open spec fn digit_char(d: nat) -> char {
    if d == 0 {
        '0'
    } else if d == 1 {
        '1'
    } else if d == 2 {
        '2'
    } else if d == 3 {
        '3'
    } else if d == 4 {
        '4'
    } else if d == 5 {
        '5'
    } else if d == 6 {
        '6'
    } else if d == 7 {
        '7'
    } else if d == 8 {
        '8'
    } else {
        '9'
    }
}

/// The decimal notation of `n`, without leading zeros.
pub open spec fn decimal(n: nat) -> Seq<char>
    decreases n,
{
    if n < 10 {
        seq![digit_char(n)]
    } else {
        decimal(n / 10).push(digit_char(n % 10))
    }
}

/// The ASCII bytes of the decimal notation of `n`.
pub open spec fn decimal_ascii(n: nat) -> Seq<u8>
    decreases n,
{
    if n < 10 {
        seq![(48 + n) as u8]
    } else {
        decimal_ascii(n / 10).push((48 + n % 10) as u8)
    }
}

/// The decimal notation is ASCII, and its UTF-8 bytes are the ASCII digits.
pub proof fn lemma_decimal_ascii(n: nat)
    ensures
        is_ascii_chars(decimal(n)),
        decimal(n).len() == decimal_ascii(n).len(),
        forall|i: int| 0 <= i < decimal(n).len() ==> #[trigger] decimal(n)[i] as u8 == decimal_ascii(n)[i],
        encode_utf8(decimal(n)) == decimal_ascii(n),
    decreases n,
{
    if n >= 10 {
        lemma_decimal_ascii(n / 10);
    }
    is_ascii_chars_encode_utf8(decimal(n));
    assert(encode_utf8(decimal(n)) =~= decimal_ascii(n));
}

/// The decimal notation of a number has one digit exactly when the number is
/// below ten.
pub proof fn lemma_decimal_len(n: nat)
    ensures
        decimal(n).len() >= 1,
        decimal(n).len() == 1 <==> n < 10,
    decreases n,
{
    if n >= 10 {
        lemma_decimal_len(n / 10);
    }
}

/// Different numbers have different decimal notations.
pub proof fn lemma_decimal_injective(a: nat, b: nat)
    requires
        decimal(a) == decimal(b),
    ensures
        a == b,
    decreases a,
{
    lemma_decimal_len(a);
    lemma_decimal_len(b);
    if a >= 10 && b >= 10 {
        assert(decimal(a).last() == digit_char(a % 10));
        assert(decimal(b).last() == digit_char(b % 10));
        assert(decimal(a).drop_last() =~= decimal(a / 10));
        assert(decimal(b).drop_last() =~= decimal(b / 10));
        lemma_decimal_injective(a / 10, b / 10);
    } else if a < 10 && b < 10 {
        assert(decimal(a)[0] == digit_char(a));
        assert(decimal(b)[0] == digit_char(b));
    }
}

/// Appends the ASCII digits of `n` to `out`.
fn push_decimal(n: usize, out: &mut Vec<u8>)
    ensures
        final(out)@ == old(out)@ + decimal_ascii(n as nat),
    decreases n,
{
    let ghost before = out@;
    if n >= 10 {
        push_decimal(n / 10, out);
    }
    out.push((48 + n % 10) as u8);
    assert(out@ =~= before + decimal_ascii(n as nat));
}

/// The decimal notation of `n`.
pub fn decimal_text(n: usize) -> (res: String)
    ensures
        res@ == decimal(n as nat),
{
    let mut bytes: Vec<u8> = Vec::new();
    push_decimal(n, &mut bytes);
    proof {
        lemma_decimal_ascii(n as nat);
        assert(bytes@ =~= decimal_ascii(n as nat));
        encode_utf8_valid_utf8(decimal(n as nat));
        encode_utf8_decode_utf8(decimal(n as nat));
    }
    match utf8_text(bytes.as_slice()) {
        Ok(t) => t.to_owned(),
        Err(_) => {
            proof {
                assert(false);
            }
            String::new()
        },
    }
}

/// The id given to the card made from the record at `index`.
pub open spec fn imported_card_id(index: nat) -> Seq<char> {
    "imported_card_"@ + decimal(index)
}

/// The id of the card made from the record at `index`.
pub fn imported_card_id_text(index: usize) -> (res: String)
    ensures
        res@ == imported_card_id(index as nat),
{
    let mut id = String::from_str("imported_card_");
    let digits = decimal_text(index);
    id.append(digits.as_str());
    id
}

/// Different record positions give different card ids.
pub proof fn lemma_imported_card_id_injective(a: nat, b: nat)
    requires
        imported_card_id(a) == imported_card_id(b),
    ensures
        a == b,
{
    let p = "imported_card_"@;
    assert(imported_card_id(a).skip(p.len() as int) =~= decimal(a));
    assert(imported_card_id(b).skip(p.len() as int) =~= decimal(b));
    lemma_decimal_injective(a, b);
}

/// The records of a CSV file as sequences of texts.
pub open spec fn record_views(records: Seq<Vec<String>>) -> Seq<Seq<Seq<char>>> {
    records.map_values(|r: Vec<String>| r@.map_values(|f: String| f@))
}

/// The basic card made from the record at `index`, whose first two fields
/// are the term and the definition.
pub open spec fn imported_card(index: nat, record: Seq<Seq<char>>) -> CardView {
    CardView {
        id: imported_card_id(index),
        kind: BASIC_CARD_KIND,
        term: Some(record[0]),
        definition: Some(record[1]),
        prompt: None,
        answer: None,
    }
}

/// The cards made from `records`, in order: one for each record with at
/// least two fields; records with fewer are passed over.
pub open spec fn imported_cards(records: Seq<Seq<Seq<char>>>) -> Seq<CardView>
    decreases records.len(),
{
    if records.len() == 0 {
        Seq::empty()
    } else {
        let prev = imported_cards(records.drop_last());
        let i = (records.len() - 1) as nat;
        if records.last().len() >= 2 {
            prev.push(imported_card(i, records.last()))
        } else {
            prev
        }
    }
}

/// Each imported card carries the id of a record position, and no two
/// imported cards share an id.
pub proof fn lemma_imported_ids(records: Seq<Seq<Seq<char>>>)
    ensures
        forall|p: int|
            #![trigger imported_cards(records)[p]]
            0 <= p < imported_cards(records).len() ==> exists|k: nat|
                k < records.len() && imported_cards(records)[p].id == #[trigger] imported_card_id(k),
        forall|p: int, q: int|
            0 <= p < q < imported_cards(records).len() ==> imported_cards(records)[p].id
                != imported_cards(records)[q].id,
    decreases records.len(),
{
    if records.len() > 0 {
        let before = records.drop_last();
        let prev = imported_cards(before);
        let last = (records.len() - 1) as nat;
        lemma_imported_ids(before);
        if records.last().len() >= 2 {
            let cards = prev.push(imported_card(last, records.last()));
            assert(imported_cards(records) == cards);
            assert forall|p: int| #![trigger cards[p]] 0 <= p < cards.len() implies exists|k: nat|
                k < records.len() && cards[p].id == #[trigger] imported_card_id(k) by {
                if p == cards.len() - 1 {
                    assert(cards[p].id == imported_card_id(last));
                } else {
                    let k = choose|k: nat| k < before.len() && prev[p].id == #[trigger] imported_card_id(k);
                    assert(cards[p].id == imported_card_id(k));
                }
            }
            assert forall|p: int, q: int| 0 <= p < q < cards.len() implies cards[p].id != cards[q].id by {
                if q == cards.len() - 1 {
                    let k = choose|k: nat| k < before.len() && prev[p].id == #[trigger] imported_card_id(k);
                    if cards[p].id == cards[q].id {
                        lemma_imported_card_id_injective(k, last);
                    }
                } else {
                    assert(cards[p] == prev[p] && cards[q] == prev[q]);
                }
            }
        } else {
            assert forall|p: int| #![trigger prev[p]] 0 <= p < prev.len() implies exists|k: nat|
                k < records.len() && prev[p].id == #[trigger] imported_card_id(k) by {
                let k = choose|k: nat| k < before.len() && prev[p].id == #[trigger] imported_card_id(k);
                assert(k < records.len());
            }
        }
    }
}

/// No two cards of a deck imported from a CSV file share an id.
pub proof fn lemma_imported_ids_distinct(records: Seq<Seq<Seq<char>>>)
    ensures
        forall|p: int, q: int|
            0 <= p < q < imported_deck(records).cards.len() ==> imported_deck(records).cards[p].id
                != imported_deck(records).cards[q].id,
{
    lemma_imported_ids(records);
}

/// The title of an imported deck.
pub open spec fn imported_title() -> Seq<char> {
    "Imported Deck"@
}

/// The deck made from `records`: titled "Imported Deck", every other field at
/// its default, and the imported cards.
pub open spec fn imported_deck(records: Seq<Seq<Seq<char>>>) -> DeckView {
    DeckView { title: imported_title(), cards: imported_cards(records), ..empty_deck() }
}

/// Builds the deck that the records of a two-column CSV file give.
pub fn from_csv(records: &Vec<Vec<String>>) -> (res: Deck)
    ensures
        res@ == imported_deck(record_views(records@)),
{
    let mut deck = Deck::new();
    deck.title = String::from_str("Imported Deck");
    let ghost views = record_views(records@);
    let n = records.len();
    assert(views.take(0) =~= Seq::<Seq<Seq<char>>>::empty());
    for i in 0..n
        invariant
            n == records@.len(),
            views == record_views(records@),
            deck@ == imported_deck(views.take(i as int)),
    {
        let record = &records[i];
        assert(views.take(i + 1).drop_last() =~= views.take(i as int));
        assert(views.take(i + 1).last() == views[i as int]);
        assert(views[i as int] == record@.map_values(|f: String| f@));
        if record.len() >= 2 {
            let mut card = Card::new();
            card.id = imported_card_id_text(i);
            card.kind = BASIC_CARD_KIND;
            card.term = Some(record[0].clone());
            card.definition = Some(record[1].clone());
            let ghost before = deck.cards@;
            deck.cards.push(card);
            assert(card_views(deck.cards@) =~= card_views(before).push(card@));
            assert(card@ == imported_card(i as nat, views[i as int]));
        }
    }
    assert(views.take(n as int) =~= views);
    deck
}


/// The records that the `csv` crate reads from `bytes`, with the first line
/// taken as a record and every record held to the length of the first; each
/// record is its fields as texts. `None` where the reader reports an error.
pub uninterp spec fn csv_records(bytes: Seq<u8>) -> Option<Seq<Seq<Seq<char>>>>;

/// Every record has as many fields as the first.
pub open spec fn uniform_records(records: Seq<Seq<Seq<char>>>) -> bool {
    forall|i: int| 0 <= i < records.len() ==> #[trigger] records[i].len() == records[0].len()
}

/// Reads every record of `bytes` with `csv::ReaderBuilder` (headers off, the
/// default non-flexible reader) and collects each record's fields, or gives
/// `None` at the first error. Claimed: the result is `csv_records` of the
/// bytes, and every record read has the length of the first, since a
/// non-flexible reader reports `UnequalLengths` for any other.
#[verifier::external_body]
fn read_csv_records(bytes: &[u8]) -> (res: Option<Vec<Vec<String>>>)
    ensures
        match res {
            Some(v) => csv_records(bytes@) == Some(record_views(v@)),
            None => csv_records(bytes@) is None,
        },
        res matches Some(v) ==> uniform_records(record_views(v@)),
{
    let mut reader = csv::ReaderBuilder::new().has_headers(false).from_reader(bytes);
    reader
        .records()
        .map(|r| r.map(|record| record.iter().map(String::from).collect()))
        .collect::<Result<Vec<Vec<String>>, csv::Error>>()
        .ok()
}

/// Why a CSV file could not be imported.
#[derive(Debug, Clone, Copy, PartialEq, Eq)]
pub enum CsvError {
    /// The file is not valid CSV text: malformed UTF-8, or a record whose
    /// number of fields differs from the first record's.
    Malformed,
}

/// Builds the deck of a two-column CSV file from its contents: the deck of
/// its records, or an error where the CSV reader refuses the file. The
/// records of an accepted file all have the length of the first.
pub fn from_csv_bytes(bytes: &[u8]) -> (res: Result<Deck, CsvError>)
    ensures
        match csv_records(bytes@) {
            Some(records) => res matches Ok(deck) && deck@ == imported_deck(records),
            None => res == Err::<Deck, CsvError>(CsvError::Malformed),
        },
        csv_records(bytes@) matches Some(records) ==> uniform_records(records),
{
    match read_csv_records(bytes) {
        Some(records) => Ok(from_csv(&records)),
        None => Err(CsvError::Malformed),
    }
}

/// Records of one common length give either a card for every record (two
/// fields or more) or none at all (fewer).
pub proof fn lemma_uniform_import(records: Seq<Seq<Seq<char>>>)
    requires
        uniform_records(records),
    ensures
        records.len() > 0 && records[0].len() >= 2 ==> imported_cards(records).len() == records.len(),
        records.len() == 0 || records[0].len() < 2 ==> imported_cards(records).len() == 0,
    decreases records.len(),
{
    if records.len() > 0 {
        let before = records.drop_last();
        if before.len() > 0 {
            assert forall|i: int| 0 <= i < before.len() implies #[trigger] before[i].len() == before[0].len() by {
                assert(before[i] == records[i]);
                assert(before[0] == records[0]);
            }
        }
        lemma_uniform_import(before);
        assert(records.last().len() == records[0].len());
        if before.len() > 0 {
            assert(before[0] == records[0]);
        }
    }
}

/// `c` is the basic card for the record at `k`: id `imported_card_<k>`,
/// kind 1, the record's first field as term and its second as definition,
/// no prompt and no answer.
pub open spec fn is_basic_card_for(k: nat, record: Seq<Seq<char>>, c: CardView) -> bool {
    &&& c.id == "imported_card_"@ + decimal(k)
    &&& c.kind == 1
    &&& c.term == Some(record[0])
    &&& c.definition == Some(record[1])
    &&& c.prompt is None
    &&& c.answer is None
}

/// `c` is the basic card for some record of `records` with two fields or
/// more.
pub open spec fn is_card_of_some_record(records: Seq<Seq<Seq<char>>>, c: CardView) -> bool {
    exists|k: nat| k < records.len() && records[k as int].len() >= 2 && #[trigger] is_basic_card_for(k, records[k as int], c)
}

/// Every imported card is the basic card for a record with two fields or
/// more: its first field the term, its second the definition, its position
/// in the id.
pub proof fn lemma_imported_cards_sound(records: Seq<Seq<Seq<char>>>)
    ensures
        imported_cards(records).len() <= records.len(),
        forall|p: int|
            0 <= p < imported_cards(records).len() ==> is_card_of_some_record(records, #[trigger] imported_cards(records)[p]),
    decreases records.len(),
{
    if records.len() > 0 {
        let before = records.drop_last();
        lemma_imported_cards_sound(before);
        let last = (records.len() - 1) as nat;
        if records.last().len() >= 2 {
            assert(imported_cards(records) == imported_cards(before).push(imported_card(last, records.last())));
        } else {
            assert(imported_cards(records) == imported_cards(before));
        }
        assert forall|p: int| 0 <= p < imported_cards(records).len() implies is_card_of_some_record(
            records,
            #[trigger] imported_cards(records)[p],
        ) by {
            let c = imported_cards(records)[p];
            if p < imported_cards(before).len() {
                assert(c == imported_cards(before)[p]);
                assert(is_card_of_some_record(before, imported_cards(before)[p]));
                let k = choose|k: nat|
                    k < before.len() && before[k as int].len() >= 2 && #[trigger] is_basic_card_for(
                        k,
                        before[k as int],
                        imported_cards(before)[p],
                    );
                assert(before[k as int] == records[k as int]);
                assert(is_basic_card_for(k, records[k as int], c));
            } else {
                assert(records.last().len() >= 2);
                assert(records[last as int] == records.last());
                assert(c == imported_card(last, records.last()));
                assert(is_basic_card_for(last, records[last as int], c));
            }
        }
    }
}

/// Every record with two fields or more has its basic card among the
/// imported cards.
pub proof fn lemma_imported_cards_complete(records: Seq<Seq<Seq<char>>>)
    ensures
        forall|k: nat|
            #![trigger records[k as int]]
            k < records.len() && records[k as int].len() >= 2 ==> exists|p: int|
                0 <= p < imported_cards(records).len() && #[trigger] is_basic_card_for(
                    k,
                    records[k as int],
                    imported_cards(records)[p],
                ),
    decreases records.len(),
{
    if records.len() > 0 {
        let before = records.drop_last();
        lemma_imported_cards_complete(before);
        let prev = imported_cards(before);
        let cards = imported_cards(records);
        let last = (records.len() - 1) as nat;
        if records.last().len() >= 2 {
            assert(cards == prev.push(imported_card(last, records.last())));
        } else {
            assert(cards == prev);
        }
        assert forall|k: nat| #![trigger records[k as int]] k < records.len() && records[k as int].len() >= 2 implies exists|p: int|
            0 <= p < cards.len() && #[trigger] is_basic_card_for(k, records[k as int], cards[p]) by {
            if k < before.len() {
                assert(before[k as int] == records[k as int]);
                let p = choose|p: int| 0 <= p < prev.len() && #[trigger] is_basic_card_for(k, before[k as int], prev[p]);
                assert(cards[p] == prev[p]);
                assert(is_basic_card_for(k, records[k as int], cards[p]));
            } else {
                assert(k == last);
                let p = cards.len() - 1;
                assert(records[k as int] == records.last());
                assert(is_basic_card_for(k, records[k as int], cards[p]));
            }
        }
    }
}

} // verus!

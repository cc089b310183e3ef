//! The deck model of mflash v4: a deck of flashcards and its metadata.
use vstd::prelude::*;

verus! {

/// One flashcard. `kind` is the card's kind as the wire carries it (1 for a
/// basic term/definition card).
#[derive(Debug, Clone, PartialEq, Eq, Default)]
pub struct Card {
    pub id: String,
    pub kind: i32,
    pub term: Option<String>,
    pub definition: Option<String>,
    pub prompt: Option<String>,
    pub answer: Option<String>,
}

/// A deck: its identity and metadata, and its cards in order.
#[derive(Debug, Clone, PartialEq, Eq, Default)]
pub struct Deck {
    pub id: String,
    pub title: String,
    pub version: u32,
    pub default_term_lang: Option<String>,
    pub default_def_lang: Option<String>,
    pub format: String,
    pub cards: Vec<Card>,
}

/// A card as a mathematical value: its texts as sequences of characters.
pub struct CardView {
    pub id: Seq<char>,
    pub kind: i32,
    pub term: Option<Seq<char>>,
    pub definition: Option<Seq<char>>,
    pub prompt: Option<Seq<char>>,
    pub answer: Option<Seq<char>>,
}

/// A deck as a mathematical value.
pub struct DeckView {
    pub id: Seq<char>,
    pub title: Seq<char>,
    pub version: u32,
    pub default_term_lang: Option<Seq<char>>,
    pub default_def_lang: Option<Seq<char>>,
    pub format: Seq<char>,
    pub cards: Seq<CardView>,
}

/// The characters of an optional text.
pub open spec fn opt_text(o: Option<String>) -> Option<Seq<char>> {
    match o {
        Some(s) => Some(s@),
        None => None,
    }
}

impl View for Card {
    type V = CardView;

    open spec fn view(&self) -> CardView {
        CardView {
            id: self.id@,
            kind: self.kind,
            term: opt_text(self.term),
            definition: opt_text(self.definition),
            prompt: opt_text(self.prompt),
            answer: opt_text(self.answer),
        }
    }
}

/// The views of a sequence of cards.
pub open spec fn card_views(cards: Seq<Card>) -> Seq<CardView> {
    cards.map_values(|c: Card| c@)
}

impl View for Deck {
    type V = DeckView;

    open spec fn view(&self) -> DeckView {
        DeckView {
            id: self.id@,
            title: self.title@,
            version: self.version,
            default_term_lang: opt_text(self.default_term_lang),
            default_def_lang: opt_text(self.default_def_lang),
            format: self.format@,
            cards: card_views(self.cards@),
        }
    }
}

/// The card with every field at its default: empty id, kind 0, no texts.
pub open spec fn empty_card() -> CardView {
    CardView {
        id: Seq::empty(),
        kind: 0,
        term: None,
        definition: None,
        prompt: None,
        answer: None,
    }
}

/// The deck with every field at its default and no cards.
pub open spec fn empty_deck() -> DeckView {
    DeckView {
        id: Seq::empty(),
        title: Seq::empty(),
        version: 0,
        default_term_lang: None,
        default_def_lang: None,
        format: Seq::empty(),
        cards: Seq::empty(),
    }
}

/// A copy of an optional text.
pub fn copy_opt_text(o: &Option<String>) -> (res: Option<String>)
    ensures
        opt_text(res) == opt_text(*o),
{
    match o {
        Some(s) => Some(s.clone()),
        None => None,
    }
}

impl Card {
    /// A card with every field at its default.
    pub fn new() -> (res: Card)
        ensures
            res@ == empty_card(),
    {
        Card {
            id: String::new(),
            kind: 0,
            term: None,
            definition: None,
            prompt: None,
            answer: None,
        }
    }
}

impl Deck {
    /// A deck with every field at its default and no cards.
    pub fn new() -> (res: Deck)
        ensures
            res@ == empty_deck(),
    {
        let res = Deck {
            id: String::new(),
            title: String::new(),
            version: 0,
            default_term_lang: None,
            default_def_lang: None,
            format: String::new(),
            cards: Vec::new(),
        };
        assert(res@.cards =~= Seq::<CardView>::empty());
        res
    }
}

} // verus!

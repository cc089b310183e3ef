//! The workspace database: the statements that hold a deck in SQLite for
//! live editing, and the rows a deck is stored as.
use vstd::prelude::*;
use vstd::string::StringExecFns;
use crate::pb::{Card, CardView, Deck, DeckView, card_views, copy_opt_text, opt_text};

verus! {

/// Name of the database file inside a workspace directory.
pub const DB_FILE: &'static str = "workspace.db";

/// Schema of the workspace database: the deck's metadata and its cards.
pub const SCHEMA_SQL: &'static str = "BEGIN;

            -- Deck Metadata
            CREATE TABLE IF NOT EXISTS deck_meta (
                id TEXT PRIMARY KEY,
                title TEXT NOT NULL,
                version INTEGER NOT NULL,
                default_term_lang TEXT,
                default_def_lang TEXT
            );

            -- The Cards
            CREATE TABLE IF NOT EXISTS cards (
                id TEXT PRIMARY KEY,
                kind INTEGER NOT NULL,
                term TEXT,
                definition TEXT,
                prompt TEXT,
                answer TEXT,
                media TEXT
            );

            COMMIT;";

/// Lists the columns of the cards table; a column's name is its second field.
pub const CARD_COLUMNS_SQL: &'static str = "PRAGMA table_info(cards)";

/// Adds the media column to a cards table made before it existed.
pub const ADD_MEDIA_COLUMN_SQL: &'static str = "ALTER TABLE cards ADD COLUMN media TEXT";

/// Stores the deck's metadata, replacing a row with the same id.
pub const INSERT_META_SQL: &'static str = "INSERT OR REPLACE INTO deck_meta (id, title, version, default_term_lang, default_def_lang)
             VALUES (?1, ?2, ?3, ?4, ?5)";

/// Stores one card, replacing a card with the same id.
pub const INSERT_CARD_SQL: &'static str = "INSERT OR REPLACE INTO cards (id, kind, term, definition, prompt, answer)
                 VALUES (?1, ?2, ?3, ?4, ?5, ?6)";

/// Reads the deck's metadata.
pub const SELECT_META_SQL: &'static str = "SELECT id, title, version, default_term_lang, default_def_lang FROM deck_meta LIMIT 1";

/// Reads the cards.
pub const SELECT_CARDS_SQL: &'static str = "SELECT id, kind, term, definition, prompt, answer FROM cards";

/// The row of the deck_meta table that holds a deck's metadata, in the
/// order of its columns.
#[derive(Debug, Clone, PartialEq, Eq)]
pub struct MetaRow {
    pub id: String,
    pub title: String,
    pub version: u32,
    pub default_term_lang: Option<String>,
    pub default_def_lang: Option<String>,
}

/// A metadata row as a mathematical value.
pub struct MetaView {
    pub id: Seq<char>,
    pub title: Seq<char>,
    pub version: u32,
    pub default_term_lang: Option<Seq<char>>,
    pub default_def_lang: Option<Seq<char>>,
}

impl View for MetaRow {
    type V = MetaView;

    open spec fn view(&self) -> MetaView {
        MetaView {
            id: self.id@,
            title: self.title@,
            version: self.version,
            default_term_lang: opt_text(self.default_term_lang),
            default_def_lang: opt_text(self.default_def_lang),
        }
    }
}

/// The metadata row of a deck.
pub open spec fn meta_of(d: DeckView) -> MetaView {
    MetaView {
        id: d.id,
        title: d.title,
        version: d.version,
        default_term_lang: d.default_term_lang,
        default_def_lang: d.default_def_lang,
    }
}

/// The format name that a deck compiled from the database carries.
pub open spec fn compiled_format() -> Seq<char> {
    "mflash"@
}

/// The deck compiled from a metadata row and the card rows, in the order
/// the rows came.
pub open spec fn compiled_deck(meta: MetaView, cards: Seq<CardView>) -> DeckView {
    DeckView {
        id: meta.id,
        title: meta.title,
        version: meta.version,
        default_term_lang: meta.default_term_lang,
        default_def_lang: meta.default_def_lang,
        format: compiled_format(),
        cards: cards,
    }
}

/// The metadata row that importing `deck` stores. Its cards are stored as
/// rows of the cards table, one per card, with their fields as they are.
pub fn deck_meta_row(deck: &Deck) -> (res: MetaRow)
    ensures
        res@ == meta_of(deck@),
        res.id@ == deck.id@,
        res.title@ == deck.title@,
        res.version == deck.version,
        opt_text(res.default_term_lang) == opt_text(deck.default_term_lang),
        opt_text(res.default_def_lang) == opt_text(deck.default_def_lang),
{
    MetaRow {
        id: deck.id.clone(),
        title: deck.title.clone(),
        version: deck.version,
        default_term_lang: copy_opt_text(&deck.default_term_lang),
        default_def_lang: copy_opt_text(&deck.default_def_lang),
    }
}

/// The deck that exporting the database compiles from its metadata row and
/// its card rows: the format is "mflash", the rest comes from the rows.
pub fn deck_from_rows(meta: MetaRow, cards: Vec<Card>) -> (res: Deck)
    ensures
        res@ == compiled_deck(meta@, card_views(cards@)),
        res.id@ == meta.id@,
        res.title@ == meta.title@,
        res.version == meta.version,
        opt_text(res.default_term_lang) == opt_text(meta.default_term_lang),
        opt_text(res.default_def_lang) == opt_text(meta.default_def_lang),
        res.format@ == "mflash"@,
        card_views(res.cards@) == card_views(cards@),
{
    Deck {
        id: meta.id,
        title: meta.title,
        version: meta.version,
        default_term_lang: meta.default_term_lang,
        default_def_lang: meta.default_def_lang,
        format: String::from_str("mflash"),
        cards: cards,
    }
}

/// Each deck field has its own column: the metadata row of a deck holds its
/// id, title, version, term language and definition language each in the
/// column of that name, and a compiled deck takes each of them back from
/// that same column.
pub proof fn lemma_meta_columns(d: DeckView, m: MetaView, cards: Seq<CardView>)
    ensures
        meta_of(d).id == d.id,
        meta_of(d).title == d.title,
        meta_of(d).version == d.version,
        meta_of(d).default_term_lang == d.default_term_lang,
        meta_of(d).default_def_lang == d.default_def_lang,
        compiled_deck(m, cards).id == m.id,
        compiled_deck(m, cards).title == m.title,
        compiled_deck(m, cards).version == m.version,
        compiled_deck(m, cards).default_term_lang == m.default_term_lang,
        compiled_deck(m, cards).default_def_lang == m.default_def_lang,
        compiled_deck(m, cards).cards == cards,
{
}

/// What a read gives back of a write: compiling the rows that importing a
/// deck stores gives the deck back, with its format set to "mflash".
pub proof fn lemma_export_of_import(d: DeckView)
    ensures
        compiled_deck(meta_of(d), d.cards) == (DeckView { format: compiled_format(), ..d }),
{
}

/// What the column listing of the cards table says of the media column.
#[derive(Debug, Clone, Copy, PartialEq, Eq)]
pub enum MediaColumn {
    /// A column named "media" was listed.
    Present,
    /// All columns were read and none is named "media".
    Missing,
    /// The column at this position could not be read before a "media"
    /// column was found.
    Unreadable(usize),
}

/// The answer of a scan of the column names from position `i` on: the first
/// unreadable name or "media" decides it.
pub open spec fn media_scan(columns: Seq<Option<Seq<char>>>, i: nat) -> MediaColumn
    decreases columns.len() - i,
{
    if i >= columns.len() {
        MediaColumn::Missing
    } else {
        match columns[i as int] {
            None => MediaColumn::Unreadable(i as usize),
            Some(name) => if name == "media"@ {
                MediaColumn::Present
            } else {
                media_scan(columns, i + 1)
            },
        }
    }
}

/// The column names as texts, `None` for a column that could not be read.
pub open spec fn column_views(columns: Seq<Option<String>>) -> Seq<Option<Seq<char>>> {
    columns.map_values(|c: Option<String>| opt_text(c))
}

/// Whether the cards table already has its media column, given the names of
/// its columns in order; older workspaces lack it, and it is then added.
pub fn media_column_status(columns: &Vec<Option<String>>) -> (res: MediaColumn)
    ensures
        res == media_scan(column_views(columns@), 0),
{
    let media = String::from_str("media");
    let ghost cols = column_views(columns@);
    let n = columns.len();
    let mut i: usize = 0;
    while i < n
        invariant
            i <= n,
            n == columns@.len(),
            cols == column_views(columns@),
            media@ == "media"@,
            media_scan(cols, 0) == media_scan(cols, i as nat),
        decreases n - i,
    {
        match &columns[i] {
            None => {
                return MediaColumn::Unreadable(i);
            },
            Some(name) => {
                if *name == media {
                    return MediaColumn::Present;
                }
            },
        }
        i = i + 1;
    }
    MediaColumn::Missing
}

/// A scan that finds every column readable and none named "media" finds
/// "media" once that column is appended after them.
pub proof fn lemma_media_scan_appended(columns: Seq<Option<Seq<char>>>, i: nat)
    requires
        i <= columns.len(),
        media_scan(columns, i) == MediaColumn::Missing,
    ensures
        media_scan(columns.push(Some("media"@)), i) == MediaColumn::Present,
    decreases columns.len() - i,
{
    let longer = columns.push(Some("media"@));
    if i < columns.len() {
        assert(longer[i as int] == columns[i as int]);
        lemma_media_scan_appended(columns, i + 1);
    } else {
        assert(longer[i as int] == Some("media"@));
    }
}

/// Adding the media column is done once: where the cards table lacks it
/// and the column is added (as the last column), a second check finds it
/// present, so the second check adds nothing.
pub proof fn lemma_media_migration_idempotent(columns: Seq<Option<Seq<char>>>)
    requires
        media_scan(columns, 0) == MediaColumn::Missing,
    ensures
        media_scan(columns.push(Some("media"@)), 0) == MediaColumn::Present,
{
    lemma_media_scan_appended(columns, 0);
}

} // verus!

use vstd::prelude::*;

verus! {

/// The scalar attributes of a card, as stored in the `cards` table.
#[derive(Debug, Clone, PartialEq, Eq)]
pub struct CardInfo {
    pub id: i64,
    pub name: String,
    pub card_type: String,
    pub description: String,
    pub atk: Option<i64>,
    pub def: Option<i64>,
    pub level: Option<i64>,
    pub type_line: Option<String>,
}

/// A card's canonical image: its image identifier and its path relative to
/// the image root, in either slash convention.
#[derive(Debug, Clone, PartialEq, Eq)]
pub struct ImageRef {
    pub image_id: i64,
    pub path: String,
}

/// One printing of a card: a set it appears in, with its rarity there.
#[derive(Debug, Clone, PartialEq, Eq)]
pub struct Printing {
    pub set_code: String,
    pub set_name: Option<String>,
    pub rarity: Option<String>,
    pub quantity: Option<i64>,
    pub price: Option<String>,
}

/// One row of the joined card query: a card paired with at most one image
/// and at most one printing.
#[derive(Debug, Clone, PartialEq, Eq)]
pub struct RawJoinedRow {
    pub info: CardInfo,
    pub image: Option<ImageRef>,
    pub printing: Option<Printing>,
}

/// Rarity, collected quantity and price of one printing.
#[derive(Debug, Clone, PartialEq, Eq)]
pub struct CardSetRarity {
    pub rarity: Option<String>,
    pub quantity: Option<i64>,
    pub price: Option<String>,
}

/// The printings of one card in one set.
#[derive(Debug, Clone, PartialEq, Eq)]
pub struct CardSet {
    pub set_code: String,
    pub set_name: Option<String>,
    pub rarities: Vec<CardSetRarity>,
}

/// A card with all of its printings nested under it.
#[derive(Debug, Clone, PartialEq, Eq)]
pub struct Card {
    pub info: CardInfo,
    /// Image path relative to the image root, with forward slashes.
    pub image_path: Option<String>,
    pub has_alt_art: bool,
    /// Base64 text of the image file, once it has been loaded.
    pub img_base64: Option<String>,
    pub sets: Vec<CardSet>,
}

/// One row of the flat listing: a card with one printing inlined.
#[derive(Debug, Clone, PartialEq, Eq)]
pub struct FlatCardRecord {
    pub info: CardInfo,
    /// Image path relative to the image root, with forward slashes.
    pub image_path: Option<String>,
    pub has_alt_art: bool,
    /// Base64 text of the image file, once it has been loaded.
    pub img_base64: Option<String>,
    pub printing: Option<Printing>,
}

/// The result of a card listing: grouped by card, or one record per row.
#[derive(Debug, Clone, PartialEq, Eq)]
pub enum CardListing {
    Grouped(Vec<Card>),
    Flat(Vec<FlatCardRecord>),
}

pub struct CardSetView {
    pub set_code: String,
    pub set_name: Option<String>,
    pub rarities: Seq<CardSetRarity>,
}

pub struct CardView {
    pub info: CardInfo,
    pub image_path: Option<Seq<char>>,
    pub has_alt_art: bool,
    pub img_base64: Option<Seq<char>>,
    pub sets: Seq<CardSetView>,
}

pub struct FlatRecordView {
    pub info: CardInfo,
    pub image_path: Option<Seq<char>>,
    pub has_alt_art: bool,
    pub img_base64: Option<Seq<char>>,
    pub printing: Option<Printing>,
}

pub open spec fn opt_view(s: Option<String>) -> Option<Seq<char>> {
    match s {
        Some(v) => Some(v@),
        None => None,
    }
}

impl View for CardSet {
    type V = CardSetView;

    open spec fn view(&self) -> CardSetView {
        CardSetView { set_code: self.set_code, set_name: self.set_name, rarities: self.rarities@ }
    }
}

pub open spec fn set_views(sets: Seq<CardSet>) -> Seq<CardSetView> {
    sets.map_values(|s: CardSet| s@)
}

impl View for Card {
    type V = CardView;

    open spec fn view(&self) -> CardView {
        CardView {
            info: self.info,
            image_path: opt_view(self.image_path),
            has_alt_art: self.has_alt_art,
            img_base64: opt_view(self.img_base64),
            sets: set_views(self.sets@),
        }
    }
}

pub open spec fn card_views(cards: Seq<Card>) -> Seq<CardView> {
    cards.map_values(|c: Card| c@)
}

impl View for FlatCardRecord {
    type V = FlatRecordView;

    open spec fn view(&self) -> FlatRecordView {
        FlatRecordView {
            info: self.info,
            image_path: opt_view(self.image_path),
            has_alt_art: self.has_alt_art,
            img_base64: opt_view(self.img_base64),
            printing: self.printing,
        }
    }
}

pub open spec fn record_views(records: Seq<FlatCardRecord>) -> Seq<FlatRecordView> {
    records.map_values(|r: FlatCardRecord| r@)
}

pub enum ListingView {
    Grouped(Seq<CardView>),
    Flat(Seq<FlatRecordView>),
}

impl View for CardListing {
    type V = ListingView;

    open spec fn view(&self) -> ListingView {
        match self {
            CardListing::Grouped(cards) => ListingView::Grouped(card_views(cards@)),
            CardListing::Flat(records) => ListingView::Flat(record_views(records@)),
        }
    }
}

} // verus!

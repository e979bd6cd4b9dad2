//! Cards and deck metadata, and the content-derived identity of a card.

use vstd::prelude::*;
use vstd::string::StringExecFns;
use crate::lock::CardItemIdentify;

verus! {

/// The RFC 4122 namespace for ISO Object Identifiers, as a 128-bit value:
/// the namespace under which card names are hashed.
pub const NAMESPACE_OID: u128 = 0x6ba7b8129dad11d180b400c04fd430c8;

/// The version-5 (name-based, SHA-1) identifier derived from a namespace and
/// the UTF-8 bytes of a string: a pure function of its two arguments.
pub uninterp spec fn uuid5_of(ns: u128, data: Seq<char>) -> u128;

/// Relies on uuid::Uuid::new_v5: a name-based (SHA-1) identifier that is a
/// pure function of the namespace and the name's bytes, stable across process
/// runs and across machines.
#[verifier::external_body]
fn uuid_v5(ns: u128, data: &str) -> (r: u128)
    ensures
        r == uuid5_of(ns, data@),
{
    uuid::Uuid::new_v5(&uuid::Uuid::from_u128(ns), data.as_bytes()).as_u128()
}

/// One flashcard, rebuilt from the deck's source files on every run.
#[derive(Debug, Clone)]
pub struct CardItem {
    pub name: String,
    pub glance: Option<String>,
    pub content: String,
    pub tags: Option<Vec<String>>,
}

/// The primary identity component: the name hashed under the OID namespace.
pub open spec fn name_hash_of(name: Seq<char>) -> u128 {
    uuid5_of(NAMESPACE_OID, name)
}

/// The identity of a card: the name hash, and the content hashed under the
/// name hash. Equal (name, content) pairs give equal identities; identity
/// carries no trace of where or when the card was read.
pub open spec fn id_of(name: Seq<char>, content: Seq<char>) -> CardItemIdentify {
    CardItemIdentify(name_hash_of(name), uuid5_of(name_hash_of(name), content))
}

impl CardItem {
    /// The identity this card's (name, content) pair derives.
    pub open spec fn id_spec(&self) -> CardItemIdentify {
        id_of(self.name@, self.content@)
    }

    pub fn get_id(&self) -> (r: CardItemIdentify)
        ensures
            r == self.id_spec(),
    {
        let hashed_name = uuid_v5(NAMESPACE_OID, self.name.as_str());
        let hashed_content = uuid_v5(hashed_name, self.content.as_str());
        CardItemIdentify(hashed_name, hashed_content)
    }
}

/// Identity is a pure function of (name, content): two cards with equal name
/// and content derive the same identity, whatever else differs between them.
pub proof fn lemma_identify_deterministic(a: CardItem, b: CardItem)
    requires
        a.name@ == b.name@,
        a.content@ == b.content@,
    ensures
        a.id_spec() == b.id_spec(),
{
}

/// What the card summary shows before the card is revealed: the name, then
/// the glance line if the card has one.
pub open spec fn partial_display_spec(name: Seq<char>, glance: Option<Seq<char>>) -> Seq<char> {
    match glance {
        Some(g) => name + "\n"@ + "glance: "@ + g + "\n"@,
        None => name + "\n"@,
    }
}

pub fn partial_display(card_item: &CardItem) -> (r: String)
    ensures
        r@ == partial_display_spec(card_item.name@, match card_item.glance {
            Some(ref g) => Some(g@),
            None => None::<Seq<char>>,
        }),
{
    let mut s = String::new();
    s.append(card_item.name.as_str());
    s.append("\n");
    match card_item.glance {
        Some(ref g) => {
            s.append("glance: ");
            s.append(g.as_str());
            s.append("\n");
        },
        None => {},
    }
    s
}

/// Deck metadata, as the deck's definition file describes it.
#[derive(Debug, Clone)]
pub struct Deck {
    pub name: String,
    pub description: Option<String>,
    pub card_files: Vec<String>,
    pub algorithm: RepeatAlgorithm,
    pub fsrs_option: Option<FsrsOption>,
}

/// The scheduling algorithm a deck selects; one is supported.
#[derive(Debug, Clone, Copy, PartialEq, Eq, Structural)]
pub enum RepeatAlgorithm {
    Fsrs,
}

pub fn default_algorithm() -> (r: RepeatAlgorithm)
    ensures
        r == RepeatAlgorithm::Fsrs,
{
    RepeatAlgorithm::Fsrs
}

/// Per-deck scheduling options. The target retention is a probability in
/// (0, 1), carried textually, exactly as the deck's definition file wrote
/// it: the engine never computes with it, only hands it to the prediction
/// model, which parses it.
#[derive(Debug, Clone, PartialEq)]
pub struct FsrsOption {
    pub retention: String,
}

/// The default target retention, when the deck sets none.
pub fn default_retention() -> (r: String)
    ensures
        r@ == "0.75"@,
{
    String::from_str("0.75")
}

impl Deck {
    /// The retention this deck schedules for: its option if set, else the default.
    pub open spec fn retention_spec(&self) -> Seq<char> {
        match self.fsrs_option {
            Some(opt) => opt.retention@,
            None => "0.75"@,
        }
    }

    pub fn retention(&self) -> (r: String)
        ensures
            r@ == self.retention_spec(),
    {
        match self.fsrs_option {
            Some(ref opt) => opt.retention.clone(),
            None => default_retention(),
        }
    }
}

} // verus!

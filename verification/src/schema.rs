//! Static description of the three collections the harness provisions:
//! their names, key attributes, and secondary indexes.

use vstd::prelude::*;

verus! {

/// The key layout of a collection or of a secondary index: a partition
/// key attribute and an optional sort key attribute.
pub struct KeyLayout {
    pub partition: String,
    pub sort: Option<String>,
}

/// What a secondary index projects into itself.
pub enum IndexProjection {
    /// Only the key attributes.
    KeysOnly,
    /// The key attributes plus the named non-key attributes.
    Include(Vec<String>),
    /// Every attribute.
    All,
}

/// An alternate key ordering over a collection.
pub struct SecondaryIndex {
    pub name: String,
    pub key: KeyLayout,
    pub projection: IndexProjection,
}

/// How the collection is billed.
pub enum BillingKind {
    PayPerRequest,
    Provisioned,
}

/// The storage class of the collection.
pub enum TableClassKind {
    Standard,
    InfrequentAccess,
}

/// The full declared shape of one collection.
pub struct TableSchema {
    pub name: String,
    /// The attributes declared to the backend; in this harness every one
    /// of them is string-typed.
    pub attributes: Vec<String>,
    pub key: KeyLayout,
    pub indexes: Vec<SecondaryIndex>,
    pub billing: BillingKind,
    pub class: TableClassKind,
}

/// The declared shape of the `parties` collection: partition key `pk`,
/// no sort key, no secondary index.
pub open spec fn is_parties_schema(s: TableSchema) -> bool {
    &&& s.name@ == "parties"@
    &&& s.attributes@.len() == 1
    &&& s.attributes@[0]@ == "pk"@
    &&& s.key.partition@ == "pk"@
    &&& s.key.sort is None
    &&& s.indexes@.len() == 0
    &&& s.billing is PayPerRequest
    &&& s.class is Standard
}

/// The declared shape of the `items` collection: composite key
/// (`pk`, `sk`) and one index over (`party_id`, `event_id`) that also
/// projects the `hash` attribute.
pub open spec fn is_items_schema(s: TableSchema) -> bool {
    &&& s.name@ == "items"@
    &&& s.attributes@.len() == 4
    &&& s.attributes@[0]@ == "pk"@
    &&& s.attributes@[1]@ == "sk"@
    &&& s.attributes@[2]@ == "party_id"@
    &&& s.attributes@[3]@ == "event_id"@
    &&& s.key.partition@ == "pk"@
    &&& opt_name_view(s.key.sort) == Some("sk"@)
    &&& s.indexes@.len() == 1
    &&& s.indexes@[0].name@ == "gsi_1_hash_index"@
    &&& s.indexes@[0].key.partition@ == "party_id"@
    &&& opt_name_view(s.indexes@[0].key.sort) == Some("event_id"@)
    &&& match s.indexes@[0].projection {
        IndexProjection::Include(attrs) => attrs@.len() == 1 && attrs@[0]@ == "hash"@,
        _ => false,
    }
    &&& s.billing is PayPerRequest
    &&& s.class is Standard
}

/// The declared shape of the `filters` collection: composite key
/// (`pk`, `sk`) and one keys-only index with the key roles inverted.
pub open spec fn is_filters_schema(s: TableSchema) -> bool {
    &&& s.name@ == "filters"@
    &&& s.attributes@.len() == 2
    &&& s.attributes@[0]@ == "pk"@
    &&& s.attributes@[1]@ == "sk"@
    &&& s.key.partition@ == "pk"@
    &&& opt_name_view(s.key.sort) == Some("sk"@)
    &&& s.indexes@.len() == 1
    &&& s.indexes@[0].name@ == "gsi_1_inverted_keys"@
    &&& s.indexes@[0].key.partition@ == "sk"@
    &&& opt_name_view(s.indexes@[0].key.sort) == Some("pk"@)
    &&& s.indexes@[0].projection is KeysOnly
    &&& s.billing is PayPerRequest
    &&& s.class is Standard
}

/// The view of an optional attribute name.
pub open spec fn opt_name_view(o: Option<String>) -> Option<Seq<char>> {
    match o {
        Some(s) => Some(s@),
        None => None,
    }
}

/// Builds the schema of the `parties` collection.
pub fn parties_table_schema() -> (s: TableSchema)
    ensures
        is_parties_schema(s),
{
    let mut attributes: Vec<String> = Vec::new();
    attributes.push("pk".to_owned());
    TableSchema {
        name: "parties".to_owned(),
        attributes,
        key: KeyLayout { partition: "pk".to_owned(), sort: None },
        indexes: Vec::new(),
        billing: BillingKind::PayPerRequest,
        class: TableClassKind::Standard,
    }
}

/// Builds the schema of the `items` collection.
pub fn items_table_schema() -> (s: TableSchema)
    ensures
        is_items_schema(s),
{
    let mut attributes: Vec<String> = Vec::new();
    attributes.push("pk".to_owned());
    attributes.push("sk".to_owned());
    attributes.push("party_id".to_owned());
    attributes.push("event_id".to_owned());
    let mut projected: Vec<String> = Vec::new();
    projected.push("hash".to_owned());
    let mut indexes: Vec<SecondaryIndex> = Vec::new();
    indexes.push(
        SecondaryIndex {
            name: "gsi_1_hash_index".to_owned(),
            key: KeyLayout {
                partition: "party_id".to_owned(),
                sort: Some("event_id".to_owned()),
            },
            projection: IndexProjection::Include(projected),
        },
    );
    TableSchema {
        name: "items".to_owned(),
        attributes,
        key: KeyLayout { partition: "pk".to_owned(), sort: Some("sk".to_owned()) },
        indexes,
        billing: BillingKind::PayPerRequest,
        class: TableClassKind::Standard,
    }
}

/// Builds the schema of the `filters` collection.
pub fn filters_table_schema() -> (s: TableSchema)
    ensures
        is_filters_schema(s),
{
    let mut attributes: Vec<String> = Vec::new();
    attributes.push("pk".to_owned());
    attributes.push("sk".to_owned());
    let mut indexes: Vec<SecondaryIndex> = Vec::new();
    indexes.push(
        SecondaryIndex {
            name: "gsi_1_inverted_keys".to_owned(),
            key: KeyLayout { partition: "sk".to_owned(), sort: Some("pk".to_owned()) },
            projection: IndexProjection::KeysOnly,
        },
    );
    TableSchema {
        name: "filters".to_owned(),
        attributes,
        key: KeyLayout { partition: "pk".to_owned(), sort: Some("sk".to_owned()) },
        indexes,
        billing: BillingKind::PayPerRequest,
        class: TableClassKind::Standard,
    }
}

/// The three collection names are pairwise distinct.
pub proof fn lemma_standard_names_distinct()
    ensures
        "parties"@ != "items"@,
        "parties"@ != "filters"@,
        "items"@ != "filters"@,
{
    reveal_strlit("parties");
    reveal_strlit("items");
    reveal_strlit("filters");
    assert("parties"@.len() == 7 && "items"@.len() == 5 && "filters"@.len() == 7);
    assert("parties"@[0] == 'p' && "filters"@[0] == 'f');
}

} // verus!

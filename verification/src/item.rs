//! The domain record of the fixture dataset: an item with identifier,
//! timestamps, optional commercial attributes and a content hash, and
//! its conversion to the generic key-value representation.

use vstd::prelude::*;

use crate::generator::Generator;
use crate::record::{opt_view, record_pk, record_sk, spec_lookup, Attr, Record};
use crate::text::{
    dec_str_of, fnv64, fnv64_basis, fnv64_fold, hex_str_of, sanitize_category, sanitized,
    u64_to_dec_string, u64_to_hex16_string,
};
use crate::trusted::{
    format_rfc3339_utc, is_ascii_alnum_char, lipsum_title_string, lipsum_words_of,
    lipsum_words_string, new_uuid_string, now_unix_seconds, random_alphanumeric_string,
    random_ratio_bool, random_usize_between, rfc3339_of,
};

verus! {

/// The lifecycle state of an item.
#[derive(Clone, Copy, Debug, PartialEq, Eq, Structural)]
pub enum ItemState {
    Listed,
    Available,
    Reserved,
    Sold,
    Removed,
}

/// The upper-case name an item state is stored under.
pub open spec fn state_name(s: ItemState) -> Seq<char> {
    match s {
        ItemState::Listed => "LISTED"@,
        ItemState::Available => "AVAILABLE"@,
        ItemState::Reserved => "RESERVED"@,
        ItemState::Sold => "SOLD"@,
        ItemState::Removed => "REMOVED"@,
    }
}

/// Renders the stored name of an item state.
pub fn state_name_string(s: &ItemState) -> (r: String)
    ensures
        r@ == state_name(*s),
{
    match s {
        ItemState::Listed => "LISTED".to_owned(),
        ItemState::Available => "AVAILABLE".to_owned(),
        ItemState::Reserved => "RESERVED".to_owned(),
        ItemState::Sold => "SOLD".to_owned(),
        ItemState::Removed => "REMOVED".to_owned(),
    }
}

/// One item of the fixture dataset.  The price is held in minor
/// currency units.
pub struct ItemModel {
    pub item_id: String,
    pub created: Option<String>,
    pub source_id: Option<String>,
    pub event_id: Option<String>,
    pub state: Option<ItemState>,
    pub price: Option<u64>,
    pub category: Option<String>,
    pub name_en: Option<String>,
    pub description_en: Option<String>,
    pub name_de: Option<String>,
    pub description_de: Option<String>,
    pub url: Option<String>,
    pub image_url: Option<String>,
    pub hash: Option<String>,
}

/// The view of an optional text field, empty when absent.
pub open spec fn opt_text(o: Option<String>) -> Seq<char> {
    match o {
        Some(s) => s@,
        None => Seq::empty(),
    }
}

/// A fixture item is usable once its required fields are filled: the
/// creation timestamp, the originating party, the event identifier and
/// the content hash.
pub open spec fn well_formed(m: ItemModel) -> bool {
    &&& m.created is Some
    &&& m.source_id is Some
    &&& m.event_id is Some
    &&& m.hash is Some
}

/// The text the content hash is computed over: the item's identifying
/// and commercial fields, newline-separated, absent fields empty.  The
/// volatile fields (`created`, `event_id`) and the hash itself do not
/// contribute.
pub open spec fn canonical_text(m: ItemModel) -> Seq<char> {
    m.item_id@ + "\n"@ + opt_text(m.source_id) + "\n"@ + (match m.state {
        Some(st) => state_name(st),
        None => Seq::empty(),
    }) + "\n"@ + (match m.price {
        Some(p) => dec_str_of(p as nat),
        None => Seq::empty(),
    }) + "\n"@ + opt_text(m.category) + "\n"@ + opt_text(m.name_en) + "\n"@ + opt_text(
        m.description_en,
    ) + "\n"@ + opt_text(m.name_de) + "\n"@ + opt_text(m.description_de) + "\n"@ + opt_text(m.url)
        + "\n"@ + opt_text(m.image_url)
}

/// The content hash of an item: the 16-digit hexadecimal rendering of
/// the 64-bit FNV-1a fold of its canonical text.
pub open spec fn content_hash_view(m: ItemModel) -> Seq<char> {
    hex_str_of(fnv64(canonical_text(m), fnv64_basis()) as nat, 16)
}

/// The key and index attributes every stored item carries, in order.
pub open spec fn base_pairs(m: ItemModel) -> Seq<(Seq<char>, Seq<char>)> {
    seq![
        ("pk"@, m.item_id@),
        ("sk"@, opt_text(m.created)),
        ("party_id"@, opt_text(m.source_id)),
        ("event_id"@, opt_text(m.event_id)),
        ("hash"@, opt_text(m.hash)),
    ]
}

/// The optional attributes of an item, in order, each with its value
/// when present.
pub open spec fn optional_pairs(m: ItemModel) -> Seq<(Seq<char>, Option<Seq<char>>)> {
    seq![
        ("state"@, match m.state {
            Some(st) => Some(state_name(st)),
            None => None,
        }),
        ("price"@, match m.price {
            Some(p) => Some(dec_str_of(p as nat)),
            None => None,
        }),
        ("category"@, opt_view(m.category)),
        ("name_en"@, opt_view(m.name_en)),
        ("description_en"@, opt_view(m.description_en)),
        ("name_de"@, opt_view(m.name_de)),
        ("description_de"@, opt_view(m.description_de)),
        ("url"@, opt_view(m.url)),
        ("image_url"@, opt_view(m.image_url)),
    ]
}

/// Keeps, in order, the entries whose value is present.
pub open spec fn flatten_present(s: Seq<(Seq<char>, Option<Seq<char>>)>) -> Seq<
    (Seq<char>, Seq<char>),
>
    decreases s.len(),
{
    if s.len() == 0 {
        Seq::empty()
    } else {
        (match s[0].1 {
            Some(v) => seq![(s[0].0, v)],
            None => Seq::empty(),
        }) + flatten_present(s.drop_first())
    }
}

/// The attributes an item is stored under, in order: the key and index
/// attributes first, then each optional attribute that is present.
pub open spec fn item_attrs_view(m: ItemModel) -> Seq<(Seq<char>, Seq<char>)> {
    base_pairs(m) + flatten_present(optional_pairs(m))
}

/// The name-value view of one stored attribute.
pub open spec fn attr_view(a: Attr) -> (Seq<char>, Seq<char>) {
    (a.name@, a.value@)
}

impl ItemModel {
    /// Whether the required fields are filled.
    pub fn is_well_formed(&self) -> (b: bool)
        ensures
            b == well_formed(*self),
    {
        self.created.is_some() && self.source_id.is_some() && self.event_id.is_some()
            && self.hash.is_some()
    }

    /// Computes the item's content hash.
    pub fn content_hash(&self) -> (r: String)
        ensures
            r@ == content_hash_view(*self),
    {
        let mut text = self.item_id.clone();
        text.append("\n");
        match &self.source_id {
            Some(v) => text.append(v.as_str()),
            None => (),
        }
        text.append("\n");
        match &self.state {
            Some(st) => {
                let sn = state_name_string(st);
                text.append(sn.as_str());
            },
            None => (),
        }
        text.append("\n");
        match &self.price {
            Some(p) => {
                let pd = u64_to_dec_string(*p);
                text.append(pd.as_str());
            },
            None => (),
        }
        text.append("\n");
        match &self.category {
            Some(v) => text.append(v.as_str()),
            None => (),
        }
        text.append("\n");
        match &self.name_en {
            Some(v) => text.append(v.as_str()),
            None => (),
        }
        text.append("\n");
        match &self.description_en {
            Some(v) => text.append(v.as_str()),
            None => (),
        }
        text.append("\n");
        match &self.name_de {
            Some(v) => text.append(v.as_str()),
            None => (),
        }
        text.append("\n");
        match &self.description_de {
            Some(v) => text.append(v.as_str()),
            None => (),
        }
        text.append("\n");
        match &self.url {
            Some(v) => text.append(v.as_str()),
            None => (),
        }
        text.append("\n");
        match &self.image_url {
            Some(v) => text.append(v.as_str()),
            None => (),
        }
        proof {
            assert(text@ == canonical_text(*self));
        }
        let folded = fnv64_fold(text.as_str(), 14695981039346656037u64);
        u64_to_hex16_string(folded)
    }

    /// Converts the item to its stored key-value record: `pk` is the
    /// item identifier, `sk` the creation timestamp, and the index
    /// attributes and present optional attributes follow.
    pub fn to_record(&self) -> (r: Record)
        requires
            well_formed(*self),
        ensures
            r@.map_values(|a: Attr| attr_view(a)) == item_attrs_view(*self),
            record_pk(r) == Some(self.item_id@),
            record_sk(r) == Some(self.created.unwrap()@),
    {
        let mut attrs: Vec<Attr> = Vec::new();
        attrs.push(Attr { name: "pk".to_owned(), value: self.item_id.clone() });
        attrs.push(Attr { name: "sk".to_owned(), value: clone_opt_string_or_empty(&self.created) });
        attrs.push(
            Attr { name: "party_id".to_owned(), value: clone_opt_string_or_empty(&self.source_id) },
        );
        attrs.push(
            Attr { name: "event_id".to_owned(), value: clone_opt_string_or_empty(&self.event_id) },
        );
        attrs.push(Attr { name: "hash".to_owned(), value: clone_opt_string_or_empty(&self.hash) });
        proof {
            assert(attrs@.map_values(|a: Attr| attr_view(a)) =~= base_pairs(*self));
        }

        // The optional attributes, each rendered when present.
        let mut opts: Vec<(String, Option<String>)> = Vec::new();
        opts.push(
            (
                "state".to_owned(),
                match &self.state {
                    Some(st) => Some(state_name_string(st)),
                    None => None,
                },
            ),
        );
        opts.push(
            (
                "price".to_owned(),
                match &self.price {
                    Some(p) => Some(u64_to_dec_string(*p)),
                    None => None,
                },
            ),
        );
        opts.push(("category".to_owned(), clone_opt_string(&self.category)));
        opts.push(("name_en".to_owned(), clone_opt_string(&self.name_en)));
        opts.push(("description_en".to_owned(), clone_opt_string(&self.description_en)));
        opts.push(("name_de".to_owned(), clone_opt_string(&self.name_de)));
        opts.push(("description_de".to_owned(), clone_opt_string(&self.description_de)));
        opts.push(("url".to_owned(), clone_opt_string(&self.url)));
        opts.push(("image_url".to_owned(), clone_opt_string(&self.image_url)));
        let ghost ops = optional_pairs(*self);
        proof {
            assert(opts@.map_values(|e: (String, Option<String>)| (e.0@, opt_view(e.1))) =~= ops);
        }

        // Append the present optional attributes in order.
        let mut rem = opts;
        let ghost total = ops.len() as int;
        let mut i: usize = 0;
        proof {
            assert(rem@.map_values(|e: (String, Option<String>)| (e.0@, opt_view(e.1)))
                =~= ops.skip(0));
            assert(base_pairs(*self) + flatten_present(ops) =~= attrs@.map_values(
                |a: Attr| attr_view(a),
            ) + flatten_present(ops.skip(0)));
        }
        while rem.len() > 0
            invariant
                rem@.map_values(|e: (String, Option<String>)| (e.0@, opt_view(e.1))) == ops.skip(
                    i as int,
                ),
                0 <= i <= total,
                total == ops.len(),
                total == 9,
                total - i == rem@.len(),
                base_pairs(*self) + flatten_present(ops) == attrs@.map_values(
                    |a: Attr| attr_view(a),
                ) + flatten_present(ops.skip(i as int)),
            decreases rem@.len(),
        {
            let ghost pre_rem = rem@;
            let ghost pre_map = attrs@.map_values(|a: Attr| attr_view(a));
            let entry = rem.remove(0);
            proof {
                assert(rem@ =~= pre_rem.drop_first());
                assert(rem@.map_values(|e: (String, Option<String>)| (e.0@, opt_view(e.1)))
                    =~= pre_rem.map_values(
                    |e: (String, Option<String>)| (e.0@, opt_view(e.1)),
                ).drop_first());
                assert(pre_rem.map_values(|e: (String, Option<String>)| (e.0@, opt_view(e.1)))[0]
                    == ops.skip(i as int)[0]);
                assert(ops.skip(i as int).drop_first() =~= ops.skip(i + 1));
                assert(flatten_present(ops.skip(i as int)) == (match ops.skip(i as int)[0].1 {
                    Some(v) => seq![(ops.skip(i as int)[0].0, v)],
                    None => Seq::<(Seq<char>, Seq<char>)>::empty(),
                }) + flatten_present(ops.skip(i + 1)));
            }
            match entry.1 {
                Some(v) => {
                    let ghost hd = ops.skip(i as int)[0];
                    let ghost flat_hd = (hd.0, hd.1.unwrap());
                    attrs.push(Attr { name: entry.0, value: v });
                    proof {
                        assert(attrs@.map_values(|a: Attr| attr_view(a)) =~= pre_map.push(
                            flat_hd,
                        ));
                        assert(pre_map + (seq![flat_hd] + flatten_present(ops.skip(i + 1)))
                            =~= attrs@.map_values(|a: Attr| attr_view(a)) + flatten_present(
                            ops.skip(i + 1),
                        ));
                    }
                },
                None => {
                    proof {
                        assert(ops.skip(i as int)[0].1 is None);
                    }
                },
            }
            i = i + 1;
        }
        proof {
            assert(ops.skip(total) =~= Seq::<(Seq<char>, Option<Seq<char>>)>::empty());
            assert(flatten_present(ops.skip(total))
                == Seq::<(Seq<char>, Seq<char>)>::empty());
            assert(attrs@.map_values(|a: Attr| attr_view(a)) + Seq::<
                (Seq<char>, Seq<char>),
            >::empty() =~= attrs@.map_values(|a: Attr| attr_view(a)));
        }
        let r = Record { attrs };
        proof {
            assert(r@.map_values(|a: Attr| attr_view(a)) == item_attrs_view(*self));
            lemma_item_record_keys(r, *self);
        }
        r
    }
}

/// Clones the text of an optional field, the empty string when absent.
fn clone_opt_string_or_empty(o: &Option<String>) -> (r: String)
    ensures
        r@ == opt_text(*o),
{
    match o {
        Some(s) => s.clone(),
        None => String::new(),
    }
}

/// Clones an optional text field.
fn clone_opt_string(o: &Option<String>) -> (r: Option<String>)
    ensures
        opt_view(r) == opt_view(*o),
{
    match o {
        Some(s) => Some(s.clone()),
        None => None,
    }
}

/// A record whose attributes are an item's stored view starts with the
/// `pk` and `sk` attributes, so its composite key is the item's
/// identifier and creation timestamp.
pub proof fn lemma_item_record_keys(r: Record, m: ItemModel)
    requires
        r@.map_values(|a: Attr| attr_view(a)) == item_attrs_view(m),
    ensures
        record_pk(r) == Some(m.item_id@),
        record_sk(r) == Some(opt_text(m.created)),
{
    reveal_strlit("pk");
    reveal_strlit("sk");
    let pairs = r@.map_values(|a: Attr| attr_view(a));
    assert(pairs.len() == r@.len());
    assert(item_attrs_view(m).len() >= 5);
    assert(pairs[0] == base_pairs(m)[0]);
    assert(pairs[1] == base_pairs(m)[1]);
    assert(r@[0].name@ == "pk"@ && r@[0].value@ == m.item_id@);
    assert(r@[1].name@ == "sk"@ && r@[1].value@ == opt_text(m.created));
    assert("pk"@[0] == 'p' && "sk"@[0] == 's');
    assert(r@[0].name@ != "sk"@);
    assert(spec_lookup(r@, "pk"@) == Some(m.item_id@));
    assert(r@.drop_first()[0] == r@[1]);
    assert(spec_lookup(r@.drop_first(), "sk"@) == Some(opt_text(m.created)));
    assert(spec_lookup(r@, "sk"@) == Some(opt_text(m.created)));
}

/// Converts the fixture items to stored records; refused (with `None`)
/// exactly when some item lacks a required field.
pub fn fixture_records(items: &Vec<ItemModel>) -> (res: Option<Vec<Record>>)
    ensures
        match res {
            Some(recs) => {
                &&& forall|i: int| 0 <= i < items@.len() ==> well_formed(#[trigger] items@[i])
                &&& recs@.len() == items@.len()
                &&& forall|i: int|
                    0 <= i < recs@.len() ==> record_pk(#[trigger] recs@[i]) == Some(
                        items@[i].item_id@,
                    ) && record_sk(recs@[i]) == Some(items@[i].created.unwrap()@)
                &&& forall|i: int|
                    0 <= i < recs@.len() ==> (#[trigger] recs@[i])@.map_values(
                        |a: Attr| attr_view(a),
                    ) == item_attrs_view(items@[i])
            },
            None => exists|i: int| 0 <= i < items@.len() && !well_formed(#[trigger] items@[i]),
        },
{
    let mut recs: Vec<Record> = Vec::new();
    let mut i: usize = 0;
    while i < items.len()
        invariant
            i <= items@.len(),
            recs@.len() == i,
            forall|j: int| 0 <= j < i ==> well_formed(#[trigger] items@[j]),
            forall|j: int|
                0 <= j < i ==> record_pk(#[trigger] recs@[j]) == Some(items@[j].item_id@)
                    && record_sk(recs@[j]) == Some(items@[j].created.unwrap()@),
            forall|j: int|
                0 <= j < i ==> (#[trigger] recs@[j])@.map_values(|a: Attr| attr_view(a))
                    == item_attrs_view(items@[j]),
        decreases items@.len() - i,
    {
        if !items[i].is_well_formed() {
            return None;
        }
        recs.push(items[i].to_record());
        i = i + 1;
    }
    Some(recs)
}

/// Renders a unix timestamp as its RFC 3339 form, `None` outside the
/// representable range (the epoch through year 9999).
pub fn format_timestamp(unix_seconds: i64) -> (r: Option<String>)
    ensures
        match r {
            Some(s) => 0 <= unix_seconds <= 253402300799 && s@ == rfc3339_of(unix_seconds)
                && s@.len() == 20,
            None => !(0 <= unix_seconds <= 253402300799),
        },
{
    if 0 <= unix_seconds && unix_seconds <= 253402300799 {
        Some(format_rfc3339_utc(unix_seconds))
    } else {
        None
    }
}

/// Where a randomly aged timestamp lands: the clock reading clamped to
/// the RFC 3339-representable range, moved `offset` seconds into the
/// past, and not below the epoch.
pub open spec fn spec_past_instant(now: int, offset: int) -> int {
    let clamped = if now < 0 {
        0int
    } else if now > 253402300799 {
        253402300799int
    } else {
        now
    };
    if clamped >= offset {
        clamped - offset
    } else {
        0int
    }
}

/// Clamps a clock reading into the RFC 3339-representable range and
/// moves it `offset` seconds into the past, not below the epoch.
pub fn past_instant(now: i64, offset: i64) -> (ts: i64)
    requires
        0 <= offset,
    ensures
        ts == spec_past_instant(now as int, offset as int),
        0 <= ts <= 253402300799,
{
    let clamped: i64 = if now < 0 {
        0
    } else if now > 253402300799 {
        253402300799
    } else {
        now
    };
    if clamped >= offset {
        clamped - offset
    } else {
        0
    }
}

/// A random RFC 3339 timestamp: the instant lies at most five years of
/// seconds before the (clamped) clock reading, and not before the
/// epoch.
pub fn random_iso8601_timestamp() -> (r: String)
    ensures
        exists|now: i64, offset: i64|
            0 <= offset <= 157766400 && r@ == #[trigger] rfc3339_of(
                spec_past_instant(now as int, offset as int) as i64,
            ),
        r@.len() == 20,
{
    let now = now_unix_seconds();
    // up to five years of seconds in the past
    let offset = random_usize_between(0, 157766401) as i64;
    let ts = past_instant(now, offset);
    let r = format_rfc3339_utc(ts);
    proof {
        assert(0 <= offset <= 157766400 && r@ == rfc3339_of(
            spec_past_instant(now as int, offset as int) as i64,
        ));
    }
    r
}

/// Draws `t` with probability `numerator / denominator`, `None`
/// otherwise; a full ratio is certain to yield `t`, a zero numerator
/// certain to yield `None`.
pub fn rand_opt<T>(t: T, numerator: u32, denominator: u32) -> (r: Option<T>)
    requires
        0 < denominator,
        numerator <= denominator,
    ensures
        match r {
            Some(v) => v == t,
            None => true,
        },
        numerator == denominator ==> r == Some(t),
        numerator == 0 ==> r is None,
{
    if random_ratio_bool(numerator, denominator) {
        Some(t)
    } else {
        None
    }
}

/// Draws one of the item states uniformly.
pub fn random_item_state() -> ItemState {
    match random_usize_between(0, 5) {
        0 => ItemState::Listed,
        1 => ItemState::Available,
        2 => ItemState::Reserved,
        3 => ItemState::Sold,
        _ => ItemState::Removed,
    }
}

/// What the generator guarantees of every item it produces.
///
/// The required fields are filled; source and url carry the same base
/// address of the shape `https://` + ten alphanumerics + `.com`; the
/// item identifier is that address joined to a 36-character identifier
/// by `#`; the creation timestamp is the 20-character RFC 3339 form of
/// an instant at most five years of seconds before the clamped clock
/// reading; the event identifier is the item identifier joined to the
/// creation timestamp by `#`; a present price lies in `[500, 5000000)`
/// minor units; a present category is the sanitized lipsum text of 2
/// to 6 words; a present description is the lipsum text of 100 to 499
/// words; a present image url wraps the base address and the item's
/// 36-character identifier; and the hash is the item's own content
/// hash.
pub open spec fn generated_item(r: ItemModel) -> bool {
    &&& well_formed(r)
    &&& r.url == r.source_id
    &&& opt_text(r.source_id).len() == 22
    &&& opt_text(r.source_id).subrange(0, 8) == "https://"@
    &&& opt_text(r.source_id).subrange(18, 22) == ".com"@
    &&& forall|i: int| 8 <= i < 18 ==> is_ascii_alnum_char(#[trigger] opt_text(r.source_id)[i])
    &&& r.item_id@.len() == 59
    &&& r.item_id@.subrange(0, 22) == opt_text(r.source_id)
    &&& r.item_id@[22] == '#'
    &&& opt_text(r.created).len() == 20
    &&& exists|now: i64, offset: i64|
        0 <= offset <= 157766400 && opt_text(r.created) == #[trigger] rfc3339_of(
            spec_past_instant(now as int, offset as int) as i64,
        )
    &&& opt_text(r.event_id) == r.item_id@ + "#"@ + opt_text(r.created)
    &&& match r.price {
        Some(p) => 500 <= p < 5000000,
        None => true,
    }
    &&& r.category is Some ==> exists|n: usize|
        2 <= n < 7 && opt_text(r.category) == #[trigger] sanitized(lipsum_words_of(n))
    &&& r.description_en is Some ==> exists|n: usize|
        100 <= n < 500 && opt_text(r.description_en) == #[trigger] lipsum_words_of(n)
    &&& r.description_de is Some ==> exists|n: usize|
        100 <= n < 500 && opt_text(r.description_de) == #[trigger] lipsum_words_of(n)
    &&& r.image_url is Some ==> {
        &&& opt_text(r.image_url).len() == 71
        &&& opt_text(r.image_url).subrange(0, 8) == "https://"@
        &&& opt_text(r.image_url).subrange(8, 30) == opt_text(r.source_id)
        &&& opt_text(r.image_url)[30] == '/'
        &&& opt_text(r.image_url).subrange(31, 67) == r.item_id@.subrange(23, 59)
        &&& opt_text(r.image_url).subrange(67, 71) == ".png"@
    }
    &&& opt_text(r.hash) == content_hash_view(r)
}

impl Generator for ItemModel {
    /// A random item: identifier, source and url share a random base
    /// address, the required fields are always filled, and each
    /// optional attribute is present four times in five.
    fn generate() -> (r: Self)
        ensures
            generated_item(r),
    {
        proof {
            reveal_strlit("https://");
            reveal_strlit(".com");
            reveal_strlit("#");
            reveal_strlit("/");
            reveal_strlit(".png");
        }
        let alnum = random_alphanumeric_string(10);
        let base_url = "https://".to_owned().concat(alnum.as_str()).concat(".com");
        proof {
            assert(base_url@.len() == 22);
            assert(base_url@.subrange(0, 8) =~= "https://"@);
            assert(base_url@.subrange(18, 22) =~= ".com"@);
            assert(forall|i: int|
                8 <= i < 18 ==> #[trigger] base_url@[i] == alnum@[i - 8]);
        }
        let uuid = new_uuid_string();
        let item_id = base_url.clone().concat("#").concat(uuid.as_str());
        proof {
            assert(item_id@.len() == 59);
            assert(item_id@.subrange(0, 22) =~= base_url@);
            assert(item_id@[22] == '#');
            assert(item_id@.subrange(23, 59) =~= uuid@);
        }
        let created = random_iso8601_timestamp();
        let event_id = item_id.clone().concat("#").concat(created.as_str());
        let state = rand_opt(random_item_state(), 4, 5);
        let price = rand_opt(random_usize_between(500, 5000000) as u64, 4, 5);
        let category_words = random_usize_between(2, 7);
        let category = rand_opt(
            sanitize_category(lipsum_words_string(category_words).as_str()),
            4,
            5,
        );
        let name_en = rand_opt(lipsum_title_string(), 4, 5);
        let description_en_words = random_usize_between(100, 500);
        let description_en = rand_opt(lipsum_words_string(description_en_words), 4, 5);
        let name_de = rand_opt(lipsum_title_string(), 4, 5);
        let description_de_words = random_usize_between(100, 500);
        let description_de = rand_opt(lipsum_words_string(description_de_words), 4, 5);
        let image_text = "https://".to_owned().concat(base_url.as_str()).concat("/").concat(
            uuid.as_str(),
        ).concat(".png");
        proof {
            assert(image_text@.len() == 71);
            assert(image_text@.subrange(0, 8) =~= "https://"@);
            assert(image_text@.subrange(8, 30) =~= base_url@);
            assert(image_text@[30] == '/');
            assert(image_text@.subrange(31, 67) =~= uuid@);
            assert(image_text@.subrange(67, 71) =~= ".png"@);
        }
        let image_url = rand_opt(image_text, 4, 5);
        let mut item = ItemModel {
            item_id,
            created: Some(created),
            source_id: Some(base_url.clone()),
            event_id: Some(event_id),
            state,
            price,
            category,
            name_en,
            description_en,
            name_de,
            description_de,
            url: Some(base_url),
            image_url,
            hash: None,
        };
        let h = item.content_hash();
        let ghost pre = item;
        item.hash = Some(h);
        proof {
            assert(canonical_text(item) == canonical_text(pre));
            assert(opt_text(item.hash) == content_hash_view(item));
            assert(opt_text(item.event_id) =~= item.item_id@ + "#"@ + opt_text(item.created));
            if item.category is Some {
                assert(2 <= category_words < 7 && opt_text(item.category) == sanitized(
                    lipsum_words_of(category_words),
                ));
            }
            if item.description_en is Some {
                assert(100 <= description_en_words < 500 && opt_text(item.description_en)
                    == lipsum_words_of(description_en_words));
            }
            if item.description_de is Some {
                assert(100 <= description_de_words < 500 && opt_text(item.description_de)
                    == lipsum_words_of(description_de_words));
            }
            assert(generated_item(item));
        }
        item
    }
}

} // verus!

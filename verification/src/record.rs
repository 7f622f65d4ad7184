//! Generic key-value records, as the store sees them.
//!
//! A record is a list of named string attributes; the composite primary
//! key of a record is its `pk` attribute together with its optional `sk`
//! attribute.

use vstd::prelude::*;

verus! {

/// One named attribute of a stored record.
pub struct Attr {
    pub name: String,
    pub value: String,
}

impl Clone for Attr {
    fn clone(&self) -> (r: Self)
        ensures
            r == *self,
    {
        Attr { name: self.name.clone(), value: self.value.clone() }
    }
}

/// A record in the generic key-value representation: a list of named
/// attributes, looked up first match wins.  Its view is that list.
pub struct Record {
    pub attrs: Vec<Attr>,
}

impl View for Record {
    type V = Seq<Attr>;

    open spec fn view(&self) -> Seq<Attr> {
        self.attrs@
    }
}

impl Clone for Record {
    fn clone(&self) -> (r: Self)
        ensures
            r@ == self@,
    {
        let mut attrs: Vec<Attr> = Vec::new();
        let mut i: usize = 0;
        while i < self.attrs.len()
            invariant
                i <= self.attrs.len(),
                attrs@ =~= self.attrs@.take(i as int),
            decreases self.attrs.len() - i,
        {
            attrs.push(self.attrs[i].clone());
            i = i + 1;
        }
        proof {
            assert(attrs@ =~= self.attrs@);
        }
        Record { attrs }
    }
}

/// The value of the first attribute called `name`, if any.
pub open spec fn spec_lookup(attrs: Seq<Attr>, name: Seq<char>) -> Option<Seq<char>>
    decreases attrs.len(),
{
    if attrs.len() == 0 {
        None
    } else if attrs[0].name@ == name {
        Some(attrs[0].value@)
    } else {
        spec_lookup(attrs.drop_first(), name)
    }
}

/// String equality against a string slice, usable from exec code.
pub fn str_eq(a: &String, b: &str) -> (r: bool)
    ensures
        r == (a@ == b@),
{
    let bo: String = b.to_owned();
    *a == bo
}

/// Finds the value of the first attribute called `name`.
pub fn lookup_attr<'a>(rec: &'a Record, name: &str) -> (res: Option<&'a String>)
    ensures
        match res {
            Some(v) => spec_lookup(rec@, name@) == Some(v@),
            None => spec_lookup(rec@, name@) is None,
        },
{
    proof {
        assert(rec.attrs@.skip(0) =~= rec.attrs@);
    }
    let mut i: usize = 0;
    while i < rec.attrs.len()
        invariant
            i <= rec.attrs.len(),
            spec_lookup(rec.attrs@.skip(i as int), name@) == spec_lookup(rec.attrs@, name@),
        decreases rec.attrs.len() - i,
    {
        if str_eq(&rec.attrs[i].name, name) {
            proof {
                assert(rec.attrs@.skip(i as int)[0] == rec.attrs@[i as int]);
            }
            return Some(&rec.attrs[i].value);
        }
        proof {
            assert(rec.attrs@.skip(i as int).drop_first() =~= rec.attrs@.skip(i + 1));
        }
        i = i + 1;
    }
    None
}

/// The composite key a record carries: its partition key attribute and
/// its optional sort key attribute.
pub struct RecordKey {
    pub pk: String,
    pub sk: Option<String>,
}

impl Clone for RecordKey {
    fn clone(&self) -> (r: Self)
        ensures
            r == *self,
    {
        let sk = match &self.sk {
            Some(s) => Some(s.clone()),
            None => None,
        };
        RecordKey { pk: self.pk.clone(), sk }
    }
}

/// The view of an optional string.
pub open spec fn opt_view(o: Option<String>) -> Option<Seq<char>> {
    match o {
        Some(s) => Some(s@),
        None => None,
    }
}

/// The partition key attribute of a record, if present.
pub open spec fn record_pk(r: Record) -> Option<Seq<char>> {
    spec_lookup(r@, "pk"@)
}

/// The sort key attribute of a record, if present.
pub open spec fn record_sk(r: Record) -> Option<Seq<char>> {
    spec_lookup(r@, "sk"@)
}

/// A record has a usable primary key exactly when it has a `pk` attribute.
pub open spec fn has_pk(r: Record) -> bool {
    record_pk(r) is Some
}

/// The composite key of a record, as a pair of attribute views.
pub open spec fn record_key_view(r: Record) -> (Option<Seq<char>>, Option<Seq<char>>) {
    (record_pk(r), record_sk(r))
}

/// The composite key a `RecordKey` denotes, as a pair of attribute views.
pub open spec fn rk_view(k: RecordKey) -> (Option<Seq<char>>, Option<Seq<char>>) {
    (Some(k.pk@), opt_view(k.sk))
}

/// Whether a record's composite key equals the given key.
pub open spec fn key_matches(r: Record, k: RecordKey) -> bool {
    record_key_view(r) == rk_view(k)
}

/// Whether two records carry the same composite key.
pub open spec fn same_key(a: Record, b: Record) -> bool {
    record_key_view(a) == record_key_view(b)
}

/// Extracts the composite primary key of a record as a key-only record:
/// the result keeps the `pk` and `sk` attributes, and nothing else.
pub fn extract_primary_key(item: &Record) -> (key: Record)
    ensures
        spec_lookup(key@, "pk"@) == record_pk(*item),
        spec_lookup(key@, "sk"@) == record_sk(*item),
        key@.len() <= 2,
        forall|i: int|
            0 <= i < key@.len() ==> key@[i].name@ == "pk"@ || key@[i].name@ == "sk"@,
{
    proof {
        reveal_strlit("pk");
        reveal_strlit("sk");
        assert("pk"@[0] == 'p' && "sk"@[0] == 's');
        assert("pk"@ != "sk"@);
    }
    let pk_opt = lookup_attr(item, "pk");
    let sk_opt = lookup_attr(item, "sk");
    let mut attrs: Vec<Attr> = Vec::new();
    if let Some(pk) = pk_opt {
        attrs.push(Attr { name: "pk".to_owned(), value: pk.clone() });
    }
    if let Some(sk) = sk_opt {
        attrs.push(Attr { name: "sk".to_owned(), value: sk.clone() });
    }
    let key = Record { attrs };
    proof {
        reveal_with_fuel(spec_lookup, 3);
        let ks = key@;
        if pk_opt is Some && sk_opt is Some {
            assert(ks.len() == 2);
            assert(ks.drop_first() =~= seq![ks[1]]);
            assert(ks.drop_first().drop_first() =~= Seq::<Attr>::empty());
            assert(spec_lookup(ks, "pk"@) == record_pk(*item));
            assert(spec_lookup(ks, "sk"@) == record_sk(*item));
        } else if pk_opt is Some {
            assert(ks.len() == 1);
            assert(ks.drop_first() =~= Seq::<Attr>::empty());
            assert(spec_lookup(ks, "pk"@) == record_pk(*item));
            assert(spec_lookup(ks, "sk"@) is None);
        } else if sk_opt is Some {
            assert(ks.len() == 1);
            assert(ks.drop_first() =~= Seq::<Attr>::empty());
            assert(spec_lookup(ks, "pk"@) is None);
            assert(spec_lookup(ks, "sk"@) == record_sk(*item));
        } else {
            assert(ks.len() == 0);
        }
    }
    key
}

/// Extracts the composite key of a record in structured form; `None`
/// exactly when the record has no `pk` attribute.
pub fn record_key_of(item: &Record) -> (k: Option<RecordKey>)
    ensures
        match k {
            Some(kk) => key_matches(*item, kk),
            None => !has_pk(*item),
        },
{
    match lookup_attr(item, "pk") {
        None => None,
        Some(pk) => {
            let sk = match lookup_attr(item, "sk") {
                Some(s) => Some(s.clone()),
                None => None,
            };
            Some(RecordKey { pk: pk.clone(), sk })
        },
    }
}

/// Whether the record's composite key equals the given key.
pub fn key_matches_exec(r: &Record, k: &RecordKey) -> (b: bool)
    ensures
        b == key_matches(*r, *k),
{
    let pk_ok = match lookup_attr(r, "pk") {
        Some(v) => str_eq(v, k.pk.as_str()),
        None => false,
    };
    if !pk_ok {
        return false;
    }
    match (lookup_attr(r, "sk"), &k.sk) {
        (Some(v), Some(ks)) => str_eq(v, ks.as_str()),
        (None, None) => true,
        _ => false,
    }
}

/// Whether some key in `keys` equals the record's composite key.
pub open spec fn spec_covered(r: Record, keys: Seq<RecordKey>) -> bool {
    exists|i: int| 0 <= i < keys.len() && key_matches(r, keys[i])
}

/// Whether some key in `keys` equals the record's composite key.
pub fn covered_by(r: &Record, keys: &Vec<RecordKey>) -> (b: bool)
    ensures
        b == spec_covered(*r, keys@),
{
    let mut i: usize = 0;
    while i < keys.len()
        invariant
            i <= keys.len(),
            forall|j: int| 0 <= j < i ==> !key_matches(*r, keys@[j]),
        decreases keys.len() - i,
    {
        if key_matches_exec(r, &keys[i]) {
            return true;
        }
        i = i + 1;
    }
    false
}

} // verus!

//! The data items that devices exchange with this tool, encoded in CBOR.

use vstd::prelude::*;

verus! {

/// A CBOR data item, as the `ciborium` data model describes it. An integer
/// is one of the CBOR range, -2^64 to 2^64 - 1; a floating-point number is
/// kept as the bit pattern of its `f64`.
pub enum CborValue {
    Integer(i128),
    Bytes(Vec<u8>),
    Float(u64),
    Text(String),
    Bool(bool),
    Null,
    Tag(u64, Box<CborValue>),
    Array(Vec<CborValue>),
    Mapping(Vec<(CborValue, CborValue)>),
}

/// The mathematical model of a CBOR data item.
pub enum Cbor {
    Integer(int),
    Bytes(Seq<u8>),
    Float(u64),
    Text(Seq<char>),
    Bool(bool),
    Null,
    Tag(u64, Box<Cbor>),
    Array(Seq<Cbor>),
    Mapping(Seq<(Cbor, Cbor)>),
}

impl CborValue {
    pub open spec fn model(&self) -> Cbor
        decreases self,
    {
        match self {
            CborValue::Integer(i) => Cbor::Integer(*i as int),
            CborValue::Bytes(b) => Cbor::Bytes(b@),
            CborValue::Float(f) => Cbor::Float(*f),
            CborValue::Text(t) => Cbor::Text(t@),
            CborValue::Bool(b) => Cbor::Bool(*b),
            CborValue::Null => Cbor::Null,
            CborValue::Tag(t, v) => Cbor::Tag(*t, Box::new(v.model())),
            CborValue::Array(items) => Cbor::Array(
                Seq::new(items@.len(), |i: int| if 0 <= i < items@.len() { items@[i].model() } else { Cbor::Null }),
            ),
            CborValue::Mapping(entries) => Cbor::Mapping(
                Seq::new(entries@.len(), |i: int|
                    if 0 <= i < entries@.len() {
                        (entries@[i].0.model(), entries@[i].1.model())
                    } else {
                        (Cbor::Null, Cbor::Null)
                    }),
            ),
        }
    }
}

impl CborValue {
    /// A copy of the data item, down to its innermost items.
    #[verifier::loop_isolation(false)]
    pub fn duplicate(&self) -> (res: CborValue)
        ensures
            res.model() == self.model(),
        decreases self,
    {
        match self {
            CborValue::Integer(i) => CborValue::Integer(*i),
            CborValue::Bytes(b) => CborValue::Bytes(b.clone()),
            CborValue::Float(f) => CborValue::Float(*f),
            CborValue::Text(t) => CborValue::Text(t.clone()),
            CborValue::Bool(b) => CborValue::Bool(*b),
            CborValue::Null => CborValue::Null,
            CborValue::Tag(t, v) => CborValue::Tag(*t, Box::new((**v).duplicate())),
            CborValue::Array(items) => {
                let mut out: Vec<CborValue> = Vec::new();
                let mut i: usize = 0;
                while i < items.len()
                    invariant
                        i <= items@.len(),
                        out@.len() == i,
                        forall|j: int| 0 <= j < i ==> #[trigger] out@[j].model() == items@[j].model(),
                    decreases items@.len() - i,
                {
                    assert(decreases_to!(*items => items@));
                    assert(decreases_to!(items@ => items@[i as int]));
                    assert(decreases_to!(self => items@[i as int]));
                    out.push(items[i].duplicate());
                    i = i + 1;
                }
                let res = CborValue::Array(out);
                assert(res.model()->Array_0.len() == out@.len());
                assert(self.model()->Array_0.len() == items@.len());
                assert(forall|k: int| 0 <= k < out@.len() ==> res.model()->Array_0[k] == out@[k].model());
                assert(forall|k: int| 0 <= k < out@.len() ==> self.model()->Array_0[k] == items@[k].model());
                assert(res.model()->Array_0 =~= self.model()->Array_0);
                res
            },
            CborValue::Mapping(entries) => {
                let mut out: Vec<(CborValue, CborValue)> = Vec::new();
                let mut i: usize = 0;
                while i < entries.len()
                    invariant
                        i <= entries@.len(),
                        out@.len() == i,
                        forall|j: int| 0 <= j < i ==> #[trigger] out@[j].0.model() == entries@[j].0.model()
                            && out@[j].1.model() == entries@[j].1.model(),
                    decreases entries@.len() - i,
                {
                    assert(decreases_to!(*entries => entries@));
                    assert(decreases_to!(entries@ => entries@[i as int]));
                    assert(decreases_to!(self => entries@[i as int].0));
                    assert(decreases_to!(self => entries@[i as int].1));
                    let k = entries[i].0.duplicate();
                    let v = entries[i].1.duplicate();
                    out.push((k, v));
                    i = i + 1;
                }
                let res = CborValue::Mapping(out);
                assert(res.model()->Mapping_0.len() == out@.len());
                assert(self.model()->Mapping_0.len() == entries@.len());
                assert(forall|k: int| 0 <= k < out@.len() ==> res.model()->Mapping_0[k]
                    == (out@[k].0.model(), out@[k].1.model()));
                assert(forall|k: int| 0 <= k < out@.len() ==> self.model()->Mapping_0[k]
                    == (entries@[k].0.model(), entries@[k].1.model()));
                assert(res.model()->Mapping_0 =~= self.model()->Mapping_0);
                res
            },
        }
    }
}

/// `a` comes before `b` in the order of `String`: byte by byte on their
/// UTF-8 encodings, which is character by character on their code points,
/// a proper prefix first.
pub open spec fn text_less(a: Seq<char>, b: Seq<char>) -> bool
    decreases a.len(),
{
    if a.len() == 0 {
        b.len() > 0
    } else if b.len() == 0 {
        false
    } else if a[0] == b[0] {
        text_less(a.drop_first(), b.drop_first())
    } else {
        (a[0] as u32) < (b[0] as u32)
    }
}

/// The keys of the pairs come in strictly ascending order (so no key is
/// repeated).
pub open spec fn keys_ascending<V>(pairs: Seq<(Seq<char>, V)>) -> bool {
    forall|i: int, j: int| 0 <= i < j < pairs.len() ==> text_less(pairs[i].0, pairs[j].0)
}

/// Text pairs taken by their views.
pub open spec fn text_pairs(v: Seq<(String, String)>) -> Seq<(Seq<char>, Seq<char>)> {
    Seq::new(v.len(), |i: int| (v[i].0@, v[i].1@))
}

/// A directory of services, each with its pairs of details, taken by views.
pub open spec fn directory_view(v: Seq<(String, Vec<(String, String)>)>) -> Seq<(Seq<char>, Seq<(Seq<char>, Seq<char>)>)> {
    Seq::new(v.len(), |i: int| (v[i].0@, text_pairs(v[i].1@)))
}

/// The CBOR encoding, by `ciborium`, of the map from text to text that holds
/// these pairs.
pub uninterp spec fn cbor_text_map(entries: Seq<(Seq<char>, Seq<char>)>) -> Seq<u8>;

/// The map from service names to maps from text to text that `ciborium`
/// reads from these bytes, its keys in ascending order; `None` where the
/// bytes are no such map.
pub uninterp spec fn cbor_service_directory(bytes: Seq<u8>) -> Option<Seq<(Seq<char>, Seq<(Seq<char>, Seq<char>)>)>>;

/// `ciborium::ser::into_writer` on a `BTreeMap<&str, &str>` that holds these
/// pairs, written into a `Vec<u8>`. The keys come in ascending order with
/// none repeated, so the map holds the pairs one for one. Writing into a
/// vector does not fail, nor does writing a map of text.
#[verifier::external_body]
pub(crate) fn encode_text_map(entries: &Vec<(String, String)>) -> (res: Vec<u8>)
    requires
        keys_ascending(text_pairs(entries@)),
    ensures
        res@ == cbor_text_map(text_pairs(entries@)),
{
    let map: std::collections::BTreeMap<&str, &str> = entries.iter().map(
        |(k, v)| (k.as_str(), v.as_str()),
    ).collect();
    let mut out: Vec<u8> = Vec::new();
    ciborium::ser::into_writer(&map, &mut out).expect("writing into a vector");
    out
}

/// `ciborium::de::from_reader` into a `BTreeMap<String, BTreeMap<String, String>>`,
/// kept as vectors of pairs in the maps' order; `None` where `ciborium`
/// reports an error. A `BTreeMap` hands out its entries in ascending order of
/// their keys, each key once, so the names, and the keys of each service's
/// details, come strictly ascending.
#[verifier::external_body]
pub(crate) fn decode_service_directory(bytes: &[u8]) -> (res: Option<Vec<(String, Vec<(String, String)>)>>)
    ensures
        match cbor_service_directory(bytes@) {
            Some(d) => res matches Some(v) && directory_view(v@) == d,
            None => res is None,
        },
        res matches Some(v) ==> keys_ascending(directory_view(v@)),
        res matches Some(v) ==> forall|i: int| 0 <= i < v@.len() ==> #[trigger] keys_ascending(
            directory_view(v@)[i].1,
        ),
{
    let map: Option<std::collections::BTreeMap<String, std::collections::BTreeMap<String, String>>> =
        ciborium::de::from_reader(bytes).ok();
    map.map(|m| m.into_iter().map(|(k, v)| (k, v.into_iter().collect())).collect())
}

} // verus!

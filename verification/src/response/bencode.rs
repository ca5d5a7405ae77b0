//! Bencoded values, and their bytes on the wire.

use vstd::prelude::*;
use vstd::string::StrSliceExecFns;
use vstd::utf8::encode_utf8;

verus! {

/// A value to be bencoded: a number, a byte string, a list of values, or
/// a dictionary from strings to values.
pub enum BencodeValue {
    Int(i64),
    Bytes(Vec<u8>),
    List(Vec<BencodeValue>),
    Dict(Vec<(String, BencodeValue)>),
}

/// The mathematical content of a [`BencodeValue`].
pub enum BencodeTree {
    Int(i64),
    Bytes(Seq<u8>),
    List(Seq<BencodeTree>),
    Dict(Seq<(Seq<char>, BencodeTree)>),
}

/// The content of a value.
pub open spec fn tree_of(value: BencodeValue) -> BencodeTree
    decreases value,
{
    match value {
        BencodeValue::Int(i) => BencodeTree::Int(i),
        BencodeValue::Bytes(bytes) => BencodeTree::Bytes(bytes@),
        BencodeValue::List(items) => BencodeTree::List(
            Seq::new(
                items@.len(),
                |i: int|
                    if 0 <= i < items@.len() {
                        tree_of(items@[i])
                    } else {
                        BencodeTree::Int(0)
                    },
            ),
        ),
        BencodeValue::Dict(entries) => BencodeTree::Dict(
            Seq::new(
                entries@.len(),
                |i: int|
                    if 0 <= i < entries@.len() {
                        (entries@[i].0@, tree_of(entries@[i].1))
                    } else {
                        (Seq::empty(), BencodeTree::Int(0))
                    },
            ),
        ),
    }
}

impl View for BencodeValue {
    type V = BencodeTree;

    open spec fn view(&self) -> BencodeTree {
        tree_of(*self)
    }
}

/// The contents of a list of values.
pub open spec fn trees(items: Seq<BencodeValue>) -> Seq<BencodeTree> {
    Seq::new(items.len(), |i: int| items[i]@)
}

/// The contents of the entries of a dictionary.
pub open spec fn fields(entries: Seq<(String, BencodeValue)>) -> Seq<(Seq<char>, BencodeTree)> {
    Seq::new(entries.len(), |i: int| (entries[i].0@, entries[i].1@))
}

impl BencodeValue {
    /// A number.
    pub fn number(n: i64) -> (value: BencodeValue)
        ensures
            value@ == BencodeTree::Int(n),
    {
        BencodeValue::Int(n)
    }

    /// A byte string.
    pub fn bytes(bytes: Vec<u8>) -> (value: BencodeValue)
        ensures
            value@ == BencodeTree::Bytes(bytes@),
    {
        BencodeValue::Bytes(bytes)
    }

    /// The byte string that a text is in UTF-8.
    pub fn text(text: &str) -> (value: BencodeValue)
        ensures
            value@ == BencodeTree::Bytes(encode_utf8(text@)),
    {
        BencodeValue::Bytes(text.as_bytes_vec())
    }

    /// A list of values.
    pub fn list(items: Vec<BencodeValue>) -> (value: BencodeValue)
        ensures
            value@ == BencodeTree::List(trees(items@)),
    {
        let ghost given = items@;
        let value = BencodeValue::List(items);
        assert(value@->List_0.len() == given.len());
        assert(value@->List_0 =~= trees(given));
        value
    }

    /// A dictionary with the given entries.
    pub fn dict(entries: Vec<(String, BencodeValue)>) -> (value: BencodeValue)
        ensures
            value@ == BencodeTree::Dict(fields(entries@)),
    {
        let ghost given = entries@;
        let value = BencodeValue::Dict(entries);
        assert(value@->Dict_0 =~= fields(given));
        value
    }

    /// An entry of a dictionary.
    pub fn entry(key: &str, value: BencodeValue) -> (e: (String, BencodeValue))
        ensures
            e.0@ == key@,
            e.1 == value,
    {
        (key.to_owned(), value)
    }
}

/// A value as the crate `bip_bencode` holds it. It is made and written
/// out by the two functions below only.
#[verifier::external_type_specification]
#[verifier::external_body]
pub struct ExBencode<'a>(bip_bencode::Bencode<'a>);

/// The bencoding of a value: the bytes that `bip_bencode` writes for it.
pub uninterp spec fn bencoding(tree: BencodeTree) -> Seq<u8>;

/// The same value as `bip_bencode` holds it, borrowing the byte strings
/// and keys of `value`. Where a dictionary names a key twice, the later
/// entry is the one that stays.
#[verifier::external_body]
fn outside<'a>(value: &'a BencodeValue) -> bip_bencode::Bencode<'a> {
    match value {
        BencodeValue::Int(i) => bip_bencode::Bencode::Int(*i),
        BencodeValue::Bytes(bytes) => bip_bencode::Bencode::Bytes(bytes),
        BencodeValue::List(items) => bip_bencode::Bencode::List(
            items.iter().map(outside).collect(),
        ),
        BencodeValue::Dict(entries) => bip_bencode::Bencode::Dict(
            entries.iter().map(|e| (e.0.as_str(), outside(&e.1))).collect(),
        ),
    }
}

/// The bytes of `value` on the wire.
///
/// Calls `bip_bencode::Bencode::encode` on the value. The contract claims
/// only that the bytes are a function of the value: what they are is that
/// crate's business.
#[verifier::external_body]
pub(crate) fn encode(value: &BencodeValue) -> (bytes: Vec<u8>)
    ensures
        bytes@ == bencoding(value@),
{
    outside(value).encode()
}

} // verus!

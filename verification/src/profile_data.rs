//! Per-profile key/value data: a mapping of string key to byte payload stored
//! as an ordered list of pairs, together with the conversions between plain
//! values and their byte payloads.
//!
//! Numeric values encode big-endian fixed-width, booleans as a single byte,
//! strings as raw UTF-8; sequences carry a two-byte big-endian element count
//! and a two-byte length prefix per element. Writing an existing key replaces
//! its value in place, writing a new key appends. Decoding a malformed or
//! truncated payload yields `None`, never a panic.

use crate::encoding::{
    be_bytes, be_bytes_of, be_value, be_value_of, lemma_be_bytes_len, lemma_be_round_trip,
    lemma_be_value_bound,
};
use vstd::arithmetic::div_mod::lemma_small_mod;
use vstd::arithmetic::power::{lemma_pow_adds, pow};
use vstd::prelude::*;
use vstd::slice::slice_subrange;
use vstd::string::StrSliceExecFns;
use vstd::utf8::{decode_utf8, encode_utf8, encode_utf8_decode_utf8, valid_utf8};

verus! {

/// The powers of 256 at the widths of the supported numeric encodings.
pub proof fn lemma_pow256_widths()
    ensures
        pow(256, 1) == 0x100,
        pow(256, 2) == 0x10000,
        pow(256, 4) == 0x100000000,
        pow(256, 8) == 0x10000000000000000,
        pow(256, 16) == 0x100000000000000000000000000000000,
{
    reveal(pow);
    assert(pow(256, 0) == 1);
    assert(pow(256, 1) == 256 * pow(256, 0));
    lemma_pow_adds(256, 1, 1);
    assert(pow(256, 2) == pow(256, 1) * pow(256, 1));
    lemma_pow_adds(256, 2, 2);
    assert(pow(256, 4) == pow(256, 2) * pow(256, 2));
    lemma_pow_adds(256, 4, 4);
    assert(pow(256, 8) == pow(256, 4) * pow(256, 4));
    lemma_pow_adds(256, 8, 8);
    assert(pow(256, 16) == pow(256, 8) * pow(256, 8));
}

/// A value that can be stored in and read back from a profile's data store.
///
/// The spec members carry default bodies that say nothing, so a host can
/// implement the conversion for its own types with plain code; every
/// implementation in this crate overrides them with the exact encoding and
/// proves that decoding an encoding recovers the value.
pub trait WindowRelativeProfileDataConvertible: Sized {
    /// The byte payload that this value encodes to.
    open spec fn spec_encode(self) -> Seq<u8> {
        Seq::<u8>::empty()
    }

    /// Whether the payload `b` decodes to some value.
    open spec fn spec_decodable(b: Seq<u8>) -> bool {
        true
    }

    /// Whether this value is what the payload `b` decodes to.
    open spec fn spec_decoded_from(self, b: Seq<u8>) -> bool {
        true
    }

    /// The values whose encoding decodes back to themselves.
    open spec fn encodable(self) -> bool {
        true
    }

    /// Convert the data to bytes.
    fn to_bytes(self) -> (r: Vec<u8>)
        ensures
            r@ == self.spec_encode(),
    ;

    /// Create the data from bytes; `None` when the payload does not decode.
    fn from_bytes(bytes: &[u8]) -> (r: Option<Self>)
        ensures
            (r is Some) == Self::spec_decodable(bytes@),
            (r matches Some(v) ==> v.spec_decoded_from(bytes@)),
    ;

    /// The round trip: an encodable value's encoding decodes, back to the
    /// value itself.
    proof fn lemma_round_trip(self)
        requires
            self.encodable(),
        ensures
            Self::spec_decodable(self.spec_encode()),
            self.spec_decoded_from(self.spec_encode()),
    ;
}

impl WindowRelativeProfileDataConvertible for bool {
    open spec fn spec_encode(self) -> Seq<u8> {
        seq![if self { 1u8 } else { 0u8 }]
    }

    open spec fn spec_decodable(b: Seq<u8>) -> bool {
        b.len() >= 1
    }

    open spec fn spec_decoded_from(self, b: Seq<u8>) -> bool {
        b.len() >= 1 && self == (b[0] != 0)
    }

    open spec fn encodable(self) -> bool {
        true
    }

    fn to_bytes(self) -> (r: Vec<u8>) {
        let mut r: Vec<u8> = Vec::new();
        r.push(if self { 1u8 } else { 0u8 });
        proof {
            assert(r@ =~= self.spec_encode());
        }
        r
    }

    fn from_bytes(bytes: &[u8]) -> (r: Option<bool>) {
        if bytes.len() == 0 {
            None
        } else {
            Some(*vstd::slice::slice_index_get(bytes, 0) != 0)
        }
    }

    proof fn lemma_round_trip(self) {
    }
}

/// Relies on `core::str::from_utf8`: it succeeds exactly on the UTF-8
/// encodings that `vstd::utf8::valid_utf8` describes, and decodes them to the
/// character sequence that `vstd::utf8::decode_utf8` gives.
#[verifier::external_body]
fn utf8_to_string(bytes: &[u8]) -> (r: Option<String>)
    ensures
        match r {
            Some(s) => valid_utf8(bytes@) && s@ == decode_utf8(bytes@),
            None => !valid_utf8(bytes@),
        },
{
    core::str::from_utf8(bytes).ok().map(|s| s.to_string())
}

impl WindowRelativeProfileDataConvertible for String {
    open spec fn spec_encode(self) -> Seq<u8> {
        encode_utf8(self@)
    }

    open spec fn spec_decodable(b: Seq<u8>) -> bool {
        valid_utf8(b)
    }

    open spec fn spec_decoded_from(self, b: Seq<u8>) -> bool {
        valid_utf8(b) && self@ == decode_utf8(b)
    }

    open spec fn encodable(self) -> bool {
        true
    }

    fn to_bytes(self) -> (r: Vec<u8>) {
        self.as_str().as_bytes_vec()
    }

    fn from_bytes(bytes: &[u8]) -> (r: Option<String>) {
        utf8_to_string(bytes)
    }

    proof fn lemma_round_trip(self) {
        broadcast use vstd::utf8::encode_utf8_valid_utf8;

        encode_utf8_decode_utf8(self@);
    }
}

/// Read a `w`-byte big-endian unsigned value from the front of `bytes`, if
/// enough bytes are there.
fn unsigned_prefix(bytes: &[u8], w: usize) -> (r: Option<u128>)
    requires
        1 <= w <= 16,
    ensures
        match r {
            Some(v) => bytes@.len() >= w && v as nat == be_value(bytes@.take(w as int)) && (
            v as nat) < pow(256, w as nat),
            None => bytes@.len() < w,
        },
{
    if bytes.len() >= w {
        proof {
            lemma_be_value_bound(bytes@.take(w as int));
        }
        Some(be_value_of(bytes, w))
    } else {
        None
    }
}

/// The two's-complement unsigned reading of a signed value, for modulus `m`.
pub open spec fn two_complement(v: int, m: int) -> int {
    if v >= 0 {
        v
    } else {
        v + m
    }
}

/// The signed value whose two's-complement reading is `u`, for modulus `m`.
pub open spec fn from_complement(u: int, m: int) -> int {
    if u < m / 2 {
        u
    } else {
        u - m
    }
}

/// The encoding of one sequence element: a two-byte big-endian length prefix,
/// then the element's own encoding.
pub open spec fn item_encoding<T: WindowRelativeProfileDataConvertible>(v: T) -> Seq<u8> {
    be_bytes(v.spec_encode().len() % 0x10000, 2) + v.spec_encode()
}

/// The back-to-back encodings of a sequence's elements.
pub open spec fn items_encoding<T: WindowRelativeProfileDataConvertible>(s: Seq<T>) -> Seq<u8>
    decreases s.len(),
{
    if s.len() == 0 {
        Seq::empty()
    } else {
        item_encoding::<T>(s[0]) + items_encoding::<T>(s.drop_first())
    }
}

/// Appending one element appends its encoding.
pub proof fn lemma_items_encoding_push<T: WindowRelativeProfileDataConvertible>(s: Seq<T>, x: T)
    ensures
        items_encoding::<T>(s.push(x)) == items_encoding::<T>(s) + item_encoding::<T>(x),
    decreases s.len(),
{
    if s.len() == 0 {
        assert(s.push(x)[0] == x);
        assert(s.push(x).drop_first() =~= Seq::<T>::empty());
        assert(items_encoding::<T>(Seq::<T>::empty()) == Seq::<u8>::empty());
        assert(s =~= Seq::<T>::empty());
        assert(items_encoding::<T>(s.push(x)) =~= items_encoding::<T>(s) + item_encoding::<T>(x));
    } else {
        assert(s.push(x)[0] == s[0]);
        assert(s.push(x).drop_first() =~= s.drop_first().push(x));
        lemma_items_encoding_push::<T>(s.drop_first(), x);
        assert(items_encoding::<T>(s.push(x)) =~= items_encoding::<T>(s) + item_encoding::<T>(x));
    }
}

/// Whether `count` length-prefixed elements can be read from the front of
/// `b`; trailing bytes after the last element are ignored.
pub open spec fn items_decodable<T: WindowRelativeProfileDataConvertible>(
    b: Seq<u8>,
    count: nat,
) -> bool
    decreases count,
{
    if count == 0 {
        true
    } else if b.len() < 2 {
        false
    } else {
        let size = be_value(b.take(2));
        &&& b.len() >= 2 + size
        &&& T::spec_decodable(b.subrange(2, 2 + size as int))
        &&& items_decodable::<T>(b.skip(2 + size as int), (count - 1) as nat)
    }
}

/// Whether `items` is what reading `count` length-prefixed elements from the
/// front of `b` gives.
pub open spec fn items_decoded_from<T: WindowRelativeProfileDataConvertible>(
    items: Seq<T>,
    b: Seq<u8>,
    count: nat,
) -> bool
    decreases count,
{
    if count == 0 {
        items.len() == 0
    } else if b.len() < 2 {
        false
    } else {
        let size = be_value(b.take(2));
        &&& b.len() >= 2 + size
        &&& items.len() > 0
        &&& items[0].spec_decoded_from(b.subrange(2, 2 + size as int))
        &&& items_decoded_from::<T>(items.drop_first(), b.skip(2 + size as int), (count - 1) as nat)
    }
}

/// Read `count` length-prefixed elements starting at `offset`.
fn vec_items_from_bytes<T: WindowRelativeProfileDataConvertible>(
    bytes: &[u8],
    offset: usize,
    count: usize,
) -> (r: Option<Vec<T>>)
    requires
        offset <= bytes@.len(),
    ensures
        (r is Some) == items_decodable::<T>(bytes@.skip(offset as int), count as nat),
        (r matches Some(v) ==> items_decoded_from::<T>(
            v@,
            bytes@.skip(offset as int),
            count as nat,
        )),
    decreases count,
{
    let ghost b = bytes@.skip(offset as int);
    if count == 0 {
        let out: Vec<T> = Vec::new();
        return Some(out);
    }
    if bytes.len() - offset < 2 {
        return None;
    }
    let prefix = slice_subrange(bytes, offset, offset + 2);
    let size128 = be_value_of(prefix, 2);
    proof {
        lemma_be_value_bound(prefix@.take(2));
        lemma_pow256_widths();
        assert(prefix@.take(2) =~= prefix@);
        assert(prefix@ =~= b.take(2));
    }
    let size = size128 as usize;
    if bytes.len() - offset - 2 < size {
        proof {
            assert(b.len() < 2 + be_value(b.take(2)));
        }
        return None;
    }
    let elem_slice = slice_subrange(bytes, offset + 2, offset + 2 + size);
    proof {
        assert(elem_slice@ =~= b.subrange(2, 2 + size as int));
    }
    match T::from_bytes(elem_slice) {
        None => None,
        Some(e) => {
            match vec_items_from_bytes::<T>(bytes, offset + 2 + size, count - 1) {
                None => {
                    proof {
                        assert(bytes@.skip(offset as int + 2 + size as int) =~= b.skip(
                            2 + size as int,
                        ));
                    }
                    None
                },
                Some(mut rest) => {
                    proof {
                        assert(bytes@.skip(offset as int + 2 + size as int) =~= b.skip(
                            2 + size as int,
                        ));
                    }
                    let ghost rest_view = rest@;
                    let mut out: Vec<T> = Vec::new();
                    out.push(e);
                    out.append(&mut rest);
                    proof {
                        assert(out@ =~= seq![e] + rest_view);
                        assert(out@.drop_first() =~= rest_view);
                    }
                    Some(out)
                },
            }
        },
    }
}

/// Decoding the back-to-back encodings of a sequence's elements recovers the
/// sequence, as long as every element is encodable and its encoding fits the
/// two-byte length prefix.
pub proof fn lemma_items_round_trip<T: WindowRelativeProfileDataConvertible>(s: Seq<T>)
    requires
        forall|i: int|
            0 <= i < s.len() ==> (#[trigger] s[i]).encodable() && s[i].spec_encode().len()
                < 0x10000,
    ensures
        items_decodable::<T>(items_encoding::<T>(s), s.len()),
        items_decoded_from::<T>(s, items_encoding::<T>(s), s.len()),
    decreases s.len(),
{
    if s.len() == 0 {
    } else {
        let e0 = s[0].spec_encode();
        let l0 = e0.len();
        lemma_small_mod(l0, 0x10000);
        lemma_be_bytes_len(l0, 2);
        lemma_pow256_widths();
        lemma_be_round_trip(l0, 2);
        let b = items_encoding::<T>(s);
        assert(b =~= be_bytes(l0, 2) + e0 + items_encoding::<T>(s.drop_first()));
        assert(b.take(2) =~= be_bytes(l0, 2));
        assert(be_value(b.take(2)) == l0);
        assert(b.len() >= 2 + l0);
        assert(b.subrange(2, 2 + l0 as int) =~= e0);
        s[0].lemma_round_trip();
        assert(b.skip(2 + l0 as int) =~= items_encoding::<T>(s.drop_first()));
        assert(forall|i: int|
            0 <= i < s.drop_first().len() ==> (#[trigger] s.drop_first()[i]).encodable()
                && s.drop_first()[i].spec_encode().len() < 0x10000);
        lemma_items_round_trip::<T>(s.drop_first());
    }
}

impl<T: WindowRelativeProfileDataConvertible> WindowRelativeProfileDataConvertible for Vec<T> {
    open spec fn spec_encode(self) -> Seq<u8> {
        be_bytes(self@.len() % 0x10000, 2) + items_encoding::<T>(self@)
    }

    open spec fn spec_decodable(b: Seq<u8>) -> bool {
        b.len() >= 2 && items_decodable::<T>(b.skip(2), be_value(b.take(2)))
    }

    open spec fn spec_decoded_from(self, b: Seq<u8>) -> bool {
        b.len() >= 2 && items_decoded_from::<T>(self@, b.skip(2), be_value(b.take(2)))
    }

    open spec fn encodable(self) -> bool {
        self@.len() < 0x10000 && forall|i: int|
            0 <= i < self@.len() ==> (#[trigger] self@[i]).encodable()
                && self@[i].spec_encode().len() < 0x10000
    }

    fn to_bytes(self) -> (r: Vec<u8>) {
        let ghost orig = self@;
        let len16: usize = self.len() % 0x10000;
        let mut out = be_bytes_of(len16 as u128, 2);
        let mut rem = self;
        proof {
            assert(rem@ =~= orig.skip(0));
            assert(orig.take(0) =~= Seq::<T>::empty());
        }
        let ghost k: int = 0;
        while rem.len() > 0
            invariant
                0 <= k <= orig.len(),
                rem@ =~= orig.skip(k),
                out@ == be_bytes((orig.len() % 0x10000) as nat, 2) + items_encoding::<T>(
                    orig.take(k),
                ),
            decreases rem@.len(),
        {
            let ghost old_rem = rem@;
            let item = rem.remove(0);
            proof {
                assert(item == orig[k]);
                assert(rem@ =~= orig.skip(k + 1));
            }
            let mut bytes = item.to_bytes();
            let blen16: usize = bytes.len() % 0x10000;
            let mut prefix = be_bytes_of(blen16 as u128, 2);
            out.append(&mut prefix);
            out.append(&mut bytes);
            proof {
                assert(orig.take(k + 1) =~= orig.take(k).push(orig[k]));
                lemma_items_encoding_push::<T>(orig.take(k), orig[k]);
            }
            proof {
                k = k + 1;
            }
        }
        proof {
            assert(orig.take(k) =~= orig);
        }
        out
    }

    fn from_bytes(bytes: &[u8]) -> (r: Option<Vec<T>>) {
        if bytes.len() < 2 {
            return None;
        }
        let count128 = be_value_of(bytes, 2);
        proof {
            lemma_be_value_bound(bytes@.take(2));
            lemma_pow256_widths();
        }
        let count = count128 as usize;
        vec_items_from_bytes::<T>(bytes, 2, count)
    }

    proof fn lemma_round_trip(self) {
        let enc = self.spec_encode();
        lemma_small_mod(self@.len(), 0x10000);
        lemma_be_bytes_len(self@.len(), 2);
        lemma_pow256_widths();
        lemma_be_round_trip(self@.len(), 2);
        assert(enc.take(2) =~= be_bytes(self@.len(), 2));
        assert(enc.skip(2) =~= items_encoding::<T>(self@));
        lemma_items_round_trip::<T>(self@);
    }
}

/// The payload stored under `name`: the first pair with that key, if any.
pub open spec fn spec_lookup(s: Seq<(Seq<char>, Seq<u8>)>, name: Seq<char>) -> Option<Seq<u8>>
    decreases s.len(),
{
    if s.len() == 0 {
        None
    } else if s[0].0 == name {
        Some(s[0].1)
    } else {
        spec_lookup(s.drop_first(), name)
    }
}

/// The store after writing `bytes` under `name`: the first pair with that key
/// is replaced in place, or a new pair is appended.
pub open spec fn spec_store(
    s: Seq<(Seq<char>, Seq<u8>)>,
    name: Seq<char>,
    bytes: Seq<u8>,
) -> Seq<(Seq<char>, Seq<u8>)>
    decreases s.len(),
{
    if s.len() == 0 {
        seq![(name, bytes)]
    } else if s[0].0 == name {
        seq![(name, bytes)] + s.drop_first()
    } else {
        seq![s[0]] + spec_store(s.drop_first(), name, bytes)
    }
}

/// When the first match for `name` sits at index `i`, a lookup returns its
/// payload.
pub proof fn lemma_lookup_at(s: Seq<(Seq<char>, Seq<u8>)>, name: Seq<char>, i: int)
    requires
        0 <= i < s.len(),
        s[i].0 == name,
        forall|j: int| 0 <= j < i ==> (#[trigger] s[j]).0 != name,
    ensures
        spec_lookup(s, name) == Some(s[i].1),
    decreases i,
{
    if i > 0 {
        lemma_lookup_at(s.drop_first(), name, i - 1);
    }
}

/// When no pair carries `name`, a lookup returns nothing.
pub proof fn lemma_lookup_none(s: Seq<(Seq<char>, Seq<u8>)>, name: Seq<char>)
    requires
        forall|j: int| 0 <= j < s.len() ==> (#[trigger] s[j]).0 != name,
    ensures
        spec_lookup(s, name) is None,
    decreases s.len(),
{
    if s.len() > 0 {
        lemma_lookup_none(s.drop_first(), name);
    }
}

/// When the first match for `name` sits at index `i`, a store updates that
/// pair in place.
pub proof fn lemma_store_at(s: Seq<(Seq<char>, Seq<u8>)>, name: Seq<char>, bytes: Seq<u8>, i: int)
    requires
        0 <= i < s.len(),
        s[i].0 == name,
        forall|j: int| 0 <= j < i ==> (#[trigger] s[j]).0 != name,
    ensures
        spec_store(s, name, bytes) =~= s.update(i, (name, bytes)),
    decreases i,
{
    if i == 0 {
        assert(spec_store(s, name, bytes) =~= s.update(0, (name, bytes)));
    } else {
        lemma_store_at(s.drop_first(), name, bytes, i - 1);
        assert(spec_store(s, name, bytes) =~= s.update(i, (name, bytes)));
    }
}

/// When no pair carries `name`, a store appends a new pair.
pub proof fn lemma_store_append(s: Seq<(Seq<char>, Seq<u8>)>, name: Seq<char>, bytes: Seq<u8>)
    requires
        forall|j: int| 0 <= j < s.len() ==> (#[trigger] s[j]).0 != name,
    ensures
        spec_store(s, name, bytes) =~= s.push((name, bytes)),
    decreases s.len(),
{
    if s.len() == 0 {
    } else {
        lemma_store_append(s.drop_first(), name, bytes);
        assert(spec_store(s, name, bytes) =~= s.push((name, bytes)));
    }
}

/// A profile's key/value data: an ordered list of `(key, payload)` pairs.
pub struct WindowRelativeProfileData {
    entries: Vec<(String, Vec<u8>)>,
}

impl View for WindowRelativeProfileData {
    type V = Seq<(Seq<char>, Seq<u8>)>;

    closed spec fn view(&self) -> Seq<(Seq<char>, Seq<u8>)> {
        Seq::new(self.entries@.len(), |i: int| (self.entries@[i].0@, self.entries@[i].1@))
    }
}

impl WindowRelativeProfileData {
    /// Create a new, empty data set.
    pub fn new() -> (r: WindowRelativeProfileData)
        ensures
            r@ == Seq::<(Seq<char>, Seq<u8>)>::empty(),
    {
        let r = WindowRelativeProfileData { entries: Vec::new() };
        proof {
            assert(r@ =~= Seq::<(Seq<char>, Seq<u8>)>::empty());
        }
        r
    }

    /// Find the index of the first pair whose key is `name`.
    fn index_of(&self, name: &str) -> (r: Option<usize>)
        ensures
            match r {
                Some(i) => i < self@.len() && self@[i as int].0 == name@ && forall|j: int|
                    0 <= j < i ==> (#[trigger] self@[j]).0 != name@,
                None => forall|j: int| 0 <= j < self@.len() ==> (#[trigger] self@[j]).0 != name@,
            },
    {
        let mut i: usize = 0;
        while i < self.entries.len()
            invariant
                0 <= i <= self.entries@.len(),
                self@.len() == self.entries@.len(),
                forall|j: int| 0 <= j < i ==> (#[trigger] self@[j]).0 != name@,
            decreases self.entries@.len() - i,
        {
            if crate::trigger::str_eq(self.entries[i].0.as_str(), name) {
                return Some(i);
            }
            i += 1;
        }
        None
    }

    /// Write some data: replace the payload of an existing key in place, or
    /// append a new pair.
    pub fn set<T: WindowRelativeProfileDataConvertible>(&mut self, name: &str, data: T)
        ensures
            final(self)@ == spec_store(old(self)@, name@, data.spec_encode()),
    {
        let ghost payload = data.spec_encode();
        let bytes = data.to_bytes();
        match self.index_of(name) {
            Some(i) => {
                proof {
                    lemma_store_at(self@, name@, bytes@, i as int);
                }
                self.entries.remove(i);
                self.entries.insert(i, (name.to_owned(), bytes));
                proof {
                    assert(final(self)@ =~= spec_store(old(self)@, name@, payload));
                }
            },
            None => {
                proof {
                    lemma_store_append(self@, name@, bytes@);
                }
                self.entries.push((name.to_owned(), bytes));
                proof {
                    assert(final(self)@ =~= spec_store(old(self)@, name@, payload));
                }
            },
        }
    }

    /// Read some data: decode the payload stored under `name`, if any.
    pub fn get<T: WindowRelativeProfileDataConvertible>(&self, name: &str) -> (r: Option<T>)
        ensures
            match spec_lookup(self@, name@) {
                None => r is None,
                Some(bytes) => (r is Some) == T::spec_decodable(bytes) && (r matches Some(v)
                    ==> v.spec_decoded_from(bytes)),
            },
    {
        match self.index_of(name) {
            Some(i) => {
                proof {
                    lemma_lookup_at(self@, name@, i as int);
                }
                T::from_bytes(self.entries[i].1.as_slice())
            },
            None => {
                proof {
                    lemma_lookup_none(self@, name@);
                }
                None
            },
        }
    }
}


impl WindowRelativeProfileDataConvertible for u8 {
    open spec fn spec_encode(self) -> Seq<u8> {
        be_bytes(self as nat, 1)
    }

    open spec fn spec_decodable(b: Seq<u8>) -> bool {
        b.len() >= 1
    }

    open spec fn spec_decoded_from(self, b: Seq<u8>) -> bool {
        b.len() >= 1 && self as nat == be_value(b.take(1))
    }

    open spec fn encodable(self) -> bool {
        true
    }

    fn to_bytes(self) -> (r: Vec<u8>) {
        be_bytes_of(self as u128, 1)
    }

    fn from_bytes(bytes: &[u8]) -> (r: Option<u8>) {
        match unsigned_prefix(bytes, 1) {
            Some(v) => {
                proof {
                    lemma_pow256_widths();
                }
                Some(v as u8)
            },
            None => None,
        }
    }

    proof fn lemma_round_trip(self) {
        lemma_pow256_widths();
        lemma_be_bytes_len(self as nat, 1);
        lemma_be_round_trip(self as nat, 1);
        assert(be_bytes(self as nat, 1).take(1) =~= be_bytes(self as nat, 1));
    }
}

impl WindowRelativeProfileDataConvertible for u16 {
    open spec fn spec_encode(self) -> Seq<u8> {
        be_bytes(self as nat, 2)
    }

    open spec fn spec_decodable(b: Seq<u8>) -> bool {
        b.len() >= 2
    }

    open spec fn spec_decoded_from(self, b: Seq<u8>) -> bool {
        b.len() >= 2 && self as nat == be_value(b.take(2))
    }

    open spec fn encodable(self) -> bool {
        true
    }

    fn to_bytes(self) -> (r: Vec<u8>) {
        be_bytes_of(self as u128, 2)
    }

    fn from_bytes(bytes: &[u8]) -> (r: Option<u16>) {
        match unsigned_prefix(bytes, 2) {
            Some(v) => {
                proof {
                    lemma_pow256_widths();
                }
                Some(v as u16)
            },
            None => None,
        }
    }

    proof fn lemma_round_trip(self) {
        lemma_pow256_widths();
        lemma_be_bytes_len(self as nat, 2);
        lemma_be_round_trip(self as nat, 2);
        assert(be_bytes(self as nat, 2).take(2) =~= be_bytes(self as nat, 2));
    }
}

impl WindowRelativeProfileDataConvertible for u32 {
    open spec fn spec_encode(self) -> Seq<u8> {
        be_bytes(self as nat, 4)
    }

    open spec fn spec_decodable(b: Seq<u8>) -> bool {
        b.len() >= 4
    }

    open spec fn spec_decoded_from(self, b: Seq<u8>) -> bool {
        b.len() >= 4 && self as nat == be_value(b.take(4))
    }

    open spec fn encodable(self) -> bool {
        true
    }

    fn to_bytes(self) -> (r: Vec<u8>) {
        be_bytes_of(self as u128, 4)
    }

    fn from_bytes(bytes: &[u8]) -> (r: Option<u32>) {
        match unsigned_prefix(bytes, 4) {
            Some(v) => {
                proof {
                    lemma_pow256_widths();
                }
                Some(v as u32)
            },
            None => None,
        }
    }

    proof fn lemma_round_trip(self) {
        lemma_pow256_widths();
        lemma_be_bytes_len(self as nat, 4);
        lemma_be_round_trip(self as nat, 4);
        assert(be_bytes(self as nat, 4).take(4) =~= be_bytes(self as nat, 4));
    }
}

impl WindowRelativeProfileDataConvertible for u64 {
    open spec fn spec_encode(self) -> Seq<u8> {
        be_bytes(self as nat, 8)
    }

    open spec fn spec_decodable(b: Seq<u8>) -> bool {
        b.len() >= 8
    }

    open spec fn spec_decoded_from(self, b: Seq<u8>) -> bool {
        b.len() >= 8 && self as nat == be_value(b.take(8))
    }

    open spec fn encodable(self) -> bool {
        true
    }

    fn to_bytes(self) -> (r: Vec<u8>) {
        be_bytes_of(self as u128, 8)
    }

    fn from_bytes(bytes: &[u8]) -> (r: Option<u64>) {
        match unsigned_prefix(bytes, 8) {
            Some(v) => {
                proof {
                    lemma_pow256_widths();
                }
                Some(v as u64)
            },
            None => None,
        }
    }

    proof fn lemma_round_trip(self) {
        lemma_pow256_widths();
        lemma_be_bytes_len(self as nat, 8);
        lemma_be_round_trip(self as nat, 8);
        assert(be_bytes(self as nat, 8).take(8) =~= be_bytes(self as nat, 8));
    }
}

impl WindowRelativeProfileDataConvertible for u128 {
    open spec fn spec_encode(self) -> Seq<u8> {
        be_bytes(self as nat, 16)
    }

    open spec fn spec_decodable(b: Seq<u8>) -> bool {
        b.len() >= 16
    }

    open spec fn spec_decoded_from(self, b: Seq<u8>) -> bool {
        b.len() >= 16 && self as nat == be_value(b.take(16))
    }

    open spec fn encodable(self) -> bool {
        true
    }

    fn to_bytes(self) -> (r: Vec<u8>) {
        be_bytes_of(self, 16)
    }

    fn from_bytes(bytes: &[u8]) -> (r: Option<u128>) {
        match unsigned_prefix(bytes, 16) {
            Some(v) => {
                proof {
                    lemma_pow256_widths();
                }
                Some(v as u128)
            },
            None => None,
        }
    }

    proof fn lemma_round_trip(self) {
        lemma_pow256_widths();
        lemma_be_bytes_len(self as nat, 16);
        lemma_be_round_trip(self as nat, 16);
        assert(be_bytes(self as nat, 16).take(16) =~= be_bytes(self as nat, 16));
    }
}

impl WindowRelativeProfileDataConvertible for i8 {
    open spec fn spec_encode(self) -> Seq<u8> {
        be_bytes(two_complement(self as int, 0x100) as nat, 1)
    }

    open spec fn spec_decodable(b: Seq<u8>) -> bool {
        b.len() >= 1
    }

    open spec fn spec_decoded_from(self, b: Seq<u8>) -> bool {
        b.len() >= 1 && self as int == from_complement(be_value(b.take(1)) as int, 0x100)
    }

    open spec fn encodable(self) -> bool {
        true
    }

    fn to_bytes(self) -> (r: Vec<u8>) {
        let u: u8 = if self >= 0 {
            self as u8
        } else {
            ((self as i32) + 0x100i32) as u8
        };
        be_bytes_of(u as u128, 1)
    }

    fn from_bytes(bytes: &[u8]) -> (r: Option<i8>) {
        match unsigned_prefix(bytes, 1) {
            Some(v) => {
                proof {
                    lemma_pow256_widths();
                }
                let d: i8 = if v < 0x80 {
                    v as i8
                } else {
                    ((v as i32) - 0x100i32) as i8
                };
                Some(d)
            },
            None => None,
        }
    }

    proof fn lemma_round_trip(self) {
        lemma_pow256_widths();
        let tc = two_complement(self as int, 0x100) as nat;
        lemma_be_bytes_len(tc, 1);
        lemma_be_round_trip(tc, 1);
        assert(be_bytes(tc, 1).take(1) =~= be_bytes(tc, 1));
    }
}

impl WindowRelativeProfileDataConvertible for i16 {
    open spec fn spec_encode(self) -> Seq<u8> {
        be_bytes(two_complement(self as int, 0x10000) as nat, 2)
    }

    open spec fn spec_decodable(b: Seq<u8>) -> bool {
        b.len() >= 2
    }

    open spec fn spec_decoded_from(self, b: Seq<u8>) -> bool {
        b.len() >= 2 && self as int == from_complement(be_value(b.take(2)) as int, 0x10000)
    }

    open spec fn encodable(self) -> bool {
        true
    }

    fn to_bytes(self) -> (r: Vec<u8>) {
        let u: u16 = if self >= 0 {
            self as u16
        } else {
            ((self as i32) + 0x10000i32) as u16
        };
        be_bytes_of(u as u128, 2)
    }

    fn from_bytes(bytes: &[u8]) -> (r: Option<i16>) {
        match unsigned_prefix(bytes, 2) {
            Some(v) => {
                proof {
                    lemma_pow256_widths();
                }
                let d: i16 = if v < 0x8000 {
                    v as i16
                } else {
                    ((v as i32) - 0x10000i32) as i16
                };
                Some(d)
            },
            None => None,
        }
    }

    proof fn lemma_round_trip(self) {
        lemma_pow256_widths();
        let tc = two_complement(self as int, 0x10000) as nat;
        lemma_be_bytes_len(tc, 2);
        lemma_be_round_trip(tc, 2);
        assert(be_bytes(tc, 2).take(2) =~= be_bytes(tc, 2));
    }
}

impl WindowRelativeProfileDataConvertible for i32 {
    open spec fn spec_encode(self) -> Seq<u8> {
        be_bytes(two_complement(self as int, 0x100000000) as nat, 4)
    }

    open spec fn spec_decodable(b: Seq<u8>) -> bool {
        b.len() >= 4
    }

    open spec fn spec_decoded_from(self, b: Seq<u8>) -> bool {
        b.len() >= 4 && self as int == from_complement(be_value(b.take(4)) as int, 0x100000000)
    }

    open spec fn encodable(self) -> bool {
        true
    }

    fn to_bytes(self) -> (r: Vec<u8>) {
        let u: u32 = if self >= 0 {
            self as u32
        } else {
            ((self as i64) + 0x100000000i64) as u32
        };
        be_bytes_of(u as u128, 4)
    }

    fn from_bytes(bytes: &[u8]) -> (r: Option<i32>) {
        match unsigned_prefix(bytes, 4) {
            Some(v) => {
                proof {
                    lemma_pow256_widths();
                }
                let d: i32 = if v < 0x80000000 {
                    v as i32
                } else {
                    ((v as i64) - 0x100000000i64) as i32
                };
                Some(d)
            },
            None => None,
        }
    }

    proof fn lemma_round_trip(self) {
        lemma_pow256_widths();
        let tc = two_complement(self as int, 0x100000000) as nat;
        lemma_be_bytes_len(tc, 4);
        lemma_be_round_trip(tc, 4);
        assert(be_bytes(tc, 4).take(4) =~= be_bytes(tc, 4));
    }
}

impl WindowRelativeProfileDataConvertible for i64 {
    open spec fn spec_encode(self) -> Seq<u8> {
        be_bytes(two_complement(self as int, 0x10000000000000000) as nat, 8)
    }

    open spec fn spec_decodable(b: Seq<u8>) -> bool {
        b.len() >= 8
    }

    open spec fn spec_decoded_from(self, b: Seq<u8>) -> bool {
        b.len() >= 8 && self as int == from_complement(be_value(b.take(8)) as int, 0x10000000000000000)
    }

    open spec fn encodable(self) -> bool {
        true
    }

    fn to_bytes(self) -> (r: Vec<u8>) {
        let u: u64 = if self >= 0 {
            self as u64
        } else {
            ((self as i128) + 0x10000000000000000i128) as u64
        };
        be_bytes_of(u as u128, 8)
    }

    fn from_bytes(bytes: &[u8]) -> (r: Option<i64>) {
        match unsigned_prefix(bytes, 8) {
            Some(v) => {
                proof {
                    lemma_pow256_widths();
                }
                let d: i64 = if v < 0x8000000000000000 {
                    v as i64
                } else {
                    ((v as i128) - 0x10000000000000000i128) as i64
                };
                Some(d)
            },
            None => None,
        }
    }

    proof fn lemma_round_trip(self) {
        lemma_pow256_widths();
        let tc = two_complement(self as int, 0x10000000000000000) as nat;
        lemma_be_bytes_len(tc, 8);
        lemma_be_round_trip(tc, 8);
        assert(be_bytes(tc, 8).take(8) =~= be_bytes(tc, 8));
    }
}

impl WindowRelativeProfileDataConvertible for i128 {
    open spec fn spec_encode(self) -> Seq<u8> {
        be_bytes(two_complement(self as int, 0x100000000000000000000000000000000int) as nat, 16)
    }

    open spec fn spec_decodable(b: Seq<u8>) -> bool {
        b.len() >= 16
    }

    open spec fn spec_decoded_from(self, b: Seq<u8>) -> bool {
        b.len() >= 16 && self as int == from_complement(be_value(b.take(16)) as int, 0x100000000000000000000000000000000int)
    }

    open spec fn encodable(self) -> bool {
        true
    }

    fn to_bytes(self) -> (r: Vec<u8>) {
        let u: u128 = if self >= 0 {
            self as u128
        } else {
            u128::MAX - ((-(self + 1)) as u128)
        };
        be_bytes_of(u, 16)
    }

    fn from_bytes(bytes: &[u8]) -> (r: Option<i128>) {
        match unsigned_prefix(bytes, 16) {
            Some(v) => {
                proof {
                    lemma_pow256_widths();
                }
                let d: i128 = if v < 0x80000000000000000000000000000000 {
                    v as i128
                } else {
                    -((u128::MAX - v) as i128) - 1
                };
                Some(d)
            },
            None => None,
        }
    }

    proof fn lemma_round_trip(self) {
        lemma_pow256_widths();
        let tc = two_complement(self as int, 0x100000000000000000000000000000000int) as nat;
        lemma_be_bytes_len(tc, 16);
        lemma_be_round_trip(tc, 16);
        assert(be_bytes(tc, 16).take(16) =~= be_bytes(tc, 16));
    }
}

} // verus!

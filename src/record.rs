//! Identity record of a plant and its stored form, encoded with `postcard`.

use crate::common::Connector;
use vstd::prelude::*;
use vstd::utf8::encode_utf8;

verus! {

/// Persisted identity of a plant.
#[derive(Clone, Debug)]
pub struct PlantData {
    pub id: u16,
    pub connection: Connector,
    pub name: String,
}

/// Longest plant name accepted, in UTF-8 bytes; an encoded record of such
/// a name fits a storage slot.
pub const MAX_NAME_BYTES: usize = 64;

/// Size of one storage slot in bytes.
pub const SLOT_BYTES: usize = 100;

/// postcard's variable-length form of an unsigned integer: seven bits per
/// byte, least significant group first, the high bit set on every byte but
/// the last.
pub open spec fn varint(n: nat) -> Seq<u8>
    decreases n,
{
    if n < 128 {
        seq![n as u8]
    } else {
        seq![(n % 128 + 128) as u8] + varint(n / 128)
    }
}

/// Bytes that postcard makes of the tuple `(id, variant, pin, name)`: the id
/// and the variant as varints, the pin as one byte, then the name's length
/// as a varint and its UTF-8 bytes. A record with these fields gives the
/// same bytes.
pub open spec fn postcard_record(id: u16, variant: u32, pin: u8, name: Seq<char>) -> Seq<u8> {
    varint(id as nat) + varint(variant as nat) + seq![pin] + varint(encode_utf8(name).len())
        + encode_utf8(name)
}

/// What postcard reads as a tuple `(id, variant, pin, name)` from the bytes.
pub uninterp spec fn postcard_record_read(bytes: Seq<u8>) -> Option<(u16, u32, u8, Seq<char>)>;

/// Relies on `postcard::to_allocvec`: it writes into a growing vector, which
/// never refuses a byte, so it always succeeds and hands back the encoding
/// of the tuple.
#[verifier::external_body]
fn encode_tuple(id: u16, variant: u32, pin: u8, name: &str) -> (r: Option<Vec<u8>>)
    ensures
        r is Some,
        r matches Some(b) ==> b@ == postcard_record(id, variant, pin, name@),
{
    postcard::to_allocvec(&(id, variant, pin, name)).ok()
}

/// Relies on `postcard::from_bytes`: decodes a tuple `(id, variant, pin,
/// name)` from the front of the bytes; bytes after it are ignored. It also
/// accepts longer forms of a varint than the shortest, so the bytes are at
/// least as long as the shortest encoding of what was decoded.
#[verifier::external_body]
fn decode_tuple(bytes: &[u8]) -> (r: Option<(u16, u32, u8, String)>)
    ensures
        match r {
            Some(t) => postcard_record_read(bytes@) == Some((t.0, t.1, t.2, t.3@))
                && postcard_record(t.0, t.1, t.2, t.3@).len() <= bytes@.len(),
            None => postcard_record_read(bytes@) is None,
        },
{
    postcard::from_bytes::<(u16, u32, u8, String)>(bytes).ok()
}

/// Index of the connector's variant in the stored form.
pub open spec fn connector_variant(c: Connector) -> u32 {
    match c {
        Connector::GPIO(_) => 0,
    }
}

/// Payload of the connector in the stored form.
pub open spec fn connector_pin(c: Connector) -> u8 {
    match c {
        Connector::GPIO(pin) => pin,
    }
}

/// Stored form of a record with these fields.
pub open spec fn record_bytes(id: u16, connection: Connector, name: Seq<char>) -> Seq<u8> {
    postcard_record(id, connector_variant(connection), connector_pin(connection), name)
}

/// A record whose name has at most the longest accepted byte length fits
/// a slot.
pub proof fn lemma_record_size(id: u16, connection: Connector, name: Seq<char>)
    ensures
        encode_utf8(name).len() <= MAX_NAME_BYTES ==> record_bytes(id, connection, name).len()
            <= SLOT_BYTES,
{
    lemma_varint_len(id as nat);
    lemma_varint_len(connector_variant(connection) as nat);
    lemma_varint_len(encode_utf8(name).len());
}

proof fn lemma_varint_len(n: nat)
    ensures
        varint(n).len() >= 1,
        n < 128 ==> varint(n).len() == 1,
        n < 16384 ==> varint(n).len() <= 2,
        n < 2097152 ==> varint(n).len() <= 3,
    decreases n,
{
    if n >= 128 {
        lemma_varint_len(n / 128);
    }
}

/// Record read from stored bytes: its id, connector and name.
pub open spec fn record_read(bytes: Seq<u8>) -> Option<(u16, Connector, Seq<char>)> {
    match postcard_record_read(bytes) {
        Some(t) => if t.1 == 0 {
            Some((t.0, Connector::GPIO(t.2), t.3))
        } else {
            None
        },
        None => None,
    }
}

impl PlantData {
    /// Stored form of the record; `None` where it does not fit a slot.
    pub fn to_stored(&self) -> (r: Option<Vec<u8>>)
        ensures
            r is Some <==> record_bytes(self.id, self.connection, self.name@).len() <= SLOT_BYTES,
            r matches Some(b) ==> b@ == record_bytes(self.id, self.connection, self.name@),
    {
        stored_form(self.id, self.connection, self.name.as_str())
    }

    /// Reads a record from its stored form; `None` where the bytes hold none.
    pub fn from_stored(bytes: &[u8]) -> (r: Option<PlantData>)
        ensures
            match r {
                Some(d) => record_read(bytes@) == Some((d.id, d.connection, d.name@))
                    && record_bytes(d.id, d.connection, d.name@).len() <= bytes@.len(),
                None => record_read(bytes@) is None,
            },
    {
        match decode_tuple(bytes) {
            Some((id, variant, pin, name)) => {
                if variant == 0 {
                    Some(PlantData { id, connection: Connector::GPIO(pin), name })
                } else {
                    None
                }
            },
            None => None,
        }
    }
}

/// Stored form of a record with these fields; `None` where it does not fit.
pub fn stored_form(id: u16, connection: Connector, name: &str) -> (r: Option<Vec<u8>>)
    ensures
        r is Some <==> record_bytes(id, connection, name@).len() <= SLOT_BYTES,
        r matches Some(b) ==> b@ == record_bytes(id, connection, name@),
{
    let encoded = match connection {
        Connector::GPIO(pin) => encode_tuple(id, 0, pin, name),
    };
    match encoded {
        Some(b) => {
            if b.len() <= SLOT_BYTES {
                Some(b)
            } else {
                None
            }
        },
        None => None,
    }
}

} // verus!

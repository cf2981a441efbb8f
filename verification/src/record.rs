//! One entry of the message list and its byte encoding.
//!
//! Layout of an encoded record, in order:
//! the creation time as eight little-endian bytes, one flag byte (1 for a
//! tombstone, 0 otherwise), the byte length of the id as eight little-endian
//! bytes, the id in UTF-8, and the label in UTF-8 up to the end.

use vstd::bytes::{
    lemma_auto_spec_u64_to_from_le_bytes, spec_u64_from_le_bytes, spec_u64_to_le_bytes,
    u64_from_le_bytes, u64_to_le_bytes,
};
use vstd::prelude::*;
use vstd::slice::{slice_subrange, slice_to_vec};
use vstd::utf8::{
    decode_utf8, decode_utf8_encode_utf8, encode_utf8, encode_utf8_decode_utf8,
    encode_utf8_valid_utf8, valid_utf8,
};

verus! {

/// Bytes that precede the id in an encoded record.
pub const HEADER_LEN: usize = 17;

/// One version of a message: the key it is stored under, its text, when it
/// was first written, and whether this version marks the message as deleted.
#[derive(Debug, PartialEq, Eq)]
pub struct MessageRecord {
    pub id: String,
    pub label: String,
    pub created: u64,
    pub is_delete: bool,
}

/// The mathematical value of a [`MessageRecord`].
pub ghost struct RecordView {
    pub id: Seq<char>,
    pub label: Seq<char>,
    pub created: u64,
    pub is_delete: bool,
}

impl View for MessageRecord {
    type V = RecordView;

    open spec fn view(&self) -> RecordView {
        RecordView {
            id: self.id@,
            label: self.label@,
            created: self.created,
            is_delete: self.is_delete,
        }
    }
}

impl Clone for MessageRecord {
    fn clone(&self) -> (copy: Self)
        ensures
            copy@ == self@,
    {
        MessageRecord {
            id: self.id.clone(),
            label: self.label.clone(),
            created: self.created,
            is_delete: self.is_delete,
        }
    }
}

/// The flag byte of a record.
pub open spec fn flag_byte(is_delete: bool) -> u8 {
    if is_delete {
        1u8
    } else {
        0u8
    }
}

/// The encoding of a record.
pub open spec fn serialized(r: RecordView) -> Seq<u8> {
    spec_u64_to_le_bytes(r.created) + seq![flag_byte(r.is_delete)] + spec_u64_to_le_bytes(
        encode_utf8(r.id).len() as u64,
    ) + encode_utf8(r.id) + encode_utf8(r.label)
}

/// Number of bytes in the encoding of a record.
pub open spec fn serialized_len(r: RecordView) -> int {
    HEADER_LEN as int + encode_utf8(r.id).len() + encode_utf8(r.label).len()
}

/// The record that a byte string encodes, if it encodes one.
pub open spec fn parsed(bytes: Seq<u8>) -> Option<RecordView> {
    if bytes.len() < HEADER_LEN as int {
        None
    } else {
        let id_len = spec_u64_from_le_bytes(bytes.subrange(9, 17)) as int;
        if bytes[8] > 1u8 || id_len > bytes.len() - HEADER_LEN as int {
            None
        } else {
            let id_bytes = bytes.subrange(17, 17 + id_len);
            let label_bytes = bytes.subrange(17 + id_len, bytes.len() as int);
            if valid_utf8(id_bytes) && valid_utf8(label_bytes) {
                Some(
                    RecordView {
                        id: decode_utf8(id_bytes),
                        label: decode_utf8(label_bytes),
                        created: spec_u64_from_le_bytes(bytes.subrange(0, 8)),
                        is_delete: bytes[8] == 1u8,
                    },
                )
            } else {
                None
            }
        }
    }
}

/// `String::from_utf8` of the standard library: it accepts exactly the byte
/// strings that are well-formed UTF-8 and then yields the text they encode.
#[verifier::external_body]
pub(crate) fn text_from_utf8(bytes: Vec<u8>) -> (text: Option<String>)
    ensures
        text is Some <==> valid_utf8(bytes@),
        text is Some ==> text->Some_0@ == decode_utf8(bytes@),
{
    String::from_utf8(bytes).ok()
}

/// Appends `src` to `out`.
fn append_bytes(out: &mut Vec<u8>, src: &[u8])
    ensures
        final(out)@ == old(out)@ + src@,
{
    let ghost before = out@;
    let mut i: usize = 0;
    while i < src.len()
        invariant
            i <= src@.len(),
            out@ == before + src@.subrange(0, i as int),
        decreases src@.len() - i,
    {
        out.push(src[i]);
        i += 1;
        assert(out@ =~= before + src@.subrange(0, i as int));
    }
    assert(src@.subrange(0, i as int) =~= src@);
}

impl MessageRecord {
    /// The encoding of this record.
    pub fn serialize(&self) -> (out: Vec<u8>)
        ensures
            out@ == serialized(self@),
            out@.len() == serialized_len(self@),
    {
        let id_bytes = self.id.as_str().as_bytes();
        let label_bytes = self.label.as_str().as_bytes();
        let mut out = u64_to_le_bytes(self.created);
        out.push(if self.is_delete { 1u8 } else { 0u8 });
        let id_len = u64_to_le_bytes(id_bytes.len() as u64);
        append_bytes(&mut out, id_len.as_slice());
        append_bytes(&mut out, id_bytes);
        append_bytes(&mut out, label_bytes);
        proof {
            lemma_auto_spec_u64_to_from_le_bytes();
            assert(out@ =~= serialized(self@));
        }
        out
    }

    /// Decodes a record. Succeeds exactly on the byte strings that
    /// [`parsed`] accepts.
    pub fn deserialize(bytes: &[u8]) -> (res: Option<MessageRecord>)
        ensures
            match res {
                Some(r) => parsed(bytes@) == Some(r@),
                None => parsed(bytes@) is None,
            },
    {
        if bytes.len() < HEADER_LEN {
            return None;
        }
        let created = u64_from_le_bytes(slice_subrange(bytes, 0, 8));
        let flag = bytes[8];
        let id_len = u64_from_le_bytes(slice_subrange(bytes, 9, 17));
        if flag > 1 || id_len > (bytes.len() - HEADER_LEN) as u64 {
            return None;
        }
        let id_end: usize = HEADER_LEN + id_len as usize;
        let id = text_from_utf8(slice_to_vec(slice_subrange(bytes, HEADER_LEN, id_end)));
        let label = text_from_utf8(slice_to_vec(slice_subrange(bytes, id_end, bytes.len())));
        match (id, label) {
            (Some(id), Some(label)) => Some(
                MessageRecord { id, label, created, is_delete: flag == 1 },
            ),
            _ => None,
        }
    }
}

/// The encoding of a record has the length that `serialized_len` gives.
pub proof fn lemma_serialized_len(r: RecordView)
    ensures
        serialized(r).len() == serialized_len(r),
{
    lemma_auto_spec_u64_to_from_le_bytes();
}

/// Decoding undoes encoding: every record is read back from its own bytes.
pub proof fn lemma_round_trip(r: RecordView)
    requires
        encode_utf8(r.id).len() <= u64::MAX,
    ensures
        parsed(serialized(r)) == Some(r),
{
    lemma_auto_spec_u64_to_from_le_bytes();
    encode_utf8_valid_utf8(r.id);
    encode_utf8_valid_utf8(r.label);
    encode_utf8_decode_utf8(r.id);
    encode_utf8_decode_utf8(r.label);
    let bytes = serialized(r);
    let id_bytes = encode_utf8(r.id);
    let id_len = id_bytes.len() as int;
    assert(bytes.subrange(0, 8) =~= spec_u64_to_le_bytes(r.created));
    assert(bytes.subrange(9, 17) =~= spec_u64_to_le_bytes(id_bytes.len() as u64));
    assert(bytes[8] == flag_byte(r.is_delete));
    assert(bytes.subrange(17, 17 + id_len) =~= id_bytes);
    assert(bytes.subrange(17 + id_len, bytes.len() as int) =~= encode_utf8(r.label));
}

/// Encoding undoes decoding: a byte string that decodes to a record is that
/// record's encoding, so no two byte strings stand for the same record.
pub proof fn lemma_parsed_is_canonical(bytes: Seq<u8>)
    requires
        parsed(bytes) is Some,
    ensures
        serialized(parsed(bytes)->Some_0) == bytes,
{
    lemma_auto_spec_u64_to_from_le_bytes();
    let r = parsed(bytes)->Some_0;
    let id_len = spec_u64_from_le_bytes(bytes.subrange(9, 17)) as int;
    let id_bytes = bytes.subrange(17, 17 + id_len);
    let label_bytes = bytes.subrange(17 + id_len, bytes.len() as int);
    decode_utf8_encode_utf8(id_bytes);
    decode_utf8_encode_utf8(label_bytes);
    assert(spec_u64_to_le_bytes(r.created) == bytes.subrange(0, 8));
    assert(spec_u64_to_le_bytes(id_len as u64) == bytes.subrange(9, 17));
    assert(serialized(r) =~= bytes);
}

} // verus!

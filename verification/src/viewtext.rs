//! Sections of a document made for distribution: a DISTRIBUTE_DOC_DATA record, which hides
//! the key, and behind it the encrypted body.
use crate::aes::decrypt_aes_ecb;
use crate::aes_model;
use crate::distribute;
use crate::distribute::decrypt_distribute_doc_data;
use crate::distribute::extract_aes_key;
use crate::error;
use crate::error::CryptoError;
use crate::error::Failure;
use crate::gf::lemma_xor;
use crate::inflate;
use crate::inflate::decompress_stream;
use crate::record;
use crate::record::first_header_len;
use crate::record::read_first_record;
use crate::record::Record;
use crate::record::HWPTAG_DISTRIBUTE_DOC_DATA;
use vstd::prelude::*;

verus! {

/// The AES key that the payload of a DISTRIBUTE_DOC_DATA record hides.
pub open spec fn hidden_key(payload: Seq<u8>) -> Seq<u8> {
    distribute::document_key(distribute::scrambled(payload))
}

/// What a section decrypts to, before decompression: the body is all that stands behind
/// the record.
pub open spec fn section_text(section: Seq<u8>) -> Result<Seq<u8>, Failure> {
    match record::first_record(section) {
        Err(e) => Err(Failure::RecordError(e)),
        Ok(first) => {
            let body_start = record::header_len(section) + first.size;
            if first.tag_id != HWPTAG_DISTRIBUTE_DOC_DATA {
                Err(Failure::NoDistributeData)
            } else if first.data.len() != 256 {
                Err(Failure::InvalidPayloadSize(first.data.len()))
            } else if section.len() <= body_start {
                Err(Failure::DecryptionFailed("암호화된 본문 데이터 없음"@))
            } else {
                Ok(aes_model::ecb_decrypt(section.skip(body_start), hidden_key(first.data)))
            }
        },
    }
}

/// What decompression of a decrypted section leads to.
pub open spec fn unpacked(inflated: Result<Seq<u8>, Seq<char>>) -> Result<Seq<u8>, Failure> {
    match inflated {
        Ok(bytes) => Ok(bytes),
        Err(e) => Err(Failure::DecompressError(e)),
    }
}

/// What a section leads to.
pub open spec fn section_outcome(section: Seq<u8>, compressed: bool) -> Result<Seq<u8>, Failure> {
    match section_text(section) {
        Ok(text) => if compressed {
            unpacked(inflate::inflated(text))
        } else {
            Ok(text)
        },
        Err(e) => Err(e),
    }
}

/// The section that holds `body` under the key in `payload`.
pub open spec fn sealed_section(
    level: u16,
    extended: bool,
    payload: Seq<u8>,
    body: Seq<u8>,
) -> Seq<u8> {
    record::written_header(HWPTAG_DISTRIBUTE_DOC_DATA, level, 256, extended)
        + distribute::scrambled(payload) + aes_model::ecb_encrypt(
        body,
        distribute::document_key(payload),
    )
}

/// A body comes back from the section that was made of it, for every key, at every level
/// and with either form of the record header. A body that is not a whole number of blocks
/// comes back filled up with zeros.
pub proof fn law_section_text_of_sealed(
    level: u16,
    extended: bool,
    payload: Seq<u8>,
    body: Seq<u8>,
)
    requires
        level < 0x400,
        payload.len() == 256,
        body.len() > 0,
    ensures
        ({
            let text = section_text(sealed_section(level, extended, payload, body));
            &&& text is Ok
            &&& text->Ok_0.len() == 16 * aes_model::block_count(body.len())
            &&& text->Ok_0.take(body.len() as int) == body
            &&& body.len() % 16 == 0 ==> text == Ok::<Seq<u8>, Failure>(body)
        }),
{
    let key = distribute::document_key(payload);
    let hidden = distribute::scrambled(payload);
    let encrypted = aes_model::ecb_encrypt(body, key);
    let head = record::written_header(HWPTAG_DISTRIBUTE_DOC_DATA, level, 256, extended);
    let section = sealed_section(level, extended, payload, body);
    record::law_first_record_of_written(
        HWPTAG_DISTRIBUTE_DOC_DATA,
        level,
        hidden,
        extended,
        encrypted,
    );
    assert(encrypted.len() >= 16);
    assert(section.skip(head.len() as int + 256) =~= encrypted);
    distribute::law_scrambled_involution(payload);
    assert(payload.take(256) =~= payload);
    aes_model::law_ecb_decrypt_encrypt(body, key);
}

/// How a section is refused: for what its first record is refused for, for a record with
/// another tag than 28, for a payload that is not 256 bytes long, and for want of a byte
/// behind the record. What comes first in this order counts, and every other section
/// decrypts.
pub proof fn law_section_text_refused(section: Seq<u8>, first: record::RecordParts)
    ensures
        record::first_record(section) matches Err(e) ==> section_text(section) == Err::<
            Seq<u8>,
            Failure,
        >(Failure::RecordError(e)),
        record::first_record(section) == Ok::<record::RecordParts, Seq<char>>(first) ==> {
            &&& first.tag_id != 28 ==> section_text(section) == Err::<Seq<u8>, Failure>(
                Failure::NoDistributeData,
            )
            &&& first.tag_id == 28 && first.data.len() != 256 ==> section_text(section) == Err::<
                Seq<u8>,
                Failure,
            >(Failure::InvalidPayloadSize(first.data.len()))
            &&& first.tag_id == 28 && first.data.len() == 256 && section.len()
                <= record::header_len(section) + 256 ==> section_text(section) == Err::<
                Seq<u8>,
                Failure,
            >(Failure::DecryptionFailed("암호화된 본문 데이터 없음"@))
            &&& first.tag_id == 28 && first.data.len() == 256 && section.len()
                > record::header_len(section) + 256 ==> section_text(section) is Ok
        },
{
}

/// How a section decrypts, told by its bytes. Behind the header of the record stand the 256
/// bytes of the payload and then the body. `open` is the payload without the keystream, which
/// starts from the little-endian number in its first four bytes; `key` are 16 bytes of
/// `open`, as far behind the seed as the low half of its first byte tells. The body is
/// decrypted under `key`.
pub proof fn law_section_text_body(
    section: Seq<u8>,
    extended: bool,
    start: int,
    seed: u32,
    open: Seq<u8>,
    key: Seq<u8>,
)
    requires
        start == if extended {
            8int
        } else {
            4int
        },
        section.len() > start + 256,
        section[0] == 28,
        section[1] % 4 == 0,
        extended ==> section[2] / 16 == 15 && section[3] == 255 && section[4] == 0 && section[5]
            == 1 && section[6] == 0 && section[7] == 0,
        !extended ==> section[2] / 16 == 0 && section[3] == 16,
        seed == section[start] + 0x100 * section[start + 1] + 0x1_0000 * section[start + 2]
            + 0x100_0000 * section[start + 3],
        open.len() == 256,
        forall|i: int| 0 <= i < 4 ==> #[trigger] open[i] == section[start + i],
        forall|i: int|
            4 <= i < 256 ==> (#[trigger] open[i]) ^ section[start + i] == distribute::keystream(
                seed,
                256,
            )[i],
        key.len() == 16,
        forall|j: int| 0 <= j < 16 ==> #[trigger] key[j] == open[4 + (open[0] & 0xF) + j],
    ensures
        section_text(section) == Ok::<Seq<u8>, Failure>(
            aes_model::ecb_decrypt(section.skip(start + 256), key),
        ),
{
    let field = section[2] / 16 + 16 * section[3];
    record::law_first_record_bytes(section, field, start, 256);
    let payload = section.subrange(start, start + 256);
    distribute::law_scrambled_bytes(payload, seed);
    let own = distribute::scrambled(payload);
    assert forall|i: int| 0 <= i < 256 implies own[i] == open[i] by {
        if i >= 4 {
            assert(own[i] ^ payload[i] == open[i] ^ payload[i]);
            lemma_xor(own[i], payload[i], 0);
            lemma_xor(open[i], payload[i], 0);
        }
    }
    assert(own =~= open);
    distribute::law_document_key(open, open);
    assert(distribute::document_key(open) =~= key);
}

/// A section that is not compressed gives what it decrypts to. One that is gives what that
/// inflates to, or the error of inflating. A section that does not decrypt is refused alike
/// in both cases.
pub proof fn law_section_outcome(section: Seq<u8>, compressed: bool)
    ensures
        section_outcome(section, false) == section_text(section),
        section_text(section) is Err ==> section_outcome(section, compressed) == section_text(
            section,
        ),
        section_text(section) matches Ok(text) ==> match inflate::inflated(text) {
            Ok(bytes) => section_outcome(section, true) == Ok::<Seq<u8>, Failure>(bytes),
            Err(e) => section_outcome(section, true) == Err::<Seq<u8>, Failure>(
                Failure::DecompressError(e),
            ),
        },
{
}

/// Decrypts a section, without decompression.
pub fn decrypt_section_body(section_data: &[u8]) -> (r: Result<Vec<u8>, CryptoError>)
    ensures
        error::outcome(r) == section_text(section_data@),
        match (r, section_text(section_data@)) {
            (Ok(text), Ok(bytes)) => text@ == bytes,
            (Err(e), Err(failure)) => e@ == failure,
            _ => false,
        },
{
    let first: Record = match read_first_record(section_data) {
        Ok(first) => first,
        Err(e) => {
            return Err(CryptoError::RecordError(e));
        },
    };
    if first.tag_id != HWPTAG_DISTRIBUTE_DOC_DATA {
        return Err(CryptoError::NoDistributeData);
    }
    if first.data.len() != 256 {
        return Err(CryptoError::InvalidPayloadSize(first.data.len()));
    }
    let decrypted_header: Vec<u8> = match decrypt_distribute_doc_data(first.data.as_slice()) {
        Ok(payload) => payload,
        Err(e) => {
            return Err(e);
        },
    };
    let aes_key: [u8; 16] = match extract_aes_key(decrypted_header.as_slice()) {
        Ok(key) => key,
        Err(e) => {
            return Err(e);
        },
    };
    let encrypted_start: usize = first_header_len(section_data) + first.size as usize;
    if section_data.len() <= encrypted_start {
        return Err(CryptoError::DecryptionFailed("암호화된 본문 데이터 없음".to_string()));
    }
    let encrypted_body: &[u8] = &section_data[encrypted_start..section_data.len()];
    assert(encrypted_body@ =~= section_data@.skip(encrypted_start as int));
    Ok(decrypt_aes_ecb(encrypted_body, &aes_key))
}

/// Takes over the decompression of a decrypted section.
pub fn unpack_section(inflated: Result<Vec<u8>, String>) -> (r: Result<Vec<u8>, CryptoError>)
    ensures
        error::outcome(r) == unpacked(inflate::inflate_outcome(inflated)),
        match (inflated, r) {
            (Ok(bytes), Ok(kept)) => kept@ == bytes@,
            (Err(text), Err(e)) => e matches CryptoError::DecompressError(s) && s@ == text@,
            _ => false,
        },
{
    match inflated {
        Ok(bytes) => Ok(bytes),
        Err(e) => Err(CryptoError::DecompressError(e)),
    }
}

/// Decrypts a section of a document made for distribution, and decompresses it where
/// `compressed` is set. The result has the records of an ordinary section.
pub fn decrypt_viewtext_section(section_data: &[u8], compressed: bool) -> (r: Result<
    Vec<u8>,
    CryptoError,
>)
    ensures
        error::outcome(r) == section_outcome(section_data@, compressed),
        match section_text(section_data@) {
            Err(failure) => r is Err && r->Err_0@ == failure,
            Ok(text) => if compressed {
                match inflate::inflated(text) {
                    Ok(bytes) => r is Ok && r->Ok_0@ == bytes,
                    Err(e) => r matches Err(CryptoError::DecompressError(s)) && s@ == e,
                }
            } else {
                r is Ok && r->Ok_0@ == text
            },
        },
{
    let decrypted_body: Vec<u8> = match decrypt_section_body(section_data) {
        Ok(body) => body,
        Err(e) => {
            return Err(e);
        },
    };
    if compressed {
        unpack_section(decompress_stream(decrypted_body.as_slice()))
    } else {
        Ok(decrypted_body)
    }
}

} // verus!

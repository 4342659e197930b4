//! Records of an HWP stream: a header with tag, level and size, and the data.
use crate::bytes::law_le_u32_of_le_bytes;
use crate::bytes::le_bytes;
use crate::bytes::le_u32;
use crate::text::append_decimal;
use crate::text::decimal;
use byteorder::{LittleEndian, ReadBytesExt};
use vstd::prelude::*;
use vstd::string::*;

verus! {

/// The tag of the record that holds the key of a document made for distribution.
pub const HWPTAG_DISTRIBUTE_DOC_DATA: u16 = 0x1C;

/// One record.
pub struct Record {
    pub tag_id: u16,
    pub level: u16,
    pub size: u32,
    pub data: Vec<u8>,
}

/// What a record holds.
pub struct RecordParts {
    pub tag_id: u16,
    pub level: u16,
    pub size: u32,
    pub data: Seq<u8>,
}

impl View for Record {
    type V = RecordParts;

    open spec fn view(&self) -> RecordParts {
        RecordParts { tag_id: self.tag_id, level: self.level, size: self.size, data: self.data@ }
    }
}

/// The text of the error with which `byteorder`'s `read_u32` answers an input of fewer than
/// four bytes.
pub uninterp spec fn short_read_text(data: Seq<u8>) -> Seq<char>;

/// Calls `byteorder::ReadBytesExt::read_u32` in little-endian order on a cursor at the start
/// of `data`. It reads four bytes and gives the number that they make up, the lowest byte
/// first; where there are fewer than four it gives an error, whose text depends on `data`
/// alone.
#[verifier::external_body]
fn read_u32_le(data: &[u8]) -> (r: Result<u32, String>)
    ensures
        match r {
            Ok(x) => data@.len() >= 4 && x == le_u32(data@),
            Err(e) => data@.len() < 4 && e@ == short_read_text(data@),
        },
{
    std::io::Cursor::new(data).read_u32::<LittleEndian>().map_err(|e| e.to_string())
}

/// The tag in a record header: the low 10 bits.
pub open spec fn header_tag(header: u32) -> u16 {
    (header % 0x400) as u16
}

/// The level in a record header: the 10 bits above the tag.
pub open spec fn header_level(header: u32) -> u16 {
    (header / 0x400 % 0x400) as u16
}

/// The size in a record header: the top 12 bits. With all of them set the size stands in
/// four more bytes.
pub open spec fn header_size(header: u32) -> u32 {
    header / 0x10_0000
}

/// The header at the start of `data` is followed by four bytes of size.
pub open spec fn is_extended(data: Seq<u8>) -> bool {
    header_size(le_u32(data)) == 0xFFF
}

/// The length of the record header at the start of `data`.
pub open spec fn header_len(data: Seq<u8>) -> nat {
    if is_extended(data) {
        8
    } else {
        4
    }
}

/// The size of the data of the record at the start of `data`.
pub open spec fn record_size(data: Seq<u8>) -> u32 {
    if is_extended(data) {
        le_u32(data.skip(4))
    } else {
        header_size(le_u32(data))
    }
}

/// The text of the error for a record that promises more data than there is.
pub open spec fn missing_data_text(tag_id: u16, size: u32, available: nat) -> Seq<char> {
    "레코드 데이터 부족: tag="@ + decimal(tag_id as nat) + ", 필요="@ + decimal(size as nat)
        + ", 가용="@ + decimal(available)
}

/// The first record of a stream, or the text of the error.
pub open spec fn first_record(data: Seq<u8>) -> Result<RecordParts, Seq<char>> {
    let header = le_u32(data);
    let start = header_len(data) as int;
    let size = record_size(data);
    if data.len() < 4 {
        Err("데이터가 4바이트 미만"@)
    } else if data.len() < start {
        Err(short_read_text(data.skip(4)))
    } else if start + size > data.len() {
        Err(missing_data_text(header_tag(header), size, (data.len() - start) as nat))
    } else {
        Ok(
            RecordParts {
                tag_id: header_tag(header),
                level: header_level(header),
                size,
                data: data.subrange(start, start + size),
            },
        )
    }
}

/// The first four bytes of a record header, as a number.
pub open spec fn packed_header(tag_id: u16, level: u16, size_field: u32) -> u32 {
    (tag_id + 0x400 * level + 0x10_0000 * size_field) as u32
}

/// A record header with the size in its own 12 bits or, where `extended` is set, in four
/// bytes behind them.
pub open spec fn written_header(tag_id: u16, level: u16, size: u32, extended: bool) -> Seq<u8> {
    if extended {
        le_bytes(packed_header(tag_id, level, 0xFFF)) + le_bytes(size)
    } else {
        le_bytes(packed_header(tag_id, level, size))
    }
}

proof fn lemma_packed_header(tag_id: u16, level: u16, size_field: u32)
    requires
        tag_id < 0x400,
        level < 0x400,
        size_field <= 0xFFF,
    ensures
        header_tag(packed_header(tag_id, level, size_field)) == tag_id,
        header_level(packed_header(tag_id, level, size_field)) == level,
        header_size(packed_header(tag_id, level, size_field)) == size_field,
{
    let header = tag_id + 0x400 * level + 0x10_0000 * size_field;
    assert(header <= u32::MAX);
    assert(header % 0x400 == tag_id);
    assert(header / 0x400 == level + 0x400 * size_field);
    assert(header / 0x400 % 0x400 == level);
    assert(header / 0x10_0000 == size_field);
}

/// A record is read back as it was written, whatever follows it, with the size in either
/// place. A size of 0xFFF and more only fits behind the header.
pub proof fn law_first_record_of_written(
    tag_id: u16,
    level: u16,
    data: Seq<u8>,
    extended: bool,
    rest: Seq<u8>,
)
    requires
        tag_id < 0x400,
        level < 0x400,
        data.len() <= u32::MAX,
        extended || data.len() < 0xFFF,
    ensures
        ({
            let size = data.len() as u32;
            let head = written_header(tag_id, level, size, extended);
            &&& first_record(head + data + rest) == Ok::<RecordParts, Seq<char>>(
                RecordParts { tag_id, level, size, data },
            )
            &&& header_len(head + data + rest) == head.len()
            &&& head.len() == if extended {
                8nat
            } else {
                4nat
            }
        }),
{
    let size = data.len() as u32;
    let head = written_header(tag_id, level, size, extended);
    let stream = head + data + rest;
    let field = if extended {
        0xFFFu32
    } else {
        size
    };
    let header = packed_header(tag_id, level, field);
    lemma_packed_header(tag_id, level, field);
    assert(stream =~= le_bytes(header) + stream.skip(4));
    law_le_u32_of_le_bytes(header, stream.skip(4));
    if extended {
        assert(stream.skip(4) =~= le_bytes(size) + stream.skip(8));
        law_le_u32_of_le_bytes(size, stream.skip(8));
    }
    let n = head.len() as int;
    assert(header_len(stream) == n);
    assert(record_size(stream) == size);
    assert(stream.subrange(n, n + size) =~= data);
}

/// The fields of a header stand in its four bytes like this.
proof fn lemma_header_fields(data: Seq<u8>)
    ensures
        header_tag(le_u32(data)) == data[0] + 0x100 * (data[1] % 4),
        header_level(le_u32(data)) == data[1] / 4 + 64 * (data[2] % 16),
        header_size(le_u32(data)) == data[2] / 16 + 16 * data[3],
{
    let (a, b, c, d) = (data[0], data[1], data[2], data[3]);
    let header = le_u32(data);
    assert(header == a + 0x100 * b + 0x1_0000 * c + 0x100_0000 * d);
    let tag = a + 0x100 * (b % 4);
    let level = b / 4 + 64 * (c % 16);
    let size = c / 16 + 16 * d;
    assert(header == tag + 0x400 * (level + 0x400 * size));
    assert(header % 0x400 == tag && header / 0x400 == level + 0x400 * size);
    assert(header / 0x400 % 0x400 == level);
    assert(header / 0x10_0000 == size);
}

/// The first record of a stream, told by its bytes. Of the four bytes of the header the tag
/// takes the first and the low two bits of the second, the level the other six and the low
/// four of the third, and the size the rest. With all bits of the size set it stands in the
/// next four bytes instead, and the header has eight. A stream is refused where it has fewer
/// than four bytes, fewer than its header, or less data than the size says, and nothing else
/// is refused.
pub proof fn law_first_record_bytes(data: Seq<u8>, field: int, start: int, size: int)
    requires
        data.len() >= 4,
        field == data[2] / 16 + 16 * data[3],
        start == if field == 4095 {
            8int
        } else {
            4int
        },
        size == if field == 4095 {
            data[4] + 0x100 * data[5] + 0x1_0000 * data[6] + 0x100_0000 * data[7]
        } else {
            field
        },
    ensures
        header_len(data) == start,
        data.len() < start ==> first_record(data) == Err::<RecordParts, Seq<char>>(
            short_read_text(data.skip(4)),
        ),
        start <= data.len() < start + size ==> first_record(data) == Err::<RecordParts, Seq<char>>(
            "레코드 데이터 부족: tag="@ + decimal((data[0] + 0x100 * (data[1] % 4)) as nat)
                + ", 필요="@ + decimal(size as nat) + ", 가용="@ + decimal(
                (data.len() - start) as nat,
            ),
        ),
        start + size <= data.len() ==> first_record(data) == Ok::<RecordParts, Seq<char>>(
            RecordParts {
                tag_id: (data[0] + 0x100 * (data[1] % 4)) as u16,
                level: (data[1] / 4 + 64 * (data[2] % 16)) as u16,
                size: size as u32,
                data: data.subrange(start, start + size),
            },
        ),
{
    lemma_header_fields(data);
    if field == 4095 && data.len() >= 8 {
        assert(data.skip(4)[0] == data[4]);
        assert(data.skip(4)[1] == data[5]);
        assert(data.skip(4)[2] == data[6]);
        assert(data.skip(4)[3] == data[7]);
        assert(record_size(data) == size);
    }
}

/// A stream of fewer than four bytes has no record.
pub proof fn law_first_record_too_short(data: Seq<u8>)
    requires
        data.len() < 4,
    ensures
        first_record(data) == Err::<RecordParts, Seq<char>>("데이터가 4바이트 미만"@),
{
}

/// What the result of parsing a record says.
pub open spec fn record_outcome(r: Result<Record, String>) -> Result<RecordParts, Seq<char>> {
    match r {
        Ok(record) => Ok(record@),
        Err(e) => Err(e@),
    }
}

fn missing_data(tag_id: u16, size: u32, available: usize) -> (r: String)
    ensures
        r@ == missing_data_text(tag_id, size, available as nat),
{
    let mut r: String = "레코드 데이터 부족: tag=".to_string();
    append_decimal(&mut r, tag_id as u64);
    r.append(", 필요=");
    append_decimal(&mut r, size as u64);
    r.append(", 가용=");
    append_decimal(&mut r, available as u64);
    r
}

proof fn lemma_header_bits(header: u32)
    ensures
        header & 0x3FF == header % 0x400,
        (header >> 10) & 0x3FF == header / 0x400 % 0x400,
        header >> 20 == header / 0x10_0000,
{
    assert(header & 0x3FF == header % 0x400 && (header >> 10) & 0x3FF == header / 0x400 % 0x400
        && header >> 20 == header / 0x10_0000) by (bit_vector);
}

/// Parses the first record of a stream and looks at nothing behind it.
pub fn read_first_record(data: &[u8]) -> (r: Result<Record, String>)
    ensures
        record_outcome(r) == first_record(data@),
        match (r, first_record(data@)) {
            (Ok(record), Ok(parts)) => {
                &&& record.tag_id == parts.tag_id
                &&& record.level == parts.level
                &&& record.size == parts.size
                &&& record.data@ == parts.data
            },
            (Err(e), Err(text)) => e@ == text,
            _ => false,
        },
{
    if data.len() < 4 {
        return Err("데이터가 4바이트 미만".to_string());
    }
    let header: u32 = match read_u32_le(data) {
        Ok(x) => x,
        Err(e) => {
            return Err(e);
        },
    };
    proof {
        lemma_header_bits(header);
    }
    let tag_id: u16 = (header & 0x3FF) as u16;
    let level: u16 = ((header >> 10) & 0x3FF) as u16;
    let mut size: u32 = header >> 20;
    let mut pos: usize = 4;
    if size == 0xFFF {
        let rest: &[u8] = &data[4..data.len()];
        assert(rest@ =~= data@.skip(4));
        size = match read_u32_le(rest) {
            Ok(x) => x,
            Err(e) => {
                return Err(e);
            },
        };
        pos = 8;
    }
    let available: usize = data.len() - pos;
    if size as usize > available {
        return Err(missing_data(tag_id, size, available));
    }
    let record_data: Vec<u8> = vstd::slice::slice_to_vec(&data[pos..pos + size as usize]);
    Ok(Record { tag_id, level, size, data: record_data })
}

/// The length of the record header at the start of `data`.
pub fn first_header_len(data: &[u8]) -> (r: usize)
    requires
        data@.len() >= 4,
    ensures
        r == header_len(data@),
        r == if data@[2] / 16 == 15 && data@[3] == 255 {
            8int
        } else {
            4int
        },
{
    proof {
        lemma_header_fields(data@);
    }
    let extended: bool = match read_u32_le(data) {
        Ok(header) => {
            proof {
                lemma_header_bits(header);
            }
            header >> 20 == 0xFFF
        },
        Err(_) => false,
    };
    if extended {
        8
    } else {
        4
    }
}

} // verus!

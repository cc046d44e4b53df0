//! FITS headers and two-axis FITS images, as byte strings.
use vstd::prelude::*;
use vstd::utf8::*;
use vstd::string::*;
use crate::bytes::{
    lemma_u16s_round_trip, lemma_u32s_round_trip, push_u16s, push_u32s, read_u16s, read_u16s_at,
    read_u32s, read_u32s_at, u16s_bytes, u32s_bytes,
};
use crate::text::{
    decimal_bytes, decimal_chars, first_index_of, is_digit_byte, is_white, lemma_decimal_bytes,
    lemma_decimal_len, lemma_encode_ascii, lemma_encode_ascii_char, lemma_encode_concat,
    lemma_encode_empty, lemma_encode_spaces, lemma_first_index_at, lemma_parse_decimal,
    lemma_trim_padded, lemma_trimmed_iff, parse_usize, parse_usize_spec, pow10, space_bytes, spaces,
    str_from_utf8, str_split_once, str_trim, text_is, trim, usize_to_string,
};

verus! {

broadcast use vstd::seq::group_seq_axioms;

/// Header records in one block of the file.
pub const RECORDS_PER_BLOCK: usize = 36;

/// Bytes in one header record.
pub const RECORD_LEN: usize = 80;

/// Bytes of a record that hold its name.
pub const NAME_LEN: usize = 8;

/// Bytes of a record that hold its value and comment.
pub const TEXT_LEN: usize = RECORD_LEN - NAME_LEN - 2;

/// One `NAME = value / comment` line of a header.
#[derive(Debug)]
pub struct HeaderRecord {
    pub name: String,
    pub value: Option<String>,
    pub comment: String,
}

/// The text of a header record.
pub struct RecordView {
    pub name: Seq<char>,
    pub value: Option<Seq<char>>,
    pub comment: Seq<char>,
}

impl View for HeaderRecord {
    type V = RecordView;

    open spec fn view(&self) -> RecordView {
        RecordView {
            name: self.name@,
            value: match self.value {
                Some(v) => Some(v@),
                None => None,
            },
            comment: self.comment@,
        }
    }
}

/// Why bytes could not be read as a FITS header or image.
#[derive(Clone, Copy, Debug, PartialEq, Eq, Structural)]
pub enum FitsError {
    /// The bytes end before the header or the pixel data does.
    Truncated,
    /// The name or the text of a record is not valid UTF-8.
    InvalidText,
    /// No record has the name that was looked for.
    MissingRecord,
    /// The record that was looked for has no value.
    MissingValue,
    /// `NAXIS` is not `2`.
    UnexpectedAxes,
    /// `NAXIS1` or `NAXIS2` is not a number.
    InvalidNumber,
    /// `NAXIS1` times `NAXIS2` does not fit in a `usize`.
    TooLarge,
    /// `BITPIX` is neither `16` nor `-32`.
    UnexpectedBitpix,
}

/// What a header record turns out to be once read.
pub enum RecordKind {
    /// Its name is blank: it is skipped.
    Blank,
    /// The `END` record.
    End,
    /// A record with a name.
    Entry(RecordView),
}

/// The UTF-8 encoding of `END`.
pub open spec fn end_bytes() -> Seq<u8> {
    seq![0x45u8, 0x4eu8, 0x44u8]
}

/// The value of a `NAME = text` record: the text up to the first `/`.
pub open spec fn value_part(text: Seq<char>) -> Seq<char> {
    match first_index_of(text, '/') {
        Some(k) => trim(text.take(k)),
        None => trim(text),
    }
}

/// The comment of a `NAME = text` record: the text after the first `/`.
pub open spec fn comment_part(text: Seq<char>) -> Seq<char> {
    match first_index_of(text, '/') {
        Some(k) => trim(text.skip(k + 1)),
        None => Seq::<char>::empty(),
    }
}

/// How one 80-byte record reads: `None` where its name, or (for a record
/// that is neither blank nor `END`) its text, is not valid UTF-8.
pub open spec fn classify_record(rec: Seq<u8>) -> Option<RecordKind> {
    let name_bytes = rec.subrange(0, 8);
    if !valid_utf8(name_bytes) {
        None
    } else {
        let name = trim(decode_utf8(name_bytes));
        if name.len() == 0 {
            Some(RecordKind::Blank)
        } else if encode_utf8(name) == end_bytes() {
            Some(RecordKind::End)
        } else {
            let text_bytes = rec.subrange(10, 80);
            if !valid_utf8(text_bytes) {
                None
            } else {
                let text = trim(decode_utf8(text_bytes));
                if rec[8] == 0x3d && rec[9] == 0x20 {
                    Some(
                        RecordKind::Entry(
                            RecordView {
                                name,
                                value: Some(value_part(text)),
                                comment: comment_part(text),
                            },
                        ),
                    )
                } else {
                    Some(RecordKind::Entry(RecordView { name, value: None, comment: trim(text) }))
                }
            }
        }
    }
}

/// The `i`-th 80-byte record of `data`.
pub open spec fn record_at(data: Seq<u8>, i: int) -> Seq<u8> {
    data.subrange(80 * i, 80 * i + 80)
}

/// Reading a header from record `i` of `data` on: the records read, and the
/// number of bytes from the start of `data` to the end of the header, which
/// runs to the end of the block after the one holding `END`... or, where
/// `END` ends a block, to the end of the next block.
pub open spec fn read_records(data: Seq<u8>, i: nat) -> Result<(Seq<RecordView>, nat), FitsError>
    decreases data.len() - 80 * i,
{
    if 80 * (i + 1) > data.len() {
        Err(FitsError::Truncated)
    } else {
        match classify_record(record_at(data, i as int)) {
            None => Err(FitsError::InvalidText),
            Some(RecordKind::Blank) => read_records(data, i + 1),
            Some(RecordKind::End) => {
                let read = i + 1;
                let total = read + (36 - read % 36);
                if 80 * total <= data.len() {
                    Ok((Seq::<RecordView>::empty(), (80 * total) as nat))
                } else {
                    Err(FitsError::Truncated)
                }
            },
            Some(RecordKind::Entry(r)) => match read_records(data, i + 1) {
                Ok((rs, n)) => Ok((seq![r] + rs, n)),
                Err(e) => Err(e),
            },
        }
    }
}

/// `prefix` put in front of the records of a reading result.
pub open spec fn prepend_records(
    prefix: Seq<RecordView>,
    r: Result<(Seq<RecordView>, nat), FitsError>,
) -> Result<(Seq<RecordView>, nat), FitsError> {
    match r {
        Ok((rs, n)) => Ok((prefix + rs, n)),
        Err(e) => Err(e),
    }
}

/// The text of each record.
pub open spec fn records_view(rs: Seq<HeaderRecord>) -> Seq<RecordView> {
    rs.map_values(|r: HeaderRecord| r@)
}

enum ParsedRecord {
    Blank,
    End,
    Entry(HeaderRecord),
}

spec fn parsed_view(p: Option<ParsedRecord>) -> Option<RecordKind> {
    match p {
        None => None,
        Some(ParsedRecord::Blank) => Some(RecordKind::Blank),
        Some(ParsedRecord::End) => Some(RecordKind::End),
        Some(ParsedRecord::Entry(r)) => Some(RecordKind::Entry(r@)),
    }
}

/// The text that `bytes` encode, once they are known to be valid UTF-8.
proof fn lemma_decoded(s: &str, bytes: Seq<u8>)
    requires
        s.spec_bytes() == bytes,
    ensures
        valid_utf8(bytes),
        decode_utf8(bytes) == s@,
{
    encode_utf8_decode_utf8(s@);
    encode_utf8_valid_utf8(s@);
}

/// Reads one 80-byte record.
fn parse_record(rec: &[u8]) -> (res: Option<ParsedRecord>)
    requires
        rec@.len() == 80,
    ensures
        parsed_view(res) == classify_record(rec@),
{
    let name_str = match str_from_utf8(&rec[0..8]) {
        Some(s) => s,
        None => {
            return None;
        },
    };
    proof {
        lemma_decoded(name_str, rec@.subrange(0, 8));
    }
    let name = str_trim(name_str);
    proof {
        lemma_encode_empty(name@);
    }
    if name.is_empty() {
        return Some(ParsedRecord::Blank);
    }
    if text_is(name, &[0x45u8, 0x4e, 0x44]) {
        return Some(ParsedRecord::End);
    }
    let text_str = match str_from_utf8(&rec[10..80]) {
        Some(s) => s,
        None => {
            return None;
        },
    };
    proof {
        lemma_decoded(text_str, rec@.subrange(10, 80));
    }
    let text = str_trim(text_str);
    if rec[8] == 0x3d && rec[9] == 0x20 {
        match str_split_once(text, '/') {
            Some((v, c)) => Some(
                ParsedRecord::Entry(
                    HeaderRecord {
                        name: name.to_owned(),
                        value: Some(str_trim(v).to_owned()),
                        comment: str_trim(c).to_owned(),
                    },
                ),
            ),
            None => Some(
                ParsedRecord::Entry(
                    HeaderRecord {
                        name: name.to_owned(),
                        value: Some(str_trim(text).to_owned()),
                        comment: String::new(),
                    },
                ),
            ),
        }
    } else {
        Some(
            ParsedRecord::Entry(
                HeaderRecord { name: name.to_owned(), value: None, comment: str_trim(text).to_owned() },
            ),
        )
    }
}

/// Reads a header from the start of `data`: the records, in order, without
/// the blank ones, and the number of bytes the header takes, `END` record
/// and padding records included.
pub fn read_header(data: &[u8]) -> (res: Result<(Vec<HeaderRecord>, usize), FitsError>)
    ensures
        match res {
            Ok((rs, n)) => read_records(data@, 0) == Ok::<(Seq<RecordView>, nat), FitsError>(
                (records_view(rs@), n as nat),
            ),
            Err(e) => read_records(data@, 0) == Err::<(Seq<RecordView>, nat), FitsError>(e),
        },
        res matches Ok((_, n)) ==> n <= data@.len(),
{
    let mut records: Vec<HeaderRecord> = Vec::new();
    let mut i: usize = 0;
    let len = data.len();
    assert(records_view(records@) =~= Seq::<RecordView>::empty());
    assert(prepend_records(Seq::<RecordView>::empty(), read_records(data@, 0)) == read_records(data@, 0));
    loop
        invariant
            len == data@.len(),
            80 * i <= len,
            read_records(data@, 0) == prepend_records(records_view(records@), read_records(data@, i as nat)),
        decreases len - 80 * i,
    {
        if len < 80 || i > (len - 80) / 80 {
            return Err(FitsError::Truncated);
        }
        let start = 80 * i;
        let parsed = parse_record(&data[start..start + 80]);
        assert(data@.subrange(start as int, start + 80) == record_at(data@, i as int));
        match parsed {
            None => {
                return Err(FitsError::InvalidText);
            },
            Some(ParsedRecord::Blank) => {},
            Some(ParsedRecord::End) => {
                let read = i + 1;
                let total = read + (RECORDS_PER_BLOCK - read % RECORDS_PER_BLOCK);
                if total > len / 80 {
                    return Err(FitsError::Truncated);
                }
                return Ok((records, total * 80));
            },
            Some(ParsedRecord::Entry(r)) => {
                let ghost before = records_view(records@);
                records.push(r);
                proof {
                    assert(records_view(records@) =~= before + seq![r@]);
                    assert(before + seq![r@] + Seq::<RecordView>::empty() =~= before + seq![r@]);
                    match read_records(data@, (i + 1) as nat) {
                        Ok((rs, n)) => {
                            assert(before + (seq![r@] + rs) =~= before + seq![r@] + rs);
                        },
                        Err(e) => {},
                    }
                }
            },
        }
        i = i + 1;
    }
}


/// The bytes between the name and the text of a record: `= ` where it has a
/// value, two spaces where it has none.
pub open spec fn marker_bytes(has_value: bool) -> Seq<u8> {
    if has_value {
        seq![0x3du8, 0x20u8]
    } else {
        seq![0x20u8, 0x20u8]
    }
}

/// The text a record is written with: the value, then `/` and the comment
/// where the comment is not empty; or the comment alone for a record without
/// a value.
pub open spec fn record_text_bytes(r: RecordView) -> Seq<u8> {
    match r.value {
        Some(v) => if r.comment.len() == 0 {
            encode_utf8(v)
        } else {
            encode_utf8(v) + seq![0x2fu8] + encode_utf8(r.comment)
        },
        None => encode_utf8(r.comment),
    }
}

/// Whether a record fits in 80 bytes: a name of at most 8 bytes and a text
/// of at most 70.
pub open spec fn writable(r: RecordView) -> bool {
    &&& encode_utf8(r.name).len() <= NAME_LEN
    &&& record_text_bytes(r).len() <= TEXT_LEN
}

/// The 80 bytes a record is written as: the name padded to 8 bytes, the
/// marker, and the text padded to 70 bytes.
pub open spec fn record_bytes(r: RecordView) -> Seq<u8> {
    let name = encode_utf8(r.name);
    let text = record_text_bytes(r);
    name + space_bytes((NAME_LEN - name.len()) as nat) + marker_bytes(r.value is Some) + text
        + space_bytes((TEXT_LEN - text.len()) as nat)
}

/// The `END` record.
pub open spec fn end_record() -> Seq<u8> {
    end_bytes() + space_bytes(77)
}

/// The records written one after the other.
pub open spec fn records_bytes(rs: Seq<RecordView>) -> Seq<u8>
    decreases rs.len(),
{
    if rs.len() == 0 {
        Seq::<u8>::empty()
    } else {
        records_bytes(rs.drop_last()) + record_bytes(rs.last())
    }
}

/// The number of blank records after `END` in a header of `n` records: up to
/// the end of the block that holds `END`, or a whole block where `END` ends
/// one.
pub open spec fn blank_records(n: nat) -> nat {
    (36 - (n + 1) % 36) as nat
}

/// A whole header: the records, `END` and the blank records.
pub open spec fn header_bytes(rs: Seq<RecordView>) -> Seq<u8> {
    records_bytes(rs) + end_record() + space_bytes(80 * blank_records(rs.len()))
}

/// Appends the bytes of `bytes` to `out`.
fn push_bytes(out: &mut Vec<u8>, bytes: &[u8])
    ensures
        final(out)@ == old(out)@ + bytes@,
{
    let ghost start = out@;
    let mut i: usize = 0;
    while i < bytes.len()
        invariant
            0 <= i <= bytes@.len(),
            out@ == start + bytes@.take(i as int),
        decreases bytes@.len() - i,
    {
        proof {
            assert(bytes@.take(i + 1) =~= bytes@.take(i as int).push(bytes@[i as int]));
        }
        out.push(bytes[i]);
        i = i + 1;
    }
    assert(bytes@.take(i as int) =~= bytes@);
}

/// Appends `len` spaces to `out`.
fn write_padding(out: &mut Vec<u8>, len: usize)
    ensures
        final(out)@ == old(out)@ + space_bytes(len as nat),
{
    let ghost start = out@;
    let mut i: usize = 0;
    while i < len
        invariant
            0 <= i <= len,
            out@ == start + space_bytes(i as nat),
        decreases len - i,
    {
        proof {
            assert(space_bytes((i + 1) as nat) =~= space_bytes(i as nat).push(0x20u8));
        }
        out.push(0x20u8);
        i = i + 1;
    }
}

/// Appends the 80 bytes of one record to `out`.
fn write_record(out: &mut Vec<u8>, record: &HeaderRecord)
    requires
        writable(record@),
    ensures
        final(out)@ == old(out)@ + record_bytes(record@),
{
    let ghost start = out@;
    let name = record.name.as_str().as_bytes();
    push_bytes(out, name);
    write_padding(out, NAME_LEN - name.len());
    let comment = record.comment.as_str().as_bytes();
    proof {
        lemma_encode_empty(record.comment@);
    }
    match &record.value {
        Some(value) => {
            push_bytes(out, &[0x3du8, 0x20u8]);
            let value = value.as_str().as_bytes();
            push_bytes(out, value);
            let mut text_written = value.len();
            if comment.len() != 0 {
                push_bytes(out, &[0x2fu8]);
                push_bytes(out, comment);
                text_written = text_written + 1 + comment.len();
            }
            write_padding(out, TEXT_LEN - text_written);
        },
        None => {
            push_bytes(out, &[0x20u8, 0x20u8]);
            push_bytes(out, comment);
            write_padding(out, TEXT_LEN - comment.len());
        },
    }
    assert(out@ =~= start + record_bytes(record@));
}

/// Writes a header: each record in 80 bytes, then `END`, then blank records
/// up to the end of the block that holds `END` (a whole block of them where
/// `END` ends one).
pub fn write_header(records: &[HeaderRecord]) -> (res: Vec<u8>)
    requires
        forall|i: int| 0 <= i < records@.len() ==> writable(#[trigger] records@[i]@),
        80 * (records@.len() + 37) <= usize::MAX,
    ensures
        res@ == header_bytes(records_view(records@)),
        (forall|i: int| 0 <= i < records@.len() ==> round_trips(#[trigger] records@[i]@)) ==> read_records(
            res@,
            0,
        ) == Ok::<(Seq<RecordView>, nat), FitsError>((records_view(records@), res@.len())),
{
    let mut out: Vec<u8> = Vec::new();
    let mut i: usize = 0;
    assert(records_view(records@).take(0) =~= Seq::<RecordView>::empty());
    while i < records.len()
        invariant
            0 <= i <= records@.len(),
            forall|k: int| 0 <= k < records@.len() ==> writable(#[trigger] records@[k]@),
            out@ == records_bytes(records_view(records@).take(i as int)),
        decreases records@.len() - i,
    {
        write_record(&mut out, &records[i]);
        proof {
            let rs = records_view(records@);
            assert(rs.take(i + 1).drop_last() =~= rs.take(i as int));
            assert(rs.take(i + 1).last() == records@[i as int]@);
        }
        i = i + 1;
    }
    assert(records_view(records@).take(i as int) =~= records_view(records@));
    push_bytes(&mut out, &[0x45u8, 0x4eu8, 0x44u8]);
    write_padding(&mut out, RECORD_LEN - 3);
    let blanks = RECORDS_PER_BLOCK - (records.len() + 1) % RECORDS_PER_BLOCK;
    let ghost before = out@;
    let mut k: usize = 0;
    while k < blanks
        invariant
            0 <= k <= blanks,
            out@ == before + space_bytes(80 * k as nat),
        decreases blanks - k,
    {
        write_padding(&mut out, RECORD_LEN);
        proof {
            assert(space_bytes(80 * k as nat) + space_bytes(80) =~= space_bytes(80 * (k + 1) as nat));
        }
        k = k + 1;
    }
    assert(out@ =~= header_bytes(records_view(records@)));
    proof {
        let rs = records_view(records@);
        if forall|i: int| 0 <= i < records@.len() ==> round_trips(#[trigger] records@[i]@) {
            assert forall|k: int| 0 <= k < rs.len() implies round_trips(#[trigger] rs[k]) by {
                assert(rs[k] == records@[k]@);
            }
            lemma_header_round_trip(rs, Seq::<u8>::empty());
            assert(header_bytes(rs) + Seq::<u8>::empty() =~= header_bytes(rs));
        }
    }
    out
}


/// Whether a record reads back as itself once written: it fits, its name is
/// neither blank nor `END`, its name, value and comment carry no white space
/// at either end, and its value holds no `/`.
pub open spec fn round_trips(r: RecordView) -> bool {
    &&& writable(r)
    &&& r.name.len() > 0
    &&& trim(r.name) == r.name
    &&& encode_utf8(r.name) != end_bytes()
    &&& trim(r.comment) == r.comment
    &&& match r.value {
        Some(v) => trim(v) == v && first_index_of(v, '/') is None,
        None => true,
    }
}

/// The name of the `END` record.
pub open spec fn end_chars() -> Seq<char> {
    seq!['E', 'N', 'D']
}

/// Text followed by spaces is valid UTF-8 and decodes to the text followed
/// by as many space characters.
proof fn lemma_decode_padded(s: Seq<char>, n: nat)
    ensures
        valid_utf8(encode_utf8(s) + space_bytes(n)),
        decode_utf8(encode_utf8(s) + space_bytes(n)) == s + spaces(n),
{
    lemma_encode_concat(s, spaces(n));
    lemma_encode_spaces(n);
    encode_utf8_valid_utf8(s + spaces(n));
    encode_utf8_decode_utf8(s + spaces(n));
}

/// A written record is 80 bytes long.
proof fn lemma_record_len(r: RecordView)
    requires
        writable(r),
    ensures
        record_bytes(r).len() == 80,
{
}

/// The `END` record reads as `END`.
proof fn lemma_classify_end()
    ensures
        classify_record(end_record()) == Some(RecordKind::End),
{
    let rec = end_record();
    assert(('E' as u32) < 0x80 && ('N' as u32) < 0x80 && ('D' as u32) < 0x80);
    lemma_encode_ascii(end_chars());
    assert(encode_utf8(end_chars()) =~= end_bytes());
    assert(rec.subrange(0, 8) =~= encode_utf8(end_chars()) + space_bytes(5));
    lemma_decode_padded(end_chars(), 5);
    assert(!is_white(end_chars()[0]) && !is_white(end_chars().last()));
    lemma_trimmed_iff(end_chars());
    lemma_trim_padded(end_chars(), 5);
}

/// A record that round-trips reads back as itself.
proof fn lemma_classify_written(r: RecordView)
    requires
        round_trips(r),
    ensures
        classify_record(record_bytes(r)) == Some(RecordKind::Entry(r)),
{
    let rec = record_bytes(r);
    let name = encode_utf8(r.name);
    let text = record_text_bytes(r);
    let pad = (TEXT_LEN - text.len()) as nat;
    assert(rec.subrange(0, 8) =~= name + space_bytes((NAME_LEN - name.len()) as nat));
    lemma_decode_padded(r.name, (NAME_LEN - name.len()) as nat);
    lemma_trim_padded(r.name, (NAME_LEN - name.len()) as nat);
    assert(rec.subrange(10, 80) =~= text + space_bytes(pad));
    assert(rec[8] == marker_bytes(r.value is Some)[0]);
    assert(rec[9] == marker_bytes(r.value is Some)[1]);
    match r.value {
        Some(v) => {
            if r.comment.len() == 0 {
                lemma_decode_padded(v, pad);
                lemma_trim_padded(v, pad);
                assert(r.comment =~= Seq::<char>::empty());
            } else {
                let t = v + seq!['/'] + r.comment;
                lemma_encode_ascii_char('/');
                lemma_encode_concat(v, seq!['/']);
                lemma_encode_concat(v + seq!['/'], r.comment);
                assert(text =~= encode_utf8(t));
                lemma_decode_padded(t, pad);
                lemma_trimmed_iff(r.comment);
                if v.len() > 0 {
                    lemma_trimmed_iff(v);
                    assert(t[0] == v[0]);
                } else {
                    assert(t[0] == '/');
                }
                assert(t.last() == r.comment.last());
                lemma_trimmed_iff(t);
                lemma_trim_padded(t, pad);
                assert(t[v.len() as int] == '/');
                assert forall|j: int| 0 <= j < v.len() implies t[j] != '/' by {
                    assert(t[j] == v[j]);
                }
                lemma_first_index_at(t, '/', v.len() as int);
                assert(t.take(v.len() as int) =~= v);
                assert(t.skip(v.len() as int + 1) =~= r.comment);
            }
        },
        None => {
            lemma_decode_padded(r.comment, pad);
            lemma_trim_padded(r.comment, pad);
        },
    }
}

/// The records written one after the other take 80 bytes each, record `i`
/// in bytes `80 * i` to `80 * i + 80`.
proof fn lemma_records_bytes(rs: Seq<RecordView>)
    requires
        forall|i: int| 0 <= i < rs.len() ==> writable(#[trigger] rs[i]),
    ensures
        records_bytes(rs).len() == 80 * rs.len(),
        forall|i: int|
            0 <= i < rs.len() ==> #[trigger] records_bytes(rs).subrange(80 * i, 80 * i + 80)
                == record_bytes(rs[i]),
    decreases rs.len(),
{
    if rs.len() > 0 {
        let front = rs.drop_last();
        assert forall|i: int| 0 <= i < front.len() implies writable(#[trigger] front[i]) by {
            assert(front[i] == rs[i]);
        }
        lemma_records_bytes(front);
        lemma_record_len(rs.last());
        let all = records_bytes(rs);
        assert forall|i: int| 0 <= i < rs.len() implies #[trigger] all.subrange(80 * i, 80 * i + 80)
            == record_bytes(rs[i]) by {
            if i < front.len() {
                assert(all.subrange(80 * i, 80 * i + 80) =~= records_bytes(front).subrange(
                    80 * i,
                    80 * i + 80,
                ));
                assert(front[i] == rs[i]);
            } else {
                assert(all.subrange(80 * i, 80 * i + 80) =~= record_bytes(rs.last()));
            }
        }
    }
}

/// Reading a written header from record `i` on gives the records from `i`
/// on and the length of the whole header.
proof fn lemma_read_written(rs: Seq<RecordView>, rest: Seq<u8>, i: nat)
    requires
        forall|k: int| 0 <= k < rs.len() ==> round_trips(#[trigger] rs[k]),
        i <= rs.len(),
    ensures
        read_records(header_bytes(rs) + rest, i) == Ok::<(Seq<RecordView>, nat), FitsError>(
            (rs.skip(i as int), header_bytes(rs).len()),
        ),
    decreases rs.len() - i,
{
    let data = header_bytes(rs) + rest;
    let body = records_bytes(rs);
    assert forall|k: int| 0 <= k < rs.len() implies writable(#[trigger] rs[k]) by {
        assert(round_trips(rs[k]));
    }
    lemma_records_bytes(rs);
    assert(header_bytes(rs).len() == 80 * (rs.len() + 1 + blank_records(rs.len())));
    if i == rs.len() {
        assert(record_at(data, i as int) =~= end_record());
        lemma_classify_end();
        assert(rs.skip(i as int) =~= Seq::<RecordView>::empty());
    } else {
        assert(record_at(data, i as int) =~= body.subrange(80 * i as int, 80 * i as int + 80));
        lemma_classify_written(rs[i as int]);
        lemma_read_written(rs, rest, i + 1);
        assert(seq![rs[i as int]] + rs.skip(i as int + 1) =~= rs.skip(i as int));
    }
}

/// A header written from records that round-trip reads back as those
/// records, whatever follows it, and takes exactly the bytes written, a
/// whole number of 2880-byte blocks.
pub proof fn lemma_header_round_trip(rs: Seq<RecordView>, rest: Seq<u8>)
    requires
        forall|k: int| 0 <= k < rs.len() ==> round_trips(#[trigger] rs[k]),
    ensures
        read_records(header_bytes(rs) + rest, 0) == Ok::<(Seq<RecordView>, nat), FitsError>(
            (rs, header_bytes(rs).len()),
        ),
        header_bytes(rs).len() % 2880 == 0,
{
    lemma_read_written(rs, rest, 0);
    assert(rs.skip(0) =~= rs);
    assert forall|k: int| 0 <= k < rs.len() implies writable(#[trigger] rs[k]) by {
        assert(round_trips(rs[k]));
    }
    lemma_records_bytes(rs);
    let n = rs.len();
    assert((n + 1 + blank_records(n)) % 36 == 0);
}


/// Pixel data of a FITS image: 16-bit unsigned samples (`BITPIX = 16`), or
/// 32-bit floating point samples (`BITPIX = -32`) held as their IEEE 754
/// bit patterns.
pub enum Data {
    U16(Vec<u16>),
    F32(Vec<u32>),
}

/// The samples of a `Data`.
pub enum DataView {
    U16(Seq<u16>),
    F32(Seq<u32>),
}

impl View for Data {
    type V = DataView;

    open spec fn view(&self) -> DataView {
        match self {
            Data::U16(v) => DataView::U16(v@),
            Data::F32(v) => DataView::F32(v@),
        }
    }
}

/// The number of samples.
pub open spec fn data_len(d: DataView) -> nat {
    match d {
        DataView::U16(v) => v.len(),
        DataView::F32(v) => v.len(),
    }
}

/// The samples as written after the header, most significant byte first.
pub open spec fn data_bytes(d: DataView) -> Seq<u8> {
    match d {
        DataView::U16(v) => u16s_bytes(v),
        DataView::F32(v) => u32s_bytes(v),
    }
}

/// The `BITPIX` value that announces the kind of samples.
pub open spec fn bitpix_chars(d: DataView) -> Seq<char> {
    match d {
        DataView::U16(_) => seq!['1', '6'],
        DataView::F32(_) => seq!['-', '3', '2'],
    }
}

/// Record names that images use.
pub open spec fn simple_key() -> Seq<char> {
    seq!['S', 'I', 'M', 'P', 'L', 'E']
}

pub open spec fn bitpix_key() -> Seq<char> {
    seq!['B', 'I', 'T', 'P', 'I', 'X']
}

pub open spec fn naxis_key() -> Seq<char> {
    seq!['N', 'A', 'X', 'I', 'S']
}

pub open spec fn naxis1_key() -> Seq<char> {
    seq!['N', 'A', 'X', 'I', 'S', '1']
}

pub open spec fn naxis2_key() -> Seq<char> {
    seq!['N', 'A', 'X', 'I', 'S', '2']
}

/// A record with a value and an empty comment.
pub open spec fn valued(name: Seq<char>, value: Seq<char>) -> RecordView {
    RecordView { name, value: Some(value), comment: Seq::<char>::empty() }
}

/// The header of a `width` x `height` image: `SIMPLE = T`, `BITPIX`,
/// `NAXIS = 2`, `NAXIS1` and `NAXIS2`, the last one twice.
pub open spec fn image_records(width: usize, height: usize, bitpix: Seq<char>) -> Seq<RecordView> {
    seq![
        valued(simple_key(), seq!['T']),
        valued(bitpix_key(), bitpix),
        valued(naxis_key(), seq!['2']),
        valued(naxis1_key(), decimal_chars(width as nat)),
        valued(naxis2_key(), decimal_chars(height as nat)),
        valued(naxis2_key(), decimal_chars(height as nat)),
    ]
}

/// The position, from `i` on, of the first record named `name`.
pub open spec fn first_named(rs: Seq<RecordView>, name: Seq<char>, i: nat) -> Option<nat>
    decreases rs.len() - i,
{
    if i >= rs.len() {
        None
    } else if rs[i as int].name == name {
        Some(i)
    } else {
        first_named(rs, name, i + 1)
    }
}

/// The value of the first record named `name`.
pub open spec fn lookup_value(rs: Seq<RecordView>, name: Seq<char>) -> Result<Seq<char>, FitsError> {
    match first_named(rs, name, 0) {
        None => Err(FitsError::MissingRecord),
        Some(i) => match rs[i as int].value {
            Some(v) => Ok(v),
            None => Err(FitsError::MissingValue),
        },
    }
}

/// The `n` samples that follow the header, which ends at byte `start`, of
/// the kind that the `BITPIX` value whose UTF-8 encoding is `bitpix` names.
pub open spec fn pixel_data(data: Seq<u8>, start: nat, n: nat, bitpix: Seq<u8>) -> Result<DataView, FitsError> {
    if bitpix == seq![0x31u8, 0x36u8] {
        if start + 2 * n <= data.len() {
            Ok(DataView::U16(read_u16s(data.skip(start as int), n)))
        } else {
            Err(FitsError::Truncated)
        }
    } else if bitpix == seq![0x2du8, 0x33u8, 0x32u8] {
        if start + 4 * n <= data.len() {
            Ok(DataView::F32(read_u32s(data.skip(start as int), n)))
        } else {
            Err(FitsError::Truncated)
        }
    } else {
        Err(FitsError::UnexpectedBitpix)
    }
}

/// Reading a two-axis image: its header; `NAXIS`, which must be `2`; the
/// width `NAXIS1` and the height `NAXIS2`, which must be numbers; `BITPIX`;
/// then width times height samples. The last component is the position
/// just past the last sample, where whatever follows the image starts.
pub open spec fn read_image_spec(data: Seq<u8>) -> Result<(usize, usize, DataView, nat), FitsError> {
    match read_records(data, 0) {
        Err(e) => Err(e),
        Ok((rs, start)) => match lookup_value(rs, naxis_key()) {
            Err(e) => Err(e),
            Ok(axes) => if encode_utf8(axes) != seq![0x32u8] {
                Err(FitsError::UnexpectedAxes)
            } else {
                match lookup_value(rs, naxis1_key()) {
                    Err(e) => Err(e),
                    Ok(w) => match parse_usize_spec(encode_utf8(w)) {
                        None => Err(FitsError::InvalidNumber),
                        Some(width) => match lookup_value(rs, naxis2_key()) {
                            Err(e) => Err(e),
                            Ok(h) => match parse_usize_spec(encode_utf8(h)) {
                                None => Err(FitsError::InvalidNumber),
                                Some(height) => match lookup_value(rs, bitpix_key()) {
                                    Err(e) => Err(e),
                                    Ok(bp) => if width * height > usize::MAX {
                                        Err(FitsError::TooLarge)
                                    } else {
                                        match pixel_data(data, start, (width * height) as nat, encode_utf8(bp)) {
                                            Err(e) => Err(e),
                                            Ok(d) => Ok((width, height, d, start + data_bytes(d).len())),
                                        }
                                    },
                                },
                            },
                        },
                    },
                }
            },
        },
    }
}

/// The value of the first record named `name`: `MissingRecord` where no
/// record has that name, `MissingValue` where the first that has it has no
/// value.
pub fn get_value<'a>(records: &'a [HeaderRecord], name: &str) -> (res: Result<&'a String, FitsError>)
    ensures
        match res {
            Ok(v) => lookup_value(records_view(records@), name@) == Ok::<Seq<char>, FitsError>(v@),
            Err(e) => lookup_value(records_view(records@), name@) == Err::<Seq<char>, FitsError>(e),
        },
{
    let ghost rs = records_view(records@);
    let key = name.as_bytes();
    let mut i: usize = 0;
    while i < records.len()
        invariant
            rs == records_view(records@),
            key@ == name.spec_bytes(),
            0 <= i <= records@.len(),
            first_named(rs, name@, 0) == first_named(rs, name@, i as nat),
        decreases records@.len() - i,
    {
        let r = &records[i];
        if text_is(r.name.as_str(), key) {
            proof {
                encode_utf8_decode_utf8(r.name@);
                encode_utf8_decode_utf8(name@);
                assert(rs[i as int].name == name@);
            }
            return match &r.value {
                Some(v) => Ok(v),
                None => Err(FitsError::MissingValue),
            };
        }
        assert(rs[i as int].name != name@);
        i = i + 1;
    }
    Err(FitsError::MissingRecord)
}

/// Writes a two-axis image: a header that gives `BITPIX`, `NAXIS = 2`, the
/// width as `NAXIS1` and the height as `NAXIS2`, then the samples, most
/// significant byte first.
pub fn write_image(width: usize, height: usize, data: &Data) -> (res: Vec<u8>)
    requires
        2880 + 4 * data_len(data@) <= usize::MAX,
    ensures
        res@ == header_bytes(image_records(width, height, bitpix_chars(data@))) + data_bytes(data@),
        data_len(data@) == width * height ==> forall|rest: Seq<u8>|
            #[trigger] read_image_spec(res@ + rest) == Ok::<(usize, usize, DataView, nat), FitsError>(
                (width, height, data@, res@.len()),
            ),
{
    let bitpix = match data {
        Data::U16(_) => "16".to_owned(),
        Data::F32(_) => "-32".to_owned(),
    };
    proof {
        reveal_strlit("16");
        reveal_strlit("-32");
        reveal_strlit("SIMPLE");
        reveal_strlit("BITPIX");
        reveal_strlit("NAXIS");
        reveal_strlit("NAXIS1");
        reveal_strlit("NAXIS2");
        reveal_strlit("T");
        reveal_strlit("2");
        assert(bitpix@ =~= bitpix_chars(data@));
        assert("SIMPLE"@ =~= simple_key());
        assert("BITPIX"@ =~= bitpix_key());
        assert("NAXIS"@ =~= naxis_key());
        assert("NAXIS1"@ =~= naxis1_key());
        assert("NAXIS2"@ =~= naxis2_key());
        assert("T"@ =~= seq!['T']);
        assert("2"@ =~= seq!['2']);
    }
    let header = vec![
        HeaderRecord { name: "SIMPLE".to_owned(), value: Some("T".to_owned()), comment: String::new() },
        HeaderRecord { name: "BITPIX".to_owned(), value: Some(bitpix), comment: String::new() },
        HeaderRecord { name: "NAXIS".to_owned(), value: Some("2".to_owned()), comment: String::new() },
        HeaderRecord { name: "NAXIS1".to_owned(), value: Some(usize_to_string(width)), comment: String::new() },
        HeaderRecord { name: "NAXIS2".to_owned(), value: Some(usize_to_string(height)), comment: String::new() },
        HeaderRecord { name: "NAXIS2".to_owned(), value: Some(usize_to_string(height)), comment: String::new() },
    ];
    proof {
        let rs = image_records(width, height, bitpix_chars(data@));
        assert(records_view(header@) =~= rs);
        lemma_image_records_round_trip(width, height, bitpix_chars(data@));
        assert forall|i: int| 0 <= i < header@.len() implies writable(#[trigger] header@[i]@) by {
            assert(header@[i]@ == rs[i]);
            assert(round_trips(rs[i]));
        }
    }
    let mut out = write_header(header.as_slice());
    proof {
        assert(blank_records(6) == 29);
    }
    match data {
        Data::U16(v) => push_u16s(&mut out, v.as_slice()),
        Data::F32(v) => push_u32s(&mut out, v.as_slice()),
    }
    proof {
        if data_len(data@) == width * height {
            assert forall|rest: Seq<u8>|
                #[trigger] read_image_spec(out@ + rest) == Ok::<(usize, usize, DataView, nat), FitsError>(
                    (width, height, data@, out@.len()),
                ) by {
                lemma_image_round_trip(width, height, data@, rest);
            }
        }
    }
    out
}

/// Reads a two-axis image: its width, its height, its samples, and the
/// position just past its last sample, where whatever follows it starts.
pub fn read_image(data: &[u8]) -> (res: Result<(usize, usize, Data, usize), FitsError>)
    ensures
        match res {
            Ok((w, h, d, end)) => read_image_spec(data@) == Ok::<(usize, usize, DataView, nat), FitsError>(
                (w, h, d@, end as nat),
            ),
            Err(e) => read_image_spec(data@) == Err::<(usize, usize, DataView, nat), FitsError>(e),
        },
{
    proof {
        reveal_strlit("NAXIS");
        reveal_strlit("NAXIS1");
        reveal_strlit("NAXIS2");
        reveal_strlit("BITPIX");
        assert("NAXIS"@ =~= naxis_key());
        assert("NAXIS1"@ =~= naxis1_key());
        assert("NAXIS2"@ =~= naxis2_key());
        assert("BITPIX"@ =~= bitpix_key());
    }
    let (records, start) = match read_header(data) {
        Ok(r) => r,
        Err(e) => {
            return Err(e);
        },
    };
    let axes = match get_value(records.as_slice(), "NAXIS") {
        Ok(v) => v,
        Err(e) => {
            return Err(e);
        },
    };
    let two: [u8; 1] = [0x32u8];
    assert(two@ =~= seq![0x32u8]);
    if !text_is(axes.as_str(), &two) {
        return Err(FitsError::UnexpectedAxes);
    }
    let w = match get_value(records.as_slice(), "NAXIS1") {
        Ok(v) => v,
        Err(e) => {
            return Err(e);
        },
    };
    let width = match parse_usize(w.as_str()) {
        Some(n) => n,
        None => {
            return Err(FitsError::InvalidNumber);
        },
    };
    let h = match get_value(records.as_slice(), "NAXIS2") {
        Ok(v) => v,
        Err(e) => {
            return Err(e);
        },
    };
    let height = match parse_usize(h.as_str()) {
        Some(n) => n,
        None => {
            return Err(FitsError::InvalidNumber);
        },
    };
    let bitpix = match get_value(records.as_slice(), "BITPIX") {
        Ok(v) => v,
        Err(e) => {
            return Err(e);
        },
    };
    let n = match width.checked_mul(height) {
        Some(n) => n,
        None => {
            return Err(FitsError::TooLarge);
        },
    };
    let len = data.len();
    let sixteen: [u8; 2] = [0x31u8, 0x36u8];
    let minus_32: [u8; 3] = [0x2du8, 0x33u8, 0x32u8];
    assert(sixteen@ =~= seq![0x31u8, 0x36u8]);
    assert(minus_32@ =~= seq![0x2du8, 0x33u8, 0x32u8]);
    if text_is(bitpix.as_str(), &sixteen) {
        if n > (len - start) / 2 {
            return Err(FitsError::Truncated);
        }
        Ok((width, height, Data::U16(read_u16s_at(data, start, n)), start + 2 * n))
    } else if text_is(bitpix.as_str(), &minus_32) {
        if n > (len - start) / 4 {
            return Err(FitsError::Truncated);
        }
        Ok((width, height, Data::F32(read_u32s_at(data, start, n)), start + 4 * n))
    } else {
        Err(FitsError::UnexpectedBitpix)
    }
}

/// The records of an image header all read back as written.
proof fn lemma_image_records_round_trip(width: usize, height: usize, bitpix: Seq<char>)
    requires
        bitpix == seq!['1', '6'] || bitpix == seq!['-', '3', '2'],
    ensures
        forall|k: int|
            0 <= k < image_records(width, height, bitpix).len() ==> round_trips(
                #[trigger] image_records(width, height, bitpix)[k],
            ),
{
    let rs = image_records(width, height, bitpix);
    lemma_decimal_plain(width as nat);
    lemma_decimal_plain(height as nat);
    lemma_plain_record(simple_key(), seq!['T']);
    lemma_plain_record(bitpix_key(), bitpix);
    lemma_plain_record(naxis_key(), seq!['2']);
    lemma_plain_record(naxis1_key(), decimal_chars(width as nat));
    lemma_plain_record(naxis2_key(), decimal_chars(height as nat));
    assert forall|k: int| 0 <= k < rs.len() implies round_trips(#[trigger] rs[k]) by {
        if k == 0 {
            assert(rs[k] == valued(simple_key(), seq!['T']));
        } else if k == 1 {
            assert(rs[k] == valued(bitpix_key(), bitpix));
        } else if k == 2 {
            assert(rs[k] == valued(naxis_key(), seq!['2']));
        } else if k == 3 {
            assert(rs[k] == valued(naxis1_key(), decimal_chars(width as nat)));
        } else {
            assert(rs[k] == valued(naxis2_key(), decimal_chars(height as nat)));
        }
    }
}

/// A printable ASCII character other than the space.
pub open spec fn is_plain(c: char) -> bool {
    0x21 <= (c as u32) < 0x7f
}

/// Whether every character of `s` is printable ASCII other than the space.
pub open spec fn all_plain(s: Seq<char>) -> bool {
    forall|i: int| 0 <= i < s.len() ==> is_plain(#[trigger] s[i])
}

/// Whether `s` holds no `/`.
pub open spec fn no_slash(s: Seq<char>) -> bool {
    forall|i: int| 0 <= i < s.len() ==> #[trigger] s[i] != '/'
}

/// The digits of a `usize` are at most 20 printable characters without `/`.
proof fn lemma_decimal_plain(n: nat)
    requires
        n <= usize::MAX,
    ensures
        all_plain(decimal_chars(n)),
        no_slash(decimal_chars(n)),
        decimal_chars(n).len() <= 20,
{
    lemma_decimal_bytes(n);
    assert(pow10(20) == 100000000000000000000nat) by {
        reveal_with_fuel(pow10, 21);
    }
    lemma_decimal_len(n, 20);
    let d = decimal_bytes(n);
    assert forall|i: int| 0 <= i < decimal_chars(n).len() implies is_plain(#[trigger] decimal_chars(n)[i])
        && decimal_chars(n)[i] != '/' by {
        assert(is_digit_byte(d[i]));
        assert(decimal_chars(n)[i] == d[i] as char);
    }
}

/// A record with a value and no comment, whose name and value are printable
/// ASCII without spaces, that fits, whose name is not `END` and whose value
/// holds no `/`, reads back as written.
proof fn lemma_plain_record(name: Seq<char>, value: Seq<char>)
    requires
        0 < name.len() <= NAME_LEN,
        all_plain(name),
        name != end_chars(),
        value.len() <= TEXT_LEN,
        all_plain(value),
        no_slash(value),
    ensures
        round_trips(valued(name, value)),
{
    let r = valued(name, value);
    assert forall|i: int| 0 <= i < name.len() implies (#[trigger] name[i] as u32) < 0x80 by {
        assert(is_plain(name[i]));
    }
    assert forall|i: int| 0 <= i < value.len() implies (#[trigger] value[i] as u32) < 0x80 by {
        assert(is_plain(value[i]));
    }
    lemma_encode_ascii(name);
    lemma_encode_ascii(value);
    assert(is_plain(name[0]) && is_plain(name.last()));
    lemma_trimmed_iff(name);
    if value.len() > 0 {
        assert(is_plain(value[0]) && is_plain(value.last()));
    }
    lemma_trimmed_iff(value);
    lemma_trimmed_iff(Seq::<char>::empty());
    if encode_utf8(name) == end_bytes() {
        assert(('E' as u32) < 0x80 && ('N' as u32) < 0x80 && ('D' as u32) < 0x80);
        lemma_encode_ascii(end_chars());
        assert(encode_utf8(end_chars()) =~= end_bytes());
        encode_utf8_decode_utf8(name);
        encode_utf8_decode_utf8(end_chars());
    }
    assert(!(exists|i: int| 0 <= i < value.len() && value[i] == '/'));
}


/// The decimal digits of a number, as characters, encode to its decimal
/// bytes.
proof fn lemma_encode_decimal(n: nat)
    ensures
        encode_utf8(decimal_chars(n)) == decimal_bytes(n),
{
    lemma_decimal_bytes(n);
    let d = decimal_bytes(n);
    let c = decimal_chars(n);
    assert forall|i: int| 0 <= i < c.len() implies (#[trigger] c[i] as u32) < 0x80 by {
        assert(is_digit_byte(d[i]));
    }
    lemma_encode_ascii(c);
    assert forall|i: int| 0 <= i < c.len() implies (#[trigger] c[i] as u32 as u8) == d[i] by {
        assert(is_digit_byte(d[i]));
    }
    assert(encode_utf8(c) =~= d);
}

/// An image written by `write_image`, followed by any bytes `rest`, reads
/// back with `read_image` as the same width, height and samples, where the
/// samples number width times height; it ends where the written bytes end,
/// so `rest` is left unread.
pub proof fn lemma_image_round_trip(width: usize, height: usize, d: DataView, rest: Seq<u8>)
    requires
        width * height <= usize::MAX,
        data_len(d) == width * height,
    ensures
        read_image_spec(header_bytes(image_records(width, height, bitpix_chars(d))) + data_bytes(d) + rest)
            == Ok::<(usize, usize, DataView, nat), FitsError>(
            (
                width,
                height,
                d,
                header_bytes(image_records(width, height, bitpix_chars(d))).len() + data_bytes(d).len(),
            ),
        ),
{
    let bitpix = bitpix_chars(d);
    let rs = image_records(width, height, bitpix);
    let header = header_bytes(rs);
    let data = header + data_bytes(d) + rest;
    assert(data =~= header + (data_bytes(d) + rest));
    lemma_image_records_round_trip(width, height, bitpix);
    lemma_header_round_trip(rs, data_bytes(d) + rest);
    let start = header.len();
    assert(read_records(data, 0) == Ok::<(Seq<RecordView>, nat), FitsError>((rs, start)));
    // The records are found where they were written.
    assert(rs[0].name == simple_key() && rs[1].name == bitpix_key() && rs[2].name == naxis_key());
    assert(rs[3].name == naxis1_key() && rs[4].name == naxis2_key());
    assert(simple_key()[0] != naxis1_key()[0] && bitpix_key()[0] != naxis1_key()[0]);
    assert(simple_key()[0] != naxis2_key()[0] && bitpix_key()[0] != naxis2_key()[0]);
    assert(naxis1_key()[5] != naxis2_key()[5]);
    assert(simple_key()[0] != bitpix_key()[0]);
    assert(first_named(rs, naxis_key(), 2) == Some(2nat));
    assert(first_named(rs, naxis_key(), 1) == Some(2nat));
    assert(first_named(rs, naxis_key(), 0) == Some(2nat));
    assert(first_named(rs, naxis1_key(), 3) == Some(3nat));
    assert(first_named(rs, naxis1_key(), 2) == Some(3nat));
    assert(first_named(rs, naxis1_key(), 1) == Some(3nat));
    assert(first_named(rs, naxis1_key(), 0) == Some(3nat));
    assert(first_named(rs, naxis2_key(), 4) == Some(4nat));
    assert(first_named(rs, naxis2_key(), 3) == Some(4nat));
    assert(first_named(rs, naxis2_key(), 2) == Some(4nat));
    assert(first_named(rs, naxis2_key(), 1) == Some(4nat));
    assert(first_named(rs, naxis2_key(), 0) == Some(4nat));
    assert(first_named(rs, bitpix_key(), 1) == Some(1nat));
    assert(first_named(rs, bitpix_key(), 0) == Some(1nat));
    // Their values read as written.
    lemma_encode_ascii_char('2');
    lemma_encode_decimal(width as nat);
    lemma_encode_decimal(height as nat);
    lemma_parse_decimal(width);
    lemma_parse_decimal(height);
    assert(('1' as u32) < 0x80 && ('6' as u32) < 0x80 && ('-' as u32) < 0x80 && ('3' as u32) < 0x80);
    lemma_encode_ascii(bitpix);
    // The samples follow the header.
    assert(data.skip(start as int) =~= data_bytes(d) + rest);
    match d {
        DataView::U16(v) => {
            assert(encode_utf8(bitpix) =~= seq![0x31u8, 0x36u8]);
            lemma_u16s_round_trip(v, rest);
        },
        DataView::F32(v) => {
            assert(encode_utf8(bitpix) =~= seq![0x2du8, 0x33u8, 0x32u8]);
            lemma_u32s_round_trip(v, rest);
        },
    }
}

/// The header that `write_image` writes gives the width as the value of
/// `NAXIS1` and the height as that of `NAXIS2`, both as decimal text.
pub proof fn lemma_image_records_sizes(width: usize, height: usize, bitpix: Seq<char>)
    ensures
        lookup_value(image_records(width, height, bitpix), naxis1_key()) matches Ok(w) && parse_usize_spec(
            encode_utf8(w),
        ) == Some(width),
        lookup_value(image_records(width, height, bitpix), naxis2_key()) matches Ok(h) && parse_usize_spec(
            encode_utf8(h),
        ) == Some(height),
        lookup_value(image_records(width, height, bitpix), naxis_key()) == Ok::<Seq<char>, FitsError>(
            seq!['2'],
        ),
{
    let rs = image_records(width, height, bitpix);
    assert(rs[0].name == simple_key() && rs[1].name == bitpix_key() && rs[2].name == naxis_key());
    assert(rs[3].name == naxis1_key() && rs[4].name == naxis2_key());
    assert(simple_key()[0] != naxis1_key()[0] && bitpix_key()[0] != naxis1_key()[0]);
    assert(simple_key()[0] != naxis2_key()[0] && bitpix_key()[0] != naxis2_key()[0]);
    assert(naxis1_key()[5] != naxis2_key()[5]);
    assert(first_named(rs, naxis_key(), 2) == Some(2nat));
    assert(first_named(rs, naxis_key(), 1) == Some(2nat));
    assert(first_named(rs, naxis_key(), 0) == Some(2nat));
    assert(first_named(rs, naxis1_key(), 3) == Some(3nat));
    assert(first_named(rs, naxis1_key(), 2) == Some(3nat));
    assert(first_named(rs, naxis1_key(), 1) == Some(3nat));
    assert(first_named(rs, naxis1_key(), 0) == Some(3nat));
    assert(first_named(rs, naxis2_key(), 4) == Some(4nat));
    assert(first_named(rs, naxis2_key(), 3) == Some(4nat));
    assert(first_named(rs, naxis2_key(), 2) == Some(4nat));
    assert(first_named(rs, naxis2_key(), 1) == Some(4nat));
    assert(first_named(rs, naxis2_key(), 0) == Some(4nat));
    lemma_encode_decimal(width as nat);
    lemma_encode_decimal(height as nat);
    lemma_parse_decimal(width);
    lemma_parse_decimal(height);
}

/// An image that `read_image` accepts has as width the number that the first
/// `NAXIS1` record of its header holds and as height that of the first
/// `NAXIS2` record; it holds width times height samples, which end right
/// after the header plus their bytes.
pub proof fn lemma_read_image_sizes(data: Seq<u8>)
    ensures
        read_image_spec(data) matches Ok((w, h, d, e)) ==> {
            &&& read_records(data, 0) matches Ok((rs, start))
            &&& lookup_value(rs, naxis1_key()) matches Ok(wv)
            &&& parse_usize_spec(encode_utf8(wv)) == Some(w)
            &&& lookup_value(rs, naxis2_key()) matches Ok(hv)
            &&& parse_usize_spec(encode_utf8(hv)) == Some(h)
            &&& data_len(d) == w * h
            &&& e == start + data_bytes(d).len()
        },
{
}

} // verus!

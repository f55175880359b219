use vstd::prelude::*;
use vstd::slice::slice_subrange;
use vstd::string::{StrSliceExecFns, StringSliceAdditionalSpecFns};
use vstd::utf8::*;

verus! {

/// The ways a load or a lookup can fail.
#[derive(Debug, Clone, Copy, PartialEq, Eq, Structural)]
pub enum ErrorKind {
    /// Malformed header, truncated region, or a record that cannot be decoded.
    InvalidPhoneDatabase,
    /// The number is shorter than 7 or longer than 11 bytes.
    InvalidLength,
    /// The prefix is well formed but absent from the index.
    NotFound,
    /// A carrier byte outside the known range 1..=8.
    InvalidOpNo,
    /// One of the first seven bytes of the number is not an ASCII digit.
    InvalidFormat,
}

/// The carriers a prefix can belong to.
#[derive(Debug, Clone, Copy, PartialEq, Eq, Structural)]
pub enum CardType {
    Cmcc,
    Cucc,
    Ctcc,
    CtccV,
    CuccV,
    CmccV,
    Cbcc,
    CbccV,
}

/// The one-byte code of each carrier, as stored in the index.
pub open spec fn card_code(c: CardType) -> u8 {
    match c {
        CardType::Cmcc => 1,
        CardType::Cucc => 2,
        CardType::Ctcc => 3,
        CardType::CtccV => 4,
        CardType::CuccV => 5,
        CardType::CmccV => 6,
        CardType::Cbcc => 7,
        CardType::CbccV => 8,
    }
}

/// The carrier that a code names, if it names one.
pub open spec fn card_of_code(i: u8) -> Option<CardType> {
    if i == 1 {
        Some(CardType::Cmcc)
    } else if i == 2 {
        Some(CardType::Cucc)
    } else if i == 3 {
        Some(CardType::Ctcc)
    } else if i == 4 {
        Some(CardType::CtccV)
    } else if i == 5 {
        Some(CardType::CuccV)
    } else if i == 6 {
        Some(CardType::CmccV)
    } else if i == 7 {
        Some(CardType::Cbcc)
    } else if i == 8 {
        Some(CardType::CbccV)
    } else {
        None
    }
}

impl CardType {
    /// The carrier for a code; any code outside 1..=8 is an error.
    pub fn from_u8(i: u8) -> (r: Result<CardType, ErrorKind>)
        ensures
            match card_of_code(i) {
                Some(c) => r == Ok::<CardType, ErrorKind>(c),
                None => r == Err::<CardType, ErrorKind>(ErrorKind::InvalidOpNo),
            },
    {
        match i {
            1 => Ok(CardType::Cmcc),
            2 => Ok(CardType::Cucc),
            3 => Ok(CardType::Ctcc),
            4 => Ok(CardType::CtccV),
            5 => Ok(CardType::CuccV),
            6 => Ok(CardType::CmccV),
            7 => Ok(CardType::Cbcc),
            8 => Ok(CardType::CbccV),
            _ => Err(ErrorKind::InvalidOpNo),
        }
    }

    /// The carrier's code.
    pub fn get_code(&self) -> (r: u8)
        ensures
            r == card_code(*self),
            card_of_code(r) == Some(*self),
    {
        match self {
            CardType::Cmcc => 1,
            CardType::Cucc => 2,
            CardType::Ctcc => 3,
            CardType::CtccV => 4,
            CardType::CuccV => 5,
            CardType::CmccV => 6,
            CardType::Cbcc => 7,
            CardType::CbccV => 8,
        }
    }
}

/// The signed 32-bit integer whose little-endian bytes are `b0 b1 b2 b3`.
pub open spec fn le_i32(b0: u8, b1: u8, b2: u8, b3: u8) -> int {
    let u = b0 as int + 256 * b1 as int + 65536 * b2 as int + 16777216 * b3 as int;
    if u >= 0x8000_0000 {
        u - 0x1_0000_0000
    } else {
        u
    }
}

/// Reads a little-endian `i32` from the first four bytes of `s`; a slice
/// shorter than four bytes reads as 0.
pub fn four_u8_to_i32(s: &[u8]) -> (r: i32)
    ensures
        s@.len() < 4 ==> r == 0,
        s@.len() >= 4 ==> r as int == le_i32(s@[0], s@[1], s@[2], s@[3]),
{
    if s.len() < 4 {
        return 0;
    }
    let u: u32 = s[0] as u32 | (s[1] as u32) << 8u32 | (s[2] as u32) << 16u32 | (s[3] as u32) << 24u32;
    proof {
        let (b0, b1, b2, b3) = (s@[0], s@[1], s@[2], s@[3]);
        assert(u == b0 as u32 + 256 * b1 as u32 + 65536 * b2 as u32 + 16777216 * b3 as u32) by (bit_vector)
            requires
                u == b0 as u32 | (b1 as u32) << 8u32 | (b2 as u32) << 16u32 | (b3 as u32) << 24u32,
        ;
    }
    if u < 0x8000_0000 {
        u as i32
    } else {
        (u - 0x8000_0000) as i32 + i32::MIN
    }
}


/// Byte that separates the four fields of a record.
pub const FIELD_SEPARATOR: u8 = 124;

/// Length of the file header: a 4-byte version and a 4-byte index offset.
pub const HEADER_LEN: usize = 8;

/// The decoded fields of one record.
pub ghost struct RecordView {
    pub province: Seq<char>,
    pub city: Seq<char>,
    pub zip_code: Seq<char>,
    pub area_code: Seq<char>,
}

/// A record of the records region, split into its four fields.
#[derive(Debug, Clone)]
pub struct ParsedRecord {
    pub province: String,
    pub city: String,
    pub zip_code: String,
    pub area_code: String,
}

impl View for ParsedRecord {
    type V = RecordView;

    open spec fn view(&self) -> RecordView {
        RecordView {
            province: self.province@,
            city: self.city@,
            zip_code: self.zip_code@,
            area_code: self.area_code@,
        }
    }
}

impl ParsedRecord {
    /// The record's bytes again: the UTF-8 of each field, joined by `|`.
    pub fn to_bytes(&self) -> (r: Vec<u8>)
        ensures
            r@ == join_fields(
                encode_utf8(self.province@),
                encode_utf8(self.city@),
                encode_utf8(self.zip_code@),
                encode_utf8(self.area_code@),
            ),
    {
        let mut out = self.province.as_str().as_bytes_vec();
        out.push(FIELD_SEPARATOR);
        let mut b = self.city.as_str().as_bytes_vec();
        out.append(&mut b);
        out.push(FIELD_SEPARATOR);
        let mut b = self.zip_code.as_str().as_bytes_vec();
        out.append(&mut b);
        out.push(FIELD_SEPARATOR);
        let mut b = self.area_code.as_str().as_bytes_vec();
        out.append(&mut b);
        out
    }

    pub fn new(province: String, city: String, zip_code: String, area_code: String) -> (r:
        ParsedRecord)
        ensures
            r.province == province,
            r.city == city,
            r.zip_code == zip_code,
            r.area_code == area_code,
    {
        ParsedRecord { province, city, zip_code, area_code }
    }
}

/// Index of the first zero byte of `b` at or after `i`, if there is one.
pub open spec fn first_zero_from(b: Seq<u8>, i: int) -> Option<int>
    decreases b.len() - i,
{
    if 0 <= i < b.len() {
        if b[i] == 0 {
            Some(i)
        } else {
            first_zero_from(b, i + 1)
        }
    } else {
        None
    }
}

/// `b` cut at every separator byte, left to right.
pub open spec fn split_fields(b: Seq<u8>) -> Seq<Seq<u8>>
    decreases b.len(),
{
    if b.len() == 0 {
        seq![Seq::empty()]
    } else {
        let prev = split_fields(b.drop_last());
        if b.last() == FIELD_SEPARATOR {
            prev.push(Seq::empty())
        } else {
            prev.update(prev.len() - 1, prev.last().push(b.last()))
        }
    }
}

/// The four byte strings joined by separator bytes.
pub open spec fn join_fields(a: Seq<u8>, b: Seq<u8>, c: Seq<u8>, d: Seq<u8>) -> Seq<u8> {
    a + seq![FIELD_SEPARATOR] + b + seq![FIELD_SEPARATOR] + c + seq![FIELD_SEPARATOR] + d
}

/// The bytes of the record that starts at absolute file offset `offset`:
/// from there up to (not including) the next zero byte of the records region.
pub open spec fn record_bytes(records: Seq<u8>, offset: int) -> Option<Seq<u8>> {
    let start = offset - HEADER_LEN;
    if start < 0 {
        None
    } else {
        match first_zero_from(records, start) {
            Some(end) => Some(records.subrange(start, end)),
            None => None,
        }
    }
}

/// The pieces of a split joined back with separator bytes.
pub open spec fn join_all(s: Seq<Seq<u8>>) -> Seq<u8>
    decreases s.len(),
{
    if s.len() <= 1 {
        if s.len() == 1 {
            s[0]
        } else {
            Seq::empty()
        }
    } else {
        join_all(s.drop_last()) + seq![FIELD_SEPARATOR] + s.last()
    }
}

/// Splitting at the separators and joining back gives the bytes again.
pub proof fn lemma_split_join(b: Seq<u8>)
    ensures
        join_all(split_fields(b)) == b,
    decreases b.len(),
{
    if b.len() == 0 {
        assert(join_all(split_fields(b)) =~= b);
    } else {
        let bp = b.drop_last();
        let c = b.last();
        let prev = split_fields(bp);
        lemma_split_join(bp);
        lemma_split_fields_nonempty(bp);
        if c == FIELD_SEPARATOR {
            let s = prev.push(Seq::<u8>::empty());
            assert(s.drop_last() =~= prev);
            assert(join_all(s) =~= b);
        } else {
            let s = prev.update(prev.len() - 1, prev.last().push(c));
            if prev.len() == 1 {
                assert(join_all(s) =~= b);
            } else {
                assert(s.drop_last() =~= prev.drop_last());
                assert(join_all(prev) == join_all(prev.drop_last()) + seq![FIELD_SEPARATOR]
                    + prev.last());
                assert(s.last() == prev.last().push(c));
                assert(b =~= bp.push(c));
                assert(join_all(s) =~= b);
            }
        }
    }
}

/// The four fields of a split into exactly four pieces are all
/// well-formed UTF-8 when the whole is.
proof fn lemma_four_fields_utf8(b: Seq<u8>)
    requires
        split_fields(b).len() == 4,
        valid_utf8(b),
    ensures
        b == join_fields(split_fields(b)[0], split_fields(b)[1], split_fields(b)[2], split_fields(b)[3]),
        valid_utf8(split_fields(b)[0]),
        valid_utf8(split_fields(b)[1]),
        valid_utf8(split_fields(b)[2]),
        valid_utf8(split_fields(b)[3]),
{
    let f = split_fields(b);
    lemma_split_join(b);
    let s = seq![FIELD_SEPARATOR];
    let d1 = f.drop_last();
    let d2 = d1.drop_last();
    let d3 = d2.drop_last();
    assert(d3 =~= seq![f[0]]);
    assert(join_all(d3) == f[0]);
    assert(join_all(d2) == join_all(d3) + s + f[1]);
    assert(join_all(d1) == join_all(d2) + s + f[2]);
    assert(join_all(f) == join_all(d1) + s + f[3]);
    assert(join_all(f) =~= join_fields(f[0], f[1], f[2], f[3]));
    let t1 = f[1] + s + f[2] + s + f[3];
    let t2 = f[2] + s + f[3];
    let j0 = f[0].len() as int;
    assert(b[j0] == FIELD_SEPARATOR);
    assert(b.subrange(0, j0) =~= f[0]);
    assert(b.subrange(j0 + 1, b.len() as int) =~= t1);
    lemma_utf8_around_separator(b, j0);
    let j1 = f[1].len() as int;
    assert(t1[j1] == FIELD_SEPARATOR);
    assert(t1.subrange(0, j1) =~= f[1]);
    assert(t1.subrange(j1 + 1, t1.len() as int) =~= t2);
    lemma_utf8_around_separator(t1, j1);
    let j2 = f[2].len() as int;
    assert(t2[j2] == FIELD_SEPARATOR);
    assert(t2.subrange(0, j2) =~= f[2]);
    assert(t2.subrange(j2 + 1, t2.len() as int) =~= f[3]);
    lemma_utf8_around_separator(t2, j2);
}

/// What decoding the record at absolute file offset `offset` yields.
pub open spec fn decode_record(records: Seq<u8>, offset: int) -> Result<RecordView, ErrorKind> {
    match record_bytes(records, offset) {
        None => Err(ErrorKind::InvalidPhoneDatabase),
        Some(body) => {
            let f = split_fields(body);
            if f.len() == 4 && valid_utf8(body) {
                Ok(
                    RecordView {
                        province: decode_utf8(f[0]),
                        city: decode_utf8(f[1]),
                        zip_code: decode_utf8(f[2]),
                        area_code: decode_utf8(f[3]),
                    },
                )
            } else {
                Err(ErrorKind::InvalidPhoneDatabase)
            }
        },
    }
}

pub open spec fn record_result_view(r: Result<ParsedRecord, ErrorKind>) -> Result<RecordView, ErrorKind> {
    match r {
        Ok(rec) => Ok(rec@),
        Err(e) => Err(e),
    }
}

/// Relies on std::str::from_utf8: it accepts exactly the well-formed UTF-8
/// byte strings, and the text it returns is made of those very bytes.
#[verifier::external_body]
fn text_of_bytes(b: &[u8]) -> (r: Option<&str>)
    ensures
        r is Some <==> valid_utf8(b@),
        r matches Some(s) ==> s.spec_bytes() == b@,
{
    std::str::from_utf8(b).ok()
}

/// The text that a byte string encodes, if it is well-formed UTF-8.
pub fn decode_text(b: &[u8]) -> (r: Option<String>)
    ensures
        r is Some <==> valid_utf8(b@),
        r matches Some(s) ==> s@ == decode_utf8(b@),
{
    match text_of_bytes(b) {
        Some(t) => {
            proof {
                encode_utf8_decode_utf8(t@);
            }
            Some(t.to_owned())
        },
        None => None,
    }
}


proof fn lemma_first_zero_skip(b: Seq<u8>, i: int, e: int)
    requires
        0 <= i <= e,
        forall|k: int| i <= k < e ==> b[k] != 0,
        e <= b.len(),
    ensures
        first_zero_from(b, i) == first_zero_from(b, e),
    decreases e - i,
{
    if i < e {
        lemma_first_zero_skip(b, i + 1, e);
    }
}

proof fn lemma_split_fields_nonempty(b: Seq<u8>)
    ensures
        split_fields(b).len() >= 1,
    decreases b.len(),
{
    if b.len() > 0 {
        lemma_split_fields_nonempty(b.drop_last());
    }
}

/// Where field `k` starts, given the positions of the separators.
spec fn field_start(seps: Seq<usize>, k: int) -> int {
    if k == 0 {
        0
    } else {
        seps[k - 1] + 1
    }
}

/// Where field `k` ends, given the positions of the separators and the length.
spec fn field_end(seps: Seq<usize>, k: int, n: int) -> int {
    if k < seps.len() {
        seps[k] as int
    } else {
        n
    }
}

/// `seps` lists, in order, the positions of the separators among the first `n` bytes of `b`.
spec fn separators_of(b: Seq<u8>, n: int, seps: Seq<usize>) -> bool {
    &&& 0 <= n <= b.len()
    &&& forall|k: int| 0 <= k < seps.len() ==> seps[k] < n && b[seps[k] as int] == FIELD_SEPARATOR
    &&& forall|k: int, l: int| 0 <= k < l < seps.len() ==> seps[k] < seps[l]
    &&& split_fields(b.subrange(0, n)).len() == seps.len() + 1
    &&& forall|k: int|
        0 <= k <= seps.len() ==> #[trigger] split_fields(b.subrange(0, n))[k] == b.subrange(
            field_start(seps, k),
            field_end(seps, k, n),
        )
}

/// A separator byte is a character on its own in UTF-8, so the text around
/// it is well formed exactly when both sides are.
proof fn lemma_utf8_around_separator(b: Seq<u8>, j: int)
    requires
        0 <= j < b.len(),
        b[j] == FIELD_SEPARATOR,
    ensures
        valid_utf8(b) <==> valid_utf8(b.subrange(0, j)) && valid_utf8(
            b.subrange(j + 1, b.len() as int),
        ),
{
    let head = b.subrange(0, j);
    let rest = b.subrange(j + 1, b.len() as int);
    let tail = b.subrange(j, b.len() as int);
    let sep = seq![FIELD_SEPARATOR];
    reveal_with_fuel(valid_utf8, 2);
    assert(valid_utf8(sep));
    assert(pop_first_scalar(tail) =~= rest);
    if valid_utf8(b) {
        is_char_boundary_iff_not_is_continuation_byte(b, j);
        valid_utf8_split(b, j);
        assert(valid_utf8(tail));
    }
    if valid_utf8(head) && valid_utf8(rest) {
        valid_utf8_concat(sep, rest);
        assert(sep + rest =~= tail);
        valid_utf8_concat(head, tail);
        assert(head + tail =~= b);
    }
}

/// Decodes the record that starts at absolute file offset `offset` of a file
/// whose records region is `records`: the bytes up to the next zero byte,
/// well-formed UTF-8, in exactly four fields separated by `|`.
pub fn parse_record_data(records: &[u8], offset: usize) -> (r: Result<ParsedRecord, ErrorKind>)
    ensures
        record_result_view(r) == decode_record(records@, offset as int),
{
    if offset < HEADER_LEN {
        return Err(ErrorKind::InvalidPhoneDatabase);
    }
    let start = offset - HEADER_LEN;
    let mut end = start;
    while end < records.len() && records[end] != 0
        invariant
            start <= end,
            forall|k: int| start <= k < end ==> records@[k] != 0,
        decreases records.len() - end,
    {
        end = end + 1;
    }
    if end >= records.len() {
        proof {
            if start < records.len() {
                lemma_first_zero_skip(records@, start as int, records@.len() as int);
            }
        }
        return Err(ErrorKind::InvalidPhoneDatabase);
    }
    proof {
        lemma_first_zero_skip(records@, start as int, end as int);
    }
    let body = slice_subrange(records, start, end);
    let ghost b = body@;
    let mut seps: Vec<usize> = Vec::new();
    let mut i: usize = 0;
    proof {
        assert(b.subrange(0, 0) =~= Seq::<u8>::empty());
    }
    while i < body.len()
        invariant
            b == body@,
            i <= body.len(),
            separators_of(b, i as int, seps@),
        decreases body.len() - i,
    {
        let ghost prev_seps = seps@;
        proof {
            assert(b.subrange(0, i + 1).drop_last() =~= b.subrange(0, i as int));
            lemma_split_fields_nonempty(b.subrange(0, i as int));
        }
        if body[i] == FIELD_SEPARATOR {
            seps.push(i);
            proof {
                assert forall|k: int| 0 <= k <= seps@.len() implies #[trigger] split_fields(
                    b.subrange(0, i + 1),
                )[k] == b.subrange(field_start(seps@, k), field_end(seps@, k, i + 1)) by {
                    if k < prev_seps.len() {
                        assert(split_fields(b.subrange(0, i as int))[k] == b.subrange(
                            field_start(prev_seps, k),
                            field_end(prev_seps, k, i as int),
                        ));
                    } else if k == prev_seps.len() {
                        assert(split_fields(b.subrange(0, i as int))[k] == b.subrange(
                            field_start(prev_seps, k),
                            field_end(prev_seps, k, i as int),
                        ));
                    } else {
                        assert(b.subrange(i + 1, i + 1) =~= Seq::<u8>::empty());
                    }
                }
            }
        } else {
            proof {
                let n = prev_seps.len() as int;
                assert forall|k: int| 0 <= k <= seps@.len() implies #[trigger] split_fields(
                    b.subrange(0, i + 1),
                )[k] == b.subrange(field_start(seps@, k), field_end(seps@, k, i + 1)) by {
                    assert(split_fields(b.subrange(0, i as int))[k] == b.subrange(
                        field_start(prev_seps, k),
                        field_end(prev_seps, k, i as int),
                    ));
                    if k == n {
                        assert(b.subrange(field_start(prev_seps, k), i as int).push(b[i as int])
                            =~= b.subrange(field_start(prev_seps, k), i + 1));
                    }
                }
            }
        }
        i = i + 1;
    }
    proof {
        assert(b.subrange(0, b.len() as int) =~= b);
    }
    if seps.len() != 3 {
        return Err(ErrorKind::InvalidPhoneDatabase);
    }
    let s0 = seps[0];
    let s1 = seps[1];
    let s2 = seps[2];
    let ghost f = split_fields(b);
    proof {
        assert(f[0] == b.subrange(field_start(seps@, 0), field_end(seps@, 0, b.len() as int)));
        assert(f[1] == b.subrange(field_start(seps@, 1), field_end(seps@, 1, b.len() as int)));
        assert(f[2] == b.subrange(field_start(seps@, 2), field_end(seps@, 2, b.len() as int)));
        assert(f[3] == b.subrange(field_start(seps@, 3), field_end(seps@, 3, b.len() as int)));
        let t1 = b.subrange(s0 + 1, b.len() as int);
        let t2 = b.subrange(s1 + 1, b.len() as int);
        lemma_utf8_around_separator(b, s0 as int);
        lemma_utf8_around_separator(t1, s1 - s0 - 1);
        assert(t1.subrange(0, s1 - s0 - 1) =~= f[1]);
        assert(t1.subrange(s1 - s0, t1.len() as int) =~= t2);
        lemma_utf8_around_separator(t2, s2 - s1 - 1);
        assert(t2.subrange(0, s2 - s1 - 1) =~= f[2]);
        assert(t2.subrange(s2 - s1, t2.len() as int) =~= f[3]);
    }
    let province = decode_text(slice_subrange(body, 0, s0));
    let city = decode_text(slice_subrange(body, s0 + 1, s1));
    let zip_code = decode_text(slice_subrange(body, s1 + 1, s2));
    let area_code = decode_text(slice_subrange(body, s2 + 1, body.len()));
    match (province, city, zip_code, area_code) {
        (Some(province), Some(city), Some(zip_code), Some(area_code)) => {
            Ok(ParsedRecord { province, city, zip_code, area_code })
        },
        _ => Err(ErrorKind::InvalidPhoneDatabase),
    }
}


/// What a lookup returns: the record's four fields and the carrier's name.
pub ghost struct InfoView {
    pub province: Seq<char>,
    pub city: Seq<char>,
    pub zip_code: Seq<char>,
    pub area_code: Seq<char>,
    pub card_type: Seq<char>,
}

/// The region and carrier found for a number.
#[derive(Debug, Clone)]
pub struct PhoneNoInfo {
    pub province: String,
    pub city: String,
    pub zip_code: String,
    pub area_code: String,
    pub card_type: String,
}

impl View for PhoneNoInfo {
    type V = InfoView;

    open spec fn view(&self) -> InfoView {
        InfoView {
            province: self.province@,
            city: self.city@,
            zip_code: self.zip_code@,
            area_code: self.area_code@,
            card_type: self.card_type@,
        }
    }
}

impl PhoneNoInfo {
    pub fn new(
        province: String,
        city: String,
        zip_code: String,
        area_code: String,
        card_type: String,
    ) -> (r: PhoneNoInfo)
        ensures
            r.province == province,
            r.city == city,
            r.zip_code == zip_code,
            r.area_code == area_code,
            r.card_type == card_type,
    {
        PhoneNoInfo { province, city, zip_code, area_code, card_type }
    }

    /// A copy that keeps every field.
    pub fn duplicate(&self) -> (r: PhoneNoInfo)
        ensures
            r@ == self@,
    {
        PhoneNoInfo {
            province: self.province.clone(),
            city: self.city.clone(),
            zip_code: self.zip_code.clone(),
            area_code: self.area_code.clone(),
            card_type: self.card_type.clone(),
        }
    }
}

pub open spec fn info_result_view(r: Result<PhoneNoInfo, ErrorKind>) -> Result<InfoView, ErrorKind> {
    match r {
        Ok(info) => Ok(info@),
        Err(e) => Err(e),
    }
}

/// The name under which each carrier is reported.
pub open spec fn card_name(c: CardType) -> Seq<char> {
    match c {
        CardType::Cmcc => "中国移动"@,
        CardType::Cucc => "中国联通"@,
        CardType::Ctcc => "中国电信"@,
        CardType::CtccV => "中国电信虚拟运营商"@,
        CardType::CuccV => "中国联通虚拟运营商"@,
        CardType::CmccV => "中国移动虚拟运营商"@,
        CardType::Cbcc => "中国广电"@,
        CardType::CbccV => "中国广电虚拟运营商"@,
    }
}

impl CardType {
    /// The carrier's name.
    pub fn get_description(&self) -> (r: String)
        ensures
            r@ == card_name(*self),
    {
        match self {
            CardType::Cmcc => "中国移动".to_owned(),
            CardType::Cucc => "中国联通".to_owned(),
            CardType::Ctcc => "中国电信".to_owned(),
            CardType::CtccV => "中国电信虚拟运营商".to_owned(),
            CardType::CuccV => "中国联通虚拟运营商".to_owned(),
            CardType::CmccV => "中国移动虚拟运营商".to_owned(),
            CardType::Cbcc => "中国广电".to_owned(),
            CardType::CbccV => "中国广电虚拟运营商".to_owned(),
        }
    }
}

/// A decoded record joined with the carrier that `card_type` names.
pub open spec fn info_of(rec: RecordView, card_type: u8) -> Result<InfoView, ErrorKind> {
    match card_of_code(card_type) {
        Some(c) => Ok(
            InfoView {
                province: rec.province,
                city: rec.city,
                zip_code: rec.zip_code,
                area_code: rec.area_code,
                card_type: card_name(c),
            },
        ),
        None => Err(ErrorKind::InvalidOpNo),
    }
}

/// Joins a decoded record with the carrier that `card_type` names.
pub fn build_phone_info(record: &ParsedRecord, card_type: u8) -> (r: Result<PhoneNoInfo, ErrorKind>)
    ensures
        info_result_view(r) == info_of(record@, card_type),
{
    let card = CardType::from_u8(card_type)?;
    Ok(
        PhoneNoInfo {
            province: record.province.clone(),
            city: record.city.clone(),
            zip_code: record.zip_code.clone(),
            area_code: record.area_code.clone(),
            card_type: card.get_description(),
        },
    )
}

pub open spec fn is_digit(c: u8) -> bool {
    48 <= c <= 57
}

/// The decimal value of a string of digits.
pub open spec fn digits_value(b: Seq<u8>) -> int
    decreases b.len(),
{
    if b.len() == 0 {
        0
    } else {
        digits_value(b.drop_last()) * 10 + (b.last() - 48)
    }
}

pub open spec fn pow10(n: nat) -> int
    decreases n,
{
    if n == 0 {
        1
    } else {
        10 * pow10((n - 1) as nat)
    }
}

/// Length of the key prefix of a number.
pub const PREFIX_LEN: usize = 7;

/// Longest number accepted.
pub const MAX_NUMBER_LEN: usize = 11;

/// The lookup key of a number, or why it has none. A number is 7 to 11
/// bytes long; its first seven bytes must be ASCII digits, read as a decimal
/// value. The bytes after the seventh are not looked at.
pub open spec fn phone_prefix(no: Seq<u8>) -> Result<i32, ErrorKind> {
    if no.len() < PREFIX_LEN || no.len() > MAX_NUMBER_LEN {
        Err(ErrorKind::InvalidLength)
    } else if forall|i: int| 0 <= i < PREFIX_LEN ==> is_digit(#[trigger] no[i]) {
        Ok(digits_value(no.subrange(0, PREFIX_LEN as int)) as i32)
    } else {
        Err(ErrorKind::InvalidFormat)
    }
}

/// Checks the length of a number and reads its key, strictly digit by digit.
pub fn validate_phone_no(no: &str) -> (r: Result<i32, ErrorKind>)
    ensures
        r == phone_prefix(no.spec_bytes()),
{
    let b = no.as_bytes();
    let len = b.len();
    if len < PREFIX_LEN || len > MAX_NUMBER_LEN {
        return Err(ErrorKind::InvalidLength);
    }
    let mut v: u32 = 0;
    let mut i: usize = 0;
    while i < PREFIX_LEN
        invariant
            b@ == no.spec_bytes(),
            PREFIX_LEN <= b@.len() <= MAX_NUMBER_LEN,
            i <= PREFIX_LEN,
            v as int == digits_value(b@.subrange(0, i as int)),
            v < pow10(i as nat),
            forall|k: int| 0 <= k < i ==> is_digit(#[trigger] b@[k]),
        decreases PREFIX_LEN - i,
    {
        let c = b[i];
        if c < 48 || c > 57 {
            assert(!is_digit(b@[i as int]));
            return Err(ErrorKind::InvalidFormat);
        }
        proof {
            assert(b@.subrange(0, i + 1).drop_last() =~= b@.subrange(0, i as int));
            let p = pow10(i as nat);
            assert(pow10((i + 1) as nat) == 10 * p);
            assert(v * 10 + (c - 48) < 10 * p) by (nonlinear_arith)
                requires
                    v < p,
                    c - 48 <= 9,
            ;
            reveal_with_fuel(pow10, 8);
        }
        v = v * 10 + (c - 48) as u32;
        i = i + 1;
    }
    proof {
        reveal_with_fuel(pow10, 8);
    }
    Ok(v as i32)
}


/// Looking numbers up. Each strategy of the library implements it, and
/// all of them answer alike for the same database.
pub trait PhoneLookup {
    /// What `find` returns for a number with bytes `no`.
    spec fn lookup_spec(&self, no: Seq<u8>) -> Result<InfoView, ErrorKind>;

    /// Looks up one number.
    fn find(&self, no: &str) -> (r: Result<PhoneNoInfo, ErrorKind>)
        ensures
            info_result_view(r) == self.lookup_spec(no.spec_bytes()),
    ;

    /// Looks up each number on its own, in order; one failure does not
    /// stop the others.
    fn find_batch(&self, phones: &[&str]) -> (r: Vec<Result<PhoneNoInfo, ErrorKind>>)
        ensures
            r@.len() == phones@.len(),
            forall|i: int|
                0 <= i < phones@.len() ==> info_result_view(#[trigger] r@[i]) == self.lookup_spec(
                    phones@[i].spec_bytes(),
                ),
    {
        let mut out: Vec<Result<PhoneNoInfo, ErrorKind>> = Vec::new();
        let mut i: usize = 0;
        while i < phones.len()
            invariant
                i <= phones@.len(),
                out@.len() == i,
                forall|k: int|
                    0 <= k < i ==> info_result_view(#[trigger] out@[k]) == self.lookup_spec(
                        phones@[k].spec_bytes(),
                    ),
            decreases phones@.len() - i,
        {
            let r = self.find(phones[i]);
            out.push(r);
            i = i + 1;
        }
        out
    }
}

/// The size figures of a loaded database.
pub trait PhoneStats {
    /// How many index entries the database holds.
    spec fn entries_spec(&self) -> nat;

    /// The database's version string.
    spec fn version_spec(&self) -> Seq<char>;

    /// The memory the database's structures take, in bytes, as estimated.
    spec fn memory_spec(&self) -> int;

    fn total_entries(&self) -> (r: usize)
        ensures
            r == self.entries_spec(),
    ;

    fn version(&self) -> (r: &str)
        ensures
            r@ == self.version_spec(),
    ;

    fn memory_usage_bytes(&self) -> (r: usize)
        ensures
            r == self.memory_spec(),
    ;
}

/// `x`, or the largest `usize` where `x` is larger.
pub open spec fn saturate(x: int) -> int {
    if x > usize::MAX {
        usize::MAX as int
    } else {
        x
    }
}

/// `a + b * c` for sizes, saturating at the largest `usize`.
pub fn size_sum(a: usize, b: usize, c: usize) -> (r: usize)
    ensures
        r == saturate(a + b * c),
{
    match b.checked_mul(c) {
        Some(m) => a.saturating_add(m),
        None => {
            assert(b * c > usize::MAX);
            assert(a + b * c > usize::MAX);
            usize::MAX
        },
    }
}


/// Decoding a record and writing its fields back, joined by `|`, gives
/// the record's bytes up to its terminator.
pub proof fn lemma_record_round_trip(records: Seq<u8>, offset: int)
    requires
        decode_record(records, offset) is Ok,
    ensures
        ({
            let rec = decode_record(records, offset)->Ok_0;
            join_fields(
                encode_utf8(rec.province),
                encode_utf8(rec.city),
                encode_utf8(rec.zip_code),
                encode_utf8(rec.area_code),
            ) == record_bytes(records, offset)->Some_0
        }),
{
    let body = record_bytes(records, offset)->Some_0;
    let f = split_fields(body);
    lemma_four_fields_utf8(body);
    decode_utf8_encode_utf8(f[0]);
    decode_utf8_encode_utf8(f[1]);
    decode_utf8_encode_utf8(f[2]);
    decode_utf8_encode_utf8(f[3]);
}

} // verus!

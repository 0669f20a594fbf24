//! Protocol-buffer fields on the wire: a message is a run of fields, each a
//! number and a value, and this module turns such runs into bytes and back.
//!
//! The bytes of a single field are made and read by the `protobuf` crate.
//! What that crate returns is spelled out here where a few lines can say
//! it; elsewhere it is given a name, and the functions of this module say
//! how their results are put together from the named pieces.

use protobuf::rt::WireType;
use protobuf::{CodedInputStream, CodedOutputStream};
use vstd::prelude::*;
use vstd::slice::slice_subrange;

verus! {

/// The largest number a field can have.
pub const FIELD_NUMBER_MAX: u32 = 0x1fff_ffff;

/// The wire type of a variable-length integer.
pub const WIRE_VARINT: u32 = 0;

/// The wire type of a length-delimited value.
pub const WIRE_BYTES: u32 = 2;

/// The wire type of four bytes.
pub const WIRE_FIXED32: u32 = 5;

/// The bytes of a `uint64` field, as `CodedOutputStream::write_uint64`
/// writes them.
pub uninterp spec fn uint64_field_bytes(number: u32, value: u64) -> Seq<u8>;

/// The bytes of the tag of a `fixed32` field, as
/// `CodedOutputStream::write_fixed32` writes them in front of the value.
pub uninterp spec fn fixed32_tag_bytes(number: u32) -> Seq<u8>;

/// The bytes of the tag and the length of a `bytes` field, as
/// `CodedOutputStream::write_bytes` writes them in front of a value of
/// `length` bytes.
pub uninterp spec fn bytes_head_bytes(number: u32, length: nat) -> Seq<u8>;

/// The four bytes of `value`, the lowest first.
pub open spec fn le_bytes(value: u32) -> Seq<u8> {
    seq![
        (value % 256) as u8,
        (value / 256 % 256) as u8,
        (value / 65536 % 256) as u8,
        (value / 16777216) as u8,
    ]
}

/// The value of four bytes, the lowest first.
pub open spec fn le_value(b0: u8, b1: u8, b2: u8, b3: u8) -> u32 {
    (b0 + 256 * b1 + 65536 * b2 + 16777216 * b3) as u32
}

/// The bytes of a `fixed32` field: its tag and the four bytes of the
/// value, the lowest first.
pub open spec fn fixed32_field_bytes(number: u32, value: u32) -> Seq<u8> {
    fixed32_tag_bytes(number) + le_bytes(value)
}

/// The bytes of a `bytes` field: its tag and its length, and the value as
/// it is.
pub open spec fn bytes_field_bytes(number: u32, value: Seq<u8>) -> Seq<u8> {
    bytes_head_bytes(number, value.len()) + value
}

/// The `fixed32` value at the start of `rest` and the four bytes it takes,
/// or `None` where `rest` is shorter.
pub open spec fn fixed32_read(rest: Seq<u8>) -> Option<(u32, nat)> {
    if rest.len() >= 4 {
        Some((le_value(rest[0], rest[1], rest[2], rest[3]), 4nat))
    } else {
        None
    }
}

/// Four bytes that were written for a value are read as that value.
pub proof fn lemma_fixed32_round_trip(value: u32, behind: Seq<u8>)
    ensures
        fixed32_read(le_bytes(value) + behind) == Some((value, 4nat)),
{
    let bytes = le_bytes(value) + behind;
    assert(bytes[0] == le_bytes(value)[0]);
    assert(bytes[1] == le_bytes(value)[1]);
    assert(bytes[2] == le_bytes(value)[2]);
    assert(bytes[3] == le_bytes(value)[3]);
}

/// The 32-bit variable-length integer at the start of `rest` and the
/// number of bytes it takes, as `CodedInputStream::read_raw_varint32` reads
/// it, or `None` where it fails.
pub uninterp spec fn varint32_read(rest: Seq<u8>) -> Option<(u32, nat)>;

/// The 64-bit variable-length integer at the start of `rest` and the
/// number of bytes it takes, as `CodedInputStream::read_raw_varint64` reads
/// it, or `None` where it fails.
pub uninterp spec fn varint64_read(rest: Seq<u8>) -> Option<(u64, nat)>;

/// The length-delimited value at the start of `rest` and the number of
/// bytes it takes with its length, as `CodedInputStream::read_bytes` reads
/// it, or `None` where it fails.
pub uninterp spec fn bytes_read(rest: Seq<u8>) -> Option<(Seq<u8>, nat)>;

/// The number of bytes that the value of `wire_type` at the start of
/// `rest` takes, as `CodedInputStream::skip_field` skips it, or `None`
/// where there is no such wire type or skipping fails.
pub uninterp spec fn value_skipped(rest: Seq<u8>, wire_type: u32) -> Option<nat>;

/// Appends a `uint64` field to `out` with
/// `protobuf::CodedOutputStream::write_uint64` on a stream over `out`.
/// The contract claims that the write succeeds, as every write to a
/// vector does, and that the bytes it appends depend on the number and
/// the value alone. The number must be one that a field can have: the
/// crate panics on any other.
#[verifier::external_body]
fn append_uint64(out: &mut Vec<u8>, number: u32, value: u64) -> (ok: bool)
    requires
        0 < number <= FIELD_NUMBER_MAX,
    ensures
        ok,
        final(out)@ == old(out)@ + uint64_field_bytes(number, value),
{
    let mut stream = CodedOutputStream::vec(out);
    let written = stream.write_uint64(number, value).is_ok();
    written && stream.flush().is_ok()
}

/// Appends a `fixed32` field to `out` with
/// `protobuf::CodedOutputStream::write_fixed32` on a stream over `out`.
/// The contract claims that the write succeeds, as every write to a
/// vector does, and that it appends a tag, which depends on the number
/// alone, and the four bytes of the value, the lowest first. The number
/// must be one that a field can have: the crate panics on any other.
#[verifier::external_body]
fn append_fixed32(out: &mut Vec<u8>, number: u32, value: u32) -> (ok: bool)
    requires
        0 < number <= FIELD_NUMBER_MAX,
    ensures
        ok,
        final(out)@ == old(out)@ + fixed32_tag_bytes(number) + le_bytes(value),
{
    let mut stream = CodedOutputStream::vec(out);
    let written = stream.write_fixed32(number, value).is_ok();
    written && stream.flush().is_ok()
}

/// Appends a `bytes` field to `out` with
/// `protobuf::CodedOutputStream::write_bytes` on a stream over `out`.
/// The contract claims that the write succeeds, as every write to a
/// vector does, and that it appends a tag and a length, which depend on
/// the number and the length of the value alone, and then the value as it
/// is. The number must be one that a field can have: the crate panics on
/// any other.
#[verifier::external_body]
fn append_bytes(out: &mut Vec<u8>, number: u32, value: &[u8]) -> (ok: bool)
    requires
        0 < number <= FIELD_NUMBER_MAX,
    ensures
        ok,
        final(out)@ == old(out)@ + bytes_head_bytes(number, value@.len()) + value@,
{
    let mut stream = CodedOutputStream::vec(out);
    let written = stream.write_bytes(number, value).is_ok();
    written && stream.flush().is_ok()
}

/// Reads a 32-bit variable-length integer from the start of `rest` with
/// `protobuf::CodedInputStream::read_raw_varint32` and says how many bytes
/// the stream took. The contract claims that the outcome depends on the
/// bytes alone, and that a successful read takes at least one byte and
/// none beyond `rest`.
#[verifier::external_body]
fn read_varint32(rest: &[u8]) -> (r: Option<(u32, usize)>)
    ensures
        r matches Some((_, used)) ==> 0 < used <= rest@.len(),
        varint32_read(rest@) == match r {
            Some((value, used)) => Some((value, used as nat)),
            None => None,
        },
{
    let mut stream = CodedInputStream::from_bytes(rest);
    match stream.read_raw_varint32() {
        Ok(value) => Some((value, stream.pos() as usize)),
        Err(_) => None,
    }
}

/// Reads a 64-bit variable-length integer from the start of `rest` with
/// `protobuf::CodedInputStream::read_raw_varint64` and says how many bytes
/// the stream took. The contract claims that the outcome depends on the
/// bytes alone, and that a successful read takes at least one byte and
/// none beyond `rest`.
#[verifier::external_body]
fn read_varint64(rest: &[u8]) -> (r: Option<(u64, usize)>)
    ensures
        r matches Some((_, used)) ==> 0 < used <= rest@.len(),
        varint64_read(rest@) == match r {
            Some((value, used)) => Some((value, used as nat)),
            None => None,
        },
{
    let mut stream = CodedInputStream::from_bytes(rest);
    match stream.read_raw_varint64() {
        Ok(value) => Some((value, stream.pos() as usize)),
        Err(_) => None,
    }
}

/// Reads a `fixed32` value from the start of `rest` with
/// `protobuf::CodedInputStream::read_fixed32` and says how many bytes the
/// stream took. The contract claims that the read succeeds where `rest`
/// has four bytes or more, takes four, and gives the value whose bytes
/// they are, the lowest first.
#[verifier::external_body]
fn read_fixed32(rest: &[u8]) -> (r: Option<(u32, usize)>)
    ensures
        fixed32_read(rest@) == match r {
            Some((value, used)) => Some((value, used as nat)),
            None => None,
        },
{
    let mut stream = CodedInputStream::from_bytes(rest);
    match stream.read_fixed32() {
        Ok(value) => Some((value, stream.pos() as usize)),
        Err(_) => None,
    }
}

/// Reads a length-delimited value from the start of `rest` with
/// `protobuf::CodedInputStream::read_bytes` and says how many bytes the
/// stream took, the length included. The contract claims that the outcome
/// depends on the bytes alone, and that a successful read takes at least
/// one byte and none beyond `rest`.
#[verifier::external_body]
fn read_bytes(rest: &[u8]) -> (r: Option<(Vec<u8>, usize)>)
    ensures
        r matches Some((_, used)) ==> 0 < used <= rest@.len(),
        bytes_read(rest@) == match r {
            Some((value, used)) => Some((value@, used as nat)),
            None => None,
        },
{
    let mut stream = CodedInputStream::from_bytes(rest);
    match stream.read_bytes() {
        Ok(value) => Some((value, stream.pos() as usize)),
        Err(_) => None,
    }
}

/// Skips the value of `wire_type` at the start of `rest` with
/// `protobuf::CodedInputStream::skip_field`, after
/// `protobuf::rt::WireType::new` has made the wire type of the number, and
/// says how many bytes the stream took. The contract claims that the
/// outcome depends on the bytes and the wire type alone, and that nothing
/// beyond `rest` is taken.
#[verifier::external_body]
fn skip_value(rest: &[u8], wire_type: u32) -> (r: Option<usize>)
    ensures
        r matches Some(used) ==> used <= rest@.len(),
        value_skipped(rest@, wire_type) == match r {
            Some(used) => Some(used as nat),
            None => None,
        },
{
    let kind = WireType::new(wire_type)?;
    let mut stream = CodedInputStream::from_bytes(rest);
    match stream.skip_field(kind) {
        Ok(()) => Some(stream.pos() as usize),
        Err(_) => None,
    }
}

/// The deep view of bytes is their view.
pub broadcast proof fn lemma_bytes_deep_view(bytes: Vec<u8>)
    ensures
        #[trigger] bytes.deep_view() == bytes@,
{
    assert(bytes.deep_view() =~= bytes@);
}

/// The value of one field.
#[derive(Debug, PartialEq, Eq)]
pub enum FieldValue {
    Varint(u64),
    Fixed32(u32),
    Bytes(Vec<u8>),
    /// A value of another wire type. It can be read over, not written.
    Other,
}

/// The mathematical value of a [`FieldValue`].
pub enum FieldValueView {
    Varint(u64),
    Fixed32(u32),
    Bytes(Seq<u8>),
    Other,
}

impl DeepView for FieldValue {
    type V = FieldValueView;

    open spec fn deep_view(&self) -> FieldValueView {
        match *self {
            FieldValue::Varint(v) => FieldValueView::Varint(v),
            FieldValue::Fixed32(v) => FieldValueView::Fixed32(v),
            FieldValue::Bytes(b) => FieldValueView::Bytes(b@),
            FieldValue::Other => FieldValueView::Other,
        }
    }
}

/// One field of a message.
#[derive(Debug, PartialEq, Eq)]
pub struct Field {
    pub number: u32,
    pub value: FieldValue,
}

/// The mathematical value of a [`Field`].
pub struct FieldView {
    pub number: u32,
    pub value: FieldValueView,
}

impl DeepView for Field {
    type V = FieldView;

    open spec fn deep_view(&self) -> FieldView {
        FieldView { number: self.number, value: self.value.deep_view() }
    }
}

/// The field number that a tag holds.
pub open spec fn tag_number(tag: u32) -> u32 {
    tag >> 3
}

/// The wire type that a tag holds.
pub open spec fn tag_wire_type(tag: u32) -> u32 {
    tag & 7
}

/// The value of `wire_type` at the start of `rest` and the number of bytes
/// it takes.
pub open spec fn value_read(wire_type: u32, rest: Seq<u8>) -> Option<(FieldValueView, nat)> {
    if wire_type == WIRE_VARINT {
        match varint64_read(rest) {
            Some((value, used)) => Some((FieldValueView::Varint(value), used)),
            None => None,
        }
    } else if wire_type == WIRE_FIXED32 {
        match fixed32_read(rest) {
            Some((value, used)) => Some((FieldValueView::Fixed32(value), used)),
            None => None,
        }
    } else if wire_type == WIRE_BYTES {
        match bytes_read(rest) {
            Some((value, used)) => Some((FieldValueView::Bytes(value), used)),
            None => None,
        }
    } else {
        match value_skipped(rest, wire_type) {
            Some(used) => Some((FieldValueView::Other, used)),
            None => None,
        }
    }
}

/// The field at the start of `rest` and the number of bytes it takes: a
/// tag, which holds a field number other than zero, and the value that the
/// tag's wire type calls for.
pub open spec fn field_read(rest: Seq<u8>) -> Option<(FieldView, nat)> {
    match varint32_read(rest) {
        None => None,
        Some((tag, used)) => if used > rest.len() || tag_number(tag) == 0 {
            None
        } else {
            match value_read(tag_wire_type(tag), rest.skip(used as int)) {
                None => None,
                Some((value, more)) => Some(
                    (FieldView { number: tag_number(tag), value }, used + more),
                ),
            }
        },
    }
}

/// `fields` in front of what `rest` gave, if it gave anything.
pub open spec fn fields_before(fields: Seq<FieldView>, rest: Option<Seq<FieldView>>) -> Option<
    Seq<FieldView>,
> {
    match rest {
        Some(more) => Some(fields + more),
        None => None,
    }
}

/// The fields that `rest` holds from its first byte to its last, or `None`
/// where it is no run of fields.
pub open spec fn fields_read(rest: Seq<u8>) -> Option<Seq<FieldView>>
    decreases rest.len(),
{
    if rest.len() == 0 {
        Some(Seq::empty())
    } else {
        match field_read(rest) {
            None => None,
            Some((field, used)) => if 0 < used <= rest.len() {
                fields_before(seq![field], fields_read(rest.skip(used as int)))
            } else {
                None
            },
        }
    }
}

/// Whether `field` can be written: its number is one that a field can
/// have, and its value is not of a wire type that is only read over.
pub open spec fn field_fits(field: FieldView) -> bool {
    0 < field.number <= FIELD_NUMBER_MAX && !(field.value is Other)
}

/// The bytes of one field, or `None` where it cannot be written.
pub open spec fn field_written(field: FieldView) -> Option<Seq<u8>> {
    if field_fits(field) {
        match field.value {
            FieldValueView::Varint(value) => Some(uint64_field_bytes(field.number, value)),
            FieldValueView::Fixed32(value) => Some(fixed32_field_bytes(field.number, value)),
            FieldValueView::Bytes(value) => Some(bytes_field_bytes(field.number, value)),
            FieldValueView::Other => None,
        }
    } else {
        None
    }
}

/// The bytes of `fields` one after the other, or `None` where one of them
/// cannot be written.
pub open spec fn fields_written(fields: Seq<FieldView>) -> Option<Seq<u8>>
    decreases fields.len(),
{
    if fields.len() == 0 {
        Some(Seq::empty())
    } else {
        match (fields_written(fields.drop_last()), field_written(fields.last())) {
            (Some(before), Some(last)) => Some(before + last),
            _ => None,
        }
    }
}

/// Reads the value of `wire_type` from the start of `rest`.
fn read_value(wire_type: u32, rest: &[u8]) -> (r: Option<(FieldValue, usize)>)
    ensures
        r matches Some((_, used)) ==> used <= rest@.len(),
        value_read(wire_type, rest@) == match r {
            Some((value, used)) => Some((value.deep_view(), used as nat)),
            None => None,
        },
{
    if wire_type == WIRE_VARINT {
        match read_varint64(rest) {
            Some((value, used)) => Some((FieldValue::Varint(value), used)),
            None => None,
        }
    } else if wire_type == WIRE_FIXED32 {
        match read_fixed32(rest) {
            Some((value, used)) => Some((FieldValue::Fixed32(value), used)),
            None => None,
        }
    } else if wire_type == WIRE_BYTES {
        match read_bytes(rest) {
            Some((value, used)) => Some((FieldValue::Bytes(value), used)),
            None => None,
        }
    } else {
        match skip_value(rest, wire_type) {
            Some(used) => Some((FieldValue::Other, used)),
            None => None,
        }
    }
}

/// Reads one field from the start of `rest`.
fn read_field(rest: &[u8]) -> (r: Option<(Field, usize)>)
    ensures
        r matches Some((_, used)) ==> 0 < used <= rest@.len(),
        field_read(rest@) == match r {
            Some((field, used)) => Some((field.deep_view(), used as nat)),
            None => None,
        },
{
    match read_varint32(rest) {
        None => None,
        Some((tag, used)) => {
            let number = tag >> 3;
            if number == 0 {
                return None;
            }
            let behind = slice_subrange(rest, used, rest.len());
            assert(behind@ =~= rest@.skip(used as int));
            match read_value(tag & 7, behind) {
                None => None,
                Some((value, more)) => Some((Field { number, value }, used + more)),
            }
        },
    }
}

/// Reads `bytes` as a run of fields.
pub fn read_fields(bytes: &[u8]) -> (r: Option<Vec<Field>>)
    ensures
        r.deep_view() == fields_read(bytes@),
{
    let mut fields: Vec<Field> = Vec::new();
    let mut at: usize = 0;
    assert(bytes@.skip(0) =~= bytes@);
    assert(fields.deep_view() + fields_read(bytes@).unwrap() =~= fields_read(bytes@).unwrap());
    while at < bytes.len()
        invariant
            at <= bytes.len(),
            fields_read(bytes@) == fields_before(
                fields.deep_view(),
                fields_read(bytes@.skip(at as int)),
            ),
        decreases bytes.len() - at,
    {
        let rest = slice_subrange(bytes, at, bytes.len());
        assert(rest@ =~= bytes@.skip(at as int));
        match read_field(rest) {
            None => {
                return None;
            },
            Some((field, used)) => {
                let ghost before = fields.deep_view();
                let ghost behind = fields_read(rest@.skip(used as int));
                fields.push(field);
                proof {
                    assert(fields.deep_view() =~= before.push(field.deep_view()));
                    assert(rest@.skip(used as int) =~= bytes@.skip(at + used));
                    if behind is Some {
                        assert(before + (seq![field.deep_view()] + behind.unwrap())
                            =~= fields.deep_view() + behind.unwrap());
                    }
                }
                at = at + used;
            },
        }
    }
    assert(fields.deep_view() + Seq::<FieldView>::empty() =~= fields.deep_view());
    Some(fields)
}

/// Appends the bytes of `field` to `out`.
fn write_field(out: &mut Vec<u8>, field: &Field) -> (ok: bool)
    ensures
        ok == field_fits(field.deep_view()),
        ok ==> final(out)@ == old(out)@ + field_written(field.deep_view()).unwrap(),
{
    if field.number == 0 || field.number > FIELD_NUMBER_MAX {
        return false;
    }
    match &field.value {
        FieldValue::Varint(value) => append_uint64(out, field.number, *value),
        FieldValue::Fixed32(value) => append_fixed32(out, field.number, *value),
        FieldValue::Bytes(value) => append_bytes(out, field.number, value.as_slice()),
        FieldValue::Other => false,
    }
}

/// The bytes of `fields` one after the other.
pub fn write_fields(fields: &Vec<Field>) -> (r: Option<Vec<u8>>)
    ensures
        r.deep_view() == fields_written(fields.deep_view()),
        r is Some <==> forall|i: int|
            0 <= i < fields.len() ==> field_fits(#[trigger] fields.deep_view()[i]),
{
    proof {
        lemma_fields_written_when_fit(fields.deep_view());
    }
    let mut out: Vec<u8> = Vec::new();
    let ghost all = fields.deep_view();
    let mut i: usize = 0;
    while i < fields.len()
        invariant
            i <= fields.len(),
            all == fields.deep_view(),
            fields_written(all.take(i as int)) == Some(out@),
        decreases fields.len() - i,
    {
        proof {
            assert(all.take(i + 1).drop_last() =~= all.take(i as int));
            assert(all.take(i + 1).last() == fields[i as int].deep_view());
        }
        if !write_field(&mut out, &fields[i]) {
            proof {
                lemma_unwritable_prefix(all, i + 1);
            }
            return None;
        }
        i += 1;
    }
    assert(all.take(i as int) =~= all);
    assert(Some(out).deep_view() =~= Some(out@));
    Some(out)
}

/// A run of fields can be written exactly where each of its fields can.
pub proof fn lemma_fields_written_when_fit(fields: Seq<FieldView>)
    ensures
        fields_written(fields) is Some <==> forall|i: int|
            0 <= i < fields.len() ==> field_fits(#[trigger] fields[i]),
    decreases fields.len(),
{
    if fields.len() > 0 {
        let rest = fields.drop_last();
        lemma_fields_written_when_fit(rest);
        if fields_written(fields) is Some {
            assert forall|i: int| 0 <= i < fields.len() implies field_fits(#[trigger] fields[i]) by {
                if i < rest.len() {
                    assert(field_fits(rest[i]));
                }
            }
        } else if forall|i: int| 0 <= i < fields.len() ==> field_fits(#[trigger] fields[i]) {
            assert forall|i: int| 0 <= i < rest.len() implies field_fits(#[trigger] rest[i]) by {
                assert(field_fits(fields[i]));
            }
            assert(field_fits(fields[fields.len() - 1]));
        }
    }
}

/// Where a prefix of a run of fields cannot be written, the run cannot.
pub proof fn lemma_unwritable_prefix(fields: Seq<FieldView>, n: int)
    requires
        0 <= n <= fields.len(),
        fields_written(fields.take(n)) is None,
    ensures
        fields_written(fields) is None,
    decreases fields.len() - n,
{
    if n < fields.len() {
        assert(fields.take(n + 1).drop_last() =~= fields.take(n));
        lemma_unwritable_prefix(fields, n + 1);
    } else {
        assert(fields.take(n) =~= fields);
    }
}

} // verus!
